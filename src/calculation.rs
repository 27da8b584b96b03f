//! One calculation on two operands given as text: the entry point for callers
//! that hold text and an operation code.
use vstd::prelude::*;

use crate::decimal::{Decimal, DecimalError};
use crate::text::{parse_result, text_of};

verus! {

/// The name of an error, as a calculation reports it.
pub open spec fn error_text(e: DecimalError) -> Seq<char> {
    match e {
        DecimalError::ParseError => "ParseError"@,
        DecimalError::OverflowError => "OverflowError"@,
        DecimalError::DivideByZeroError => "DivideByZeroError"@,
    }
}

/// The text of an outcome: the canonical text of a result, or the name of
/// an error.
pub open spec fn outcome_text(r: Result<Decimal, DecimalError>) -> Seq<char> {
    match r {
        Ok(d) => text_of(d),
        Err(e) => error_text(e),
    }
}

/// The text `calculation` returns: both operands are parsed (the first error
/// wins); then operation 0 adds, 1 subtracts, 2 multiplies and 4 divides, and
/// any other operation gives `0`.
pub open spec fn calculation_result(a: Seq<char>, b: Seq<char>, operation: i32) -> Seq<char> {
    match (parse_result(a), parse_result(b)) {
        (Err(e), _) => error_text(e),
        (Ok(_), Err(e)) => error_text(e),
        (Ok(x), Ok(y)) => if operation == 0 {
            outcome_text(Decimal::add_result(x, y))
        } else if operation == 1 {
            outcome_text(Decimal::sub_result(x, y))
        } else if operation == 2 {
            outcome_text(Decimal::mul_result(x, y))
        } else if operation == 4 {
            outcome_text(Decimal::div_result(x, y))
        } else {
            "0"@
        },
    }
}

fn error_string(e: DecimalError) -> (r: String)
    ensures
        r@ == error_text(e),
{
    let mut out = String::new();
    let name = match e {
        DecimalError::ParseError => "ParseError",
        DecimalError::OverflowError => "OverflowError",
        DecimalError::DivideByZeroError => "DivideByZeroError",
    };
    out.append(name);
    out
}

fn outcome_string(r: Result<Decimal, DecimalError>) -> (s: String)
    requires
        r matches Ok(d) ==> d.wf(),
    ensures
        s@ == outcome_text(r),
{
    match r {
        Ok(d) => d.to_text(),
        Err(e) => error_string(e),
    }
}

/// Parses both operands, applies the operation and renders the outcome as text
/// (see `calculation_result`).
pub fn calculation(operand1: String, operand2: String, operation: i32) -> (r: String)
    ensures
        r@ == calculation_result(operand1@, operand2@, operation),
{
    let x = match Decimal::parse(operand1.as_str()) {
        Ok(d) => d,
        Err(e) => {
            return error_string(e);
        },
    };
    let y = match Decimal::parse(operand2.as_str()) {
        Ok(d) => d,
        Err(e) => {
            return error_string(e);
        },
    };
    let outcome = if operation == 0 {
        x.add(&y)
    } else if operation == 1 {
        x.sub(&y)
    } else if operation == 2 {
        x.mul(&y)
    } else if operation == 4 {
        x.div(&y)
    } else {
        let mut out = String::new();
        out.append("0");
        return out;
    };
    outcome_string(outcome)
}

} // verus!
