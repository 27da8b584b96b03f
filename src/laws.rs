//! Algebraic laws of the decimal operations, stated over the result functions
//! that the operations' contracts use.
use vstd::prelude::*;

use crate::decimal::{max_magnitude, Decimal, DecimalComparison, DecimalError, DecimalSign};
use crate::magnitude::{lemma_limbs_unique, lemma_pow10_38, lemma_pow10_monotone, pow10};
use crate::text::{
    digit_count, digits_value, is_decimal_text, lemma_digits_value_bound, lemma_text_of_parts,
    parse_result, point_scale, text_body, text_of, text_sign, text_value_at,
};

verus! {

/// A decimal that holds the given parts is the decimal of those parts.
pub proof fn lemma_holds_unique(d: Decimal, sign: DecimalSign, precision: nat, scale: nat, m: nat)
    requires
        d.holds(sign, precision, scale, m),
        precision <= 38,
        scale <= 38,
    ensures
        d == Decimal::decimal_of(sign, precision, scale, m),
{
    lemma_limbs_unique(d.part_0, d.part_1, d.part_2, d.part_3);
}

/// The decimal of parts within range holds those parts.
pub proof fn lemma_decimal_of_holds(sign: DecimalSign, precision: nat, scale: nat, m: nat)
    requires
        m <= max_magnitude(),
        precision <= 38,
        scale <= 38,
    ensures
        Decimal::decimal_of(sign, precision, scale, m).holds(sign, precision, scale, m),
        Decimal::decimal_of(sign, precision, scale, m).wf(),
{
    crate::magnitude::lemma_limbs_of(m);
}

/// Adding the canonical zero gives back the same decimal.
pub proof fn lemma_add_zero_identity(x: Decimal)
    requires
        x.wf(),
    ensures
        Decimal::add_result(x, Decimal::spec_zero()) == Ok::<Decimal, DecimalError>(x),
{
    let z = Decimal::spec_zero();
    let m = Decimal::common_scale(x, z);
    assert(m == x.scale.value);
    assert((m - x.scale.value) as nat == 0);
    assert(pow10(0) == 1);
    assert(x.mag_at(m) == x.mag() * 1);
    assert(z.mag() == 0);
    assert(z.mag_at(m) == 0 * pow10((m - z.scale.value) as nat));
    lemma_holds_unique(
        x,
        if x.signed_mag() < 0 {
            DecimalSign::Negative
        } else {
            DecimalSign::Positive
        },
        x.precision.value as nat,
        m,
        x.mag(),
    );
}

/// A decimal plus its negation is the canonical zero.
pub proof fn lemma_add_negation_inverse(x: Decimal)
    requires
        x.wf(),
    ensures
        Decimal::add_result(x, Decimal::negated(x)) == Ok::<Decimal, DecimalError>(
            Decimal::spec_zero(),
        ),
{
    let n = Decimal::negated(x);
    let m = Decimal::common_scale(x, n);
    lemma_limbs_unique(x.part_0, x.part_1, x.part_2, x.part_3);
    assert(n.mag() == x.mag());
    assert(m == x.scale.value || x.mag() == 0);
    assert(n.mag_at(m) == x.mag_at(m));
    assert(n.value_at(m) == -x.value_at(m));
    crate::decimal::lemma_mag_at_positive(x, m);
    assert(x.mag_at(m) <= max_magnitude()) by {
        assert(m == x.scale.value);
        assert((m - x.scale.value) as nat == 0);
        assert(pow10(0) == 1);
        assert(x.mag_at(m) == x.mag() * 1);
    }
}

/// Addition commutes.
pub proof fn lemma_add_commutes(a: Decimal, b: Decimal)
    requires
        a.wf(),
        b.wf(),
    ensures
        Decimal::add_result(a, b) == Decimal::add_result(b, a),
{
    assert(Decimal::common_scale(a, b) == Decimal::common_scale(b, a));
}

/// Multiplication commutes.
pub proof fn lemma_mul_commutes(a: Decimal, b: Decimal)
    requires
        a.wf(),
        b.wf(),
    ensures
        Decimal::mul_result(a, b) == Decimal::mul_result(b, a),
{
    assert(a.mag() * b.mag() == b.mag() * a.mag()) by (nonlinear_arith);
}

/// A product of two nonzero decimals, when it exists, has the sum of their
/// scales as its scale.
pub proof fn lemma_mul_scale(a: Decimal, b: Decimal)
    requires
        a.wf(),
        b.wf(),
        a.mag() != 0,
        b.mag() != 0,
    ensures
        Decimal::mul_result(a, b) matches Ok(d) ==> d.scale.value == a.scale.value
            + b.scale.value,
{
    assert(a.mag() * b.mag() != 0) by (nonlinear_arith)
        requires
            a.mag() != 0,
            b.mag() != 0,
    ;
}

/// A product whose magnitude would exceed 38 nines is an overflow error.
pub proof fn lemma_mul_overflow(a: Decimal, b: Decimal)
    requires
        a.wf(),
        b.wf(),
        a.mag() * b.mag() > max_magnitude(),
    ensures
        Decimal::mul_result(a, b) == Err::<Decimal, DecimalError>(DecimalError::OverflowError),
{
}

/// `a` is greater than `b` exactly when `b` is less than `a`.
pub proof fn lemma_compare_antisymmetric(a: Decimal, b: Decimal)
    requires
        a.wf(),
        b.wf(),
    ensures
        (Decimal::compare_result(a, b) == DecimalComparison::GT) <==> (Decimal::compare_result(
            b,
            a,
        ) == DecimalComparison::LT),
{
    assert(Decimal::common_scale(a, b) == Decimal::common_scale(b, a));
}

/// Every decimal compares equal to itself.
pub proof fn lemma_compare_reflexive(a: Decimal)
    requires
        a.wf(),
    ensures
        Decimal::compare_result(a, a) == DecimalComparison::EQ,
{
}

/// What parsing decimal text gives is well formed and holds the text's sign,
/// digit count, scale and digits' number.
pub proof fn lemma_parse_holds(t: Seq<char>)
    requires
        is_decimal_text(t),
    ensures
        parse_result(t) is Ok,
        parse_result(t)->Ok_0.wf(),
        parse_result(t)->Ok_0.holds(
            text_sign(t),
            digit_count(text_body(t)),
            point_scale(text_body(t)),
            digits_value(text_body(t)),
        ),
{
    let b = text_body(t);
    lemma_digits_value_bound(b);
    lemma_pow10_38();
    lemma_pow10_monotone(digit_count(b), 38);
    lemma_decimal_of_holds(text_sign(t), digit_count(b), point_scale(b), digits_value(b));
}

/// The canonical text of a parsed decimal denotes the same number as the text
/// it was parsed from: written at any scale at least both texts' scales, the
/// two values agree.
pub proof fn lemma_round_trip_value(t: Seq<char>, s: nat)
    requires
        is_decimal_text(t),
        point_scale(text_body(t)) <= s,
        point_scale(text_body(text_of(parse_result(t)->Ok_0))) <= s,
    ensures
        text_value_at(text_of(parse_result(t)->Ok_0), s) == text_value_at(t, s),
{
    let d = parse_result(t)->Ok_0;
    let u = text_of(d);
    let b = text_body(t);
    lemma_parse_holds(t);
    if d.mag() == 0 {
        assert(u == seq!['0']);
        assert(text_body(u) == u);
        crate::text::lemma_single('0');
        assert(digits_value(b) == 0);
        assert(text_value_at(t, s) == 0);
    } else {
        lemma_text_of_parts(d);
        if d.scale.value == 0 {
            assert(pow10((s - 0) as nat) == 10 * pow10((s - 1) as nat));
            assert(10 * d.mag() * pow10((s - 1) as nat) == d.mag() * (10 * pow10((s - 1) as nat)))
                by (nonlinear_arith);
        }
    }
}

/// Parsing the canonical text of a parsed decimal gives a decimal equal to it
/// in value, when that text has at most 38 digits.
pub proof fn lemma_round_trip_reparse(t: Seq<char>)
    requires
        is_decimal_text(t),
        digit_count(text_body(text_of(parse_result(t)->Ok_0))) <= 38,
    ensures
        parse_result(text_of(parse_result(t)->Ok_0)) is Ok,
        Decimal::compare_result(
            parse_result(text_of(parse_result(t)->Ok_0))->Ok_0,
            parse_result(t)->Ok_0,
        ) == DecimalComparison::EQ,
{
    let d = parse_result(t)->Ok_0;
    let u = text_of(d);
    lemma_parse_holds(t);
    if d.mag() == 0 {
        assert(u == seq!['0']);
        assert(text_body(u) == u);
        crate::text::lemma_single('0');
        assert(is_decimal_text(u));
        lemma_parse_holds(u);
    } else {
        lemma_text_of_parts(d);
        assert(is_decimal_text(u));
        lemma_parse_holds(u);
        let e = parse_result(u)->Ok_0;
        let m = Decimal::common_scale(e, d);
        if d.scale.value == 0 {
            assert(m == 1);
            assert(pow10(1) == 10) by {
                reveal_with_fuel(pow10, 2);
            }
            assert(pow10(0) == 1);
            assert(e.mag_at(m) == 10 * d.mag() * 1);
            assert(d.mag_at(m) == d.mag() * 10);
        } else {
            assert(e.scale == d.scale);
        }
    }
}

} // verus!
