use wasm_decimal::{
    Decimal, DecimalComparison, DecimalError, DecimalPrecision, DecimalScale, DecimalSign,
};

fn parts(d: &Decimal) -> (DecimalSign, u32, u32, u32, u32, u32, u32) {
    (
        d.sign,
        d.precision.value as u32,
        d.scale.value as u32,
        d.part_0,
        d.part_1,
        d.part_2,
        d.part_3,
    )
}

fn scale(v: usize) -> DecimalScale {
    DecimalScale::try_from_usize(v).unwrap()
}

fn precision(v: usize) -> DecimalPrecision {
    DecimalPrecision::try_from_usize(v).unwrap()
}

#[test]
fn decimal_mul_works() {
    let test1 = Decimal::parse("11").unwrap();
    let test2 = Decimal::parse("11").unwrap();

    let result = test1.mul(&test2).unwrap();
    assert_eq!(result.precision.value as u32, 38);
    assert_eq!(result.scale.value as u32, 0);
    assert_eq!(result.part_0, 121);
    assert_eq!(result.part_1, 0);
    assert_eq!(result.part_2, 0);
    assert_eq!(result.part_3, 0);

    let test1 = Decimal::parse("2222222222222").unwrap();
    let test2 = Decimal::parse("1111111111111").unwrap();
    let result = test1.mul(&test2).unwrap();
    assert_eq!(
        (result.part_0, result.part_1, result.part_2, result.part_3),
        (3476033890, 515653395, 133852, 0)
    );
}

#[test]
fn decimal_div_works() {
    let test1 = Decimal::parse("2222222222222").unwrap();
    let test2 = Decimal::parse("1111111111111").unwrap();

    let result = test1.div(&test2).unwrap();
    assert_eq!(result.precision.value as u32, 38);
    assert_eq!(result.scale.value as u32, 0);
    assert_eq!(result.part_0, 2);
    assert_eq!(result.part_1, 0);
    assert_eq!(result.part_2, 0);
    assert_eq!(result.part_3, 0);
}

#[test]
fn decimal_display_works() {
    let test = Decimal::new(DecimalSign::Positive, precision(38), scale(0), 77, 0, 0, 0);
    assert_eq!(test.to_text(), "77.0");

    let test = Decimal::new(DecimalSign::Positive, precision(38), scale(1), 77, 0, 0, 0);
    assert_eq!(test.to_text(), "7.7");

    let test = Decimal::new(DecimalSign::Positive, precision(38), scale(2), 77, 0, 0, 0);
    assert_eq!(test.to_text(), "0.77");

    let test = Decimal::new(DecimalSign::Positive, precision(38), scale(3), 77, 0, 0, 0);
    assert_eq!(test.to_text(), "0.077");
}

#[test]
fn decimal_parse_works() {
    let test = Decimal::parse("0.11").unwrap();
    assert_eq!(parts(&test), (DecimalSign::Positive, 3, 2, 11, 0, 0, 0));

    let test = Decimal::parse("1.1").unwrap();
    assert_eq!(parts(&test), (DecimalSign::Positive, 2, 1, 11, 0, 0, 0));

    let test = Decimal::parse("11").unwrap();
    assert_eq!(parts(&test), (DecimalSign::Positive, 2, 0, 11, 0, 0, 0));

    let test = Decimal::parse("11.0").unwrap();
    assert_eq!(parts(&test), (DecimalSign::Positive, 3, 1, 110, 0, 0, 0));
}

#[test]
fn decimal_add_works() {
    let test1 = Decimal::parse("111").unwrap();
    let test2 = Decimal::parse("11").unwrap();
    let result = test1.add(&test2).unwrap();
    assert_eq!(parts(&result), (DecimalSign::Positive, 3, 0, 122, 0, 0, 0));
}

#[test]
fn decimal_sub_works() {
    let test1 = Decimal::parse("111").unwrap();
    let test2 = Decimal::parse("11").unwrap();
    let result = test1.sub(&test2).unwrap();
    assert_eq!(parts(&result), (DecimalSign::Positive, 3, 0, 100, 0, 0, 0));
}

#[test]
fn decimal_mixed_works() {
    let decimal = Decimal::parse("2000000000002").unwrap();
    assert_eq!(parts(&decimal), (DecimalSign::Positive, 13, 0, 2840207362, 465, 0, 0));
    assert_eq!(decimal.to_text(), "2000000000002.0");

    let decimal = Decimal::parse("9999999999999").unwrap();
    assert_eq!(parts(&decimal), (DecimalSign::Positive, 13, 0, 1316134911, 2328, 0, 0));
    assert_eq!(decimal.to_text(), "9999999999999.0");
}

#[test]
fn parse_signs_and_points() {
    let d = Decimal::parse("-12.50").unwrap();
    assert_eq!(parts(&d), (DecimalSign::Negative, 4, 2, 1250, 0, 0, 0));
    let d = Decimal::parse("+7").unwrap();
    assert_eq!(parts(&d), (DecimalSign::Positive, 1, 0, 7, 0, 0, 0));
    let d = Decimal::parse(".5").unwrap();
    assert_eq!(parts(&d), (DecimalSign::Positive, 1, 1, 5, 0, 0, 0));
    let d = Decimal::parse("5.").unwrap();
    assert_eq!(parts(&d), (DecimalSign::Positive, 1, 0, 5, 0, 0, 0));
}

#[test]
fn parse_zero_is_canonical() {
    for text in ["0", "-0", "0.000", "+00"] {
        let d = Decimal::parse(text).unwrap();
        assert_eq!(d, Decimal::zero());
        assert_eq!(parts(&d), (DecimalSign::Positive, 0, 0, 0, 0, 0, 0));
        assert_eq!(d.to_text(), "0");
    }
}

#[test]
fn parse_rejects_bad_text() {
    for text in [
        "", "-", "+", ".", "1.2.3", "1-2", "--1", "+-1", "1+", "abc", "1 2", "1e5",
    ] {
        assert_eq!(Decimal::parse(text), Err(DecimalError::ParseError), "{}", text);
    }
}

#[test]
fn parse_digit_limit() {
    let max = Decimal::parse("99999999999999999999999999999999999999").unwrap();
    assert_eq!(
        parts(&max),
        (DecimalSign::Positive, 38, 0, 4294967295, 160047679, 1518781562, 1262177448)
    );
    assert_eq!(
        Decimal::parse("999999999999999999999999999999999999999"),
        Err(DecimalError::ParseError)
    );
    assert_eq!(
        Decimal::parse("0.00000000000000000000000000000000000001"),
        Err(DecimalError::ParseError)
    );
    let tiny = Decimal::parse(".00000000000000000000000000000000000001").unwrap();
    assert_eq!(parts(&tiny), (DecimalSign::Positive, 38, 38, 1, 0, 0, 0));
}

#[test]
fn to_text_formats() {
    let d = Decimal::new(DecimalSign::Negative, precision(5), scale(2), 5, 0, 0, 0);
    assert_eq!(d.to_text(), "-0.05");
    let d = Decimal::new(DecimalSign::Negative, precision(5), scale(0), 120, 0, 0, 0);
    assert_eq!(d.to_text(), "-120.0");
    let d = Decimal::new(DecimalSign::Positive, precision(5), scale(3), 100, 0, 0, 0);
    assert_eq!(d.to_text(), "0.100");
    let d = Decimal::new(DecimalSign::Positive, precision(38), scale(5), 3476033890, 515653395, 133852, 0);
    assert_eq!(d.to_text(), "24691358024686419753.08642");
    let max = Decimal::parse("99999999999999999999999999999999999999").unwrap();
    assert_eq!(max.to_text(), "99999999999999999999999999999999999999.0");
    let tiny = Decimal::parse(".00000000000000000000000000000000000001").unwrap();
    assert_eq!(tiny.to_text(), "0.00000000000000000000000000000000000001");
    let power = Decimal::parse("10000000000000000000000000000000000000").unwrap();
    assert_eq!(power.to_text(), "10000000000000000000000000000000000000.0");
}

#[test]
fn round_trip_keeps_value() {
    for text in ["0.11", "11", "-3.25", "0.007", "123456789.987654321", "-0.5"] {
        let d = Decimal::parse(text).unwrap();
        let again = Decimal::parse(&d.to_text()).unwrap();
        assert_eq!(again.compare(&d), DecimalComparison::EQ, "{}", text);
        assert_eq!(again.sign, d.sign);
    }
    let d = Decimal::parse("-3.25").unwrap();
    let again = Decimal::parse(&d.to_text()).unwrap();
    assert_eq!((again.part_0, again.scale.value), (325, 2));
}

#[test]
fn add_identity_and_inverse() {
    for text in ["0", "1.25", "-7", "99999999999999999999999999999999999999"] {
        let x = Decimal::parse(text).unwrap();
        assert_eq!(x.add(&Decimal::zero()), Ok(x));
        assert_eq!(x.add(&x.negate()), Ok(Decimal::zero()));
    }
}

#[test]
fn add_and_mul_commute() {
    let pairs = [("1.5", "-2.25"), ("-3", "-4.1"), ("100", "0.001"), ("0", "5")];
    for (a, b) in pairs {
        let a = Decimal::parse(a).unwrap();
        let b = Decimal::parse(b).unwrap();
        assert_eq!(a.add(&b), b.add(&a));
        assert_eq!(a.mul(&b), b.mul(&a));
    }
}

#[test]
fn add_rescales_and_signs() {
    let a = Decimal::parse("1.5").unwrap();
    let b = Decimal::parse("-2.25").unwrap();
    let r = a.add(&b).unwrap();
    assert_eq!(parts(&r), (DecimalSign::Negative, 3, 2, 75, 0, 0, 0));
    assert_eq!(r.to_text(), "-0.75");
    let r = a.sub(&b).unwrap();
    assert_eq!(r.to_text(), "3.75");
    let r = b.sub(&b).unwrap();
    assert_eq!(r, Decimal::zero());
}

#[test]
fn add_overflow_is_error() {
    let max = Decimal::parse("99999999999999999999999999999999999999").unwrap();
    let one = Decimal::parse("1").unwrap();
    assert_eq!(max.add(&one), Err(DecimalError::OverflowError));
    assert_eq!(max.negate().sub(&one), Err(DecimalError::OverflowError));
    let tenth = Decimal::parse("0.1").unwrap();
    assert_eq!(max.add(&tenth), Err(DecimalError::OverflowError));
    assert_eq!(max.sub(&one).unwrap().to_text(), "99999999999999999999999999999999999998.0");
}

#[test]
fn mul_scale_sign_and_overflow() {
    let a = Decimal::parse("-1.5").unwrap();
    let b = Decimal::parse("0.25").unwrap();
    let r = a.mul(&b).unwrap();
    assert_eq!(parts(&r), (DecimalSign::Negative, 38, 3, 375, 0, 0, 0));
    let max = Decimal::parse("99999999999999999999999999999999999999").unwrap();
    let ten = Decimal::parse("10").unwrap();
    assert_eq!(max.mul(&ten), Err(DecimalError::OverflowError));
    assert_eq!(max.mul(&max), Err(DecimalError::OverflowError));
    let big = Decimal::parse("10000000000000000000").unwrap();
    assert_eq!(big.mul(&big), Err(DecimalError::OverflowError));
    let small = Decimal::parse(".0000000000000000001").unwrap();
    let smaller = Decimal::parse(".00000000000000000001").unwrap();
    assert_eq!(small.mul(&smaller), Err(DecimalError::OverflowError));
    let neg = Decimal::parse("-2").unwrap();
    assert_eq!(neg.mul(&neg).unwrap().to_text(), "4.0");
}

#[test]
fn div_quotients() {
    let a = Decimal::parse("7").unwrap();
    let b = Decimal::parse("-2").unwrap();
    let r = a.div(&b).unwrap();
    assert_eq!(parts(&r), (DecimalSign::Negative, 38, 0, 3, 0, 0, 0));
    let a = Decimal::parse("7.50").unwrap();
    let b = Decimal::parse("2").unwrap();
    assert_eq!(a.div(&b).unwrap().to_text(), "3.75");
    let a = Decimal::parse("3").unwrap();
    let b = Decimal::parse("0.4").unwrap();
    assert_eq!(a.div(&b).unwrap().to_text(), "7.0");
    let a = Decimal::parse("1").unwrap();
    let b = Decimal::parse("3").unwrap();
    assert_eq!(a.div(&b).unwrap(), Decimal::zero());
    let max = Decimal::parse("99999999999999999999999999999999999999").unwrap();
    let one = Decimal::parse("1").unwrap();
    assert_eq!(max.div(&one).unwrap().to_text(), max.to_text());
    let seven = Decimal::parse("7").unwrap();
    assert_eq!(
        max.div(&seven).unwrap().to_text(),
        "14285714285714285714285714285714285714.0"
    );
}

#[test]
fn div_errors() {
    let a = Decimal::parse("1").unwrap();
    assert_eq!(a.div(&Decimal::zero()), Err(DecimalError::DivideByZeroError));
    let max = Decimal::parse("99999999999999999999999999999999999999").unwrap();
    let b = Decimal::parse("0.5").unwrap();
    assert_eq!(max.div(&b), Err(DecimalError::OverflowError));
}

#[test]
fn compare_orders_values() {
    let a = Decimal::parse("1.50").unwrap();
    let b = Decimal::parse("1.5").unwrap();
    let c = Decimal::parse("-2").unwrap();
    let d = Decimal::parse("10").unwrap();
    assert_eq!(a.compare(&b), DecimalComparison::EQ);
    assert_eq!(a.compare(&c), DecimalComparison::GT);
    assert_eq!(c.compare(&a), DecimalComparison::LT);
    assert_eq!(d.compare(&a), DecimalComparison::GT);
    assert_eq!(a.compare(&d), DecimalComparison::LT);
    assert_eq!(c.compare(&c), DecimalComparison::EQ);
    assert_eq!(c.compare_modulo(&a), DecimalComparison::GT);
    let neg_small = Decimal::parse("-0.5").unwrap();
    assert_eq!(c.compare(&neg_small), DecimalComparison::LT);
    let max = Decimal::parse("99999999999999999999999999999999999999").unwrap();
    let tiny = Decimal::parse(".00000000000000000000000000000000000001").unwrap();
    assert_eq!(max.compare_modulo(&tiny), DecimalComparison::GT);
    assert_eq!(tiny.compare_modulo(&max), DecimalComparison::LT);
}

#[test]
fn scale_and_precision_steps() {
    assert_eq!(DecimalScale::inc(scale(37)), Ok(scale(38)));
    assert_eq!(DecimalScale::inc(scale(38)), Err(DecimalError::OverflowError));
    assert_eq!(DecimalScale::dec(scale(1)), Ok(scale(0)));
    assert_eq!(DecimalScale::dec(scale(0)), Err(DecimalError::OverflowError));
    assert_eq!(scale(20).add(scale(18)), Ok(scale(38)));
    assert_eq!(scale(20).add(scale(19)), Err(DecimalError::OverflowError));
    assert_eq!(DecimalScale::try_from_usize(39), Err(DecimalError::OverflowError));
    assert_eq!(DecimalPrecision::inc(precision(1)), Ok(precision(2)));
    assert_eq!(DecimalPrecision::inc(precision(38)), Err(DecimalError::OverflowError));
    assert_eq!(DecimalPrecision::dec(precision(2)), Ok(precision(1)));
    assert_eq!(DecimalPrecision::dec(precision(1)), Err(DecimalError::OverflowError));
    assert_eq!(DecimalPrecision::try_to_usize(precision(17)), Ok(17));
}

#[test]
fn rescaling_helpers() {
    let d = Decimal::parse("1.5").unwrap();
    let n = d.normalize(scale(4)).unwrap();
    assert_eq!(parts(&n), (DecimalSign::Positive, 2, 4, 15000, 0, 0, 0));
    let max = Decimal::parse("99999999999999999999999999999999999999").unwrap();
    assert_eq!(max.normalize(scale(1)), Err(DecimalError::OverflowError));
    assert_eq!(d.mul_10().unwrap().to_text(), "15.0");
    assert_eq!(max.mul_10(), Err(DecimalError::OverflowError));
    let seven = Decimal::parse("7").unwrap();
    assert_eq!(parts(&seven.mul_10().unwrap()), (DecimalSign::Positive, 1, 0, 70, 0, 0, 0));
    assert_eq!(d.div_10().unwrap().to_text(), "0.15");
    let tiny = Decimal::parse(".00000000000000000000000000000000000001").unwrap();
    assert_eq!(tiny.div_10(), Err(DecimalError::OverflowError));
}

#[test]
fn new_and_parts() {
    let d = Decimal::new(DecimalSign::Negative, precision(3), scale(1), 0, 0, 0, 0);
    assert_eq!(d, Decimal::zero());
    let d = Decimal::new(DecimalSign::Negative, precision(3), scale(1), 5, 1, 0, 0);
    assert_eq!(d.to_parts(), (DecimalSign::Negative, precision(3), scale(1), 5, 1, 0, 0));
    assert!(d.is_well_formed());
    let bad = Decimal { part_3: 0xFFFF_FFFF, ..d };
    assert!(!bad.is_well_formed());
}
