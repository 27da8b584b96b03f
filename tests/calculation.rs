use wasm_decimal::calculation;

fn calc(a: &str, b: &str, op: i32) -> String {
    calculation(String::from(a), String::from(b), op)
}

#[test]
fn calculation_dispatches_operations() {
    assert_eq!(calc("111", "11", 0), "122.0");
    assert_eq!(calc("111", "11", 1), "100.0");
    assert_eq!(calc("11", "11", 2), "121.0");
    assert_eq!(calc("2222222222222", "1111111111111", 4), "2.0");
    assert_eq!(calc("1", "2", 3), "0");
    assert_eq!(calc("1", "2", -1), "0");
}

#[test]
fn calculation_reports_errors() {
    assert_eq!(calc("1.2.3", "1", 0), "ParseError");
    assert_eq!(calc("1", "x", 0), "ParseError");
    assert_eq!(calc("1", "0", 4), "DivideByZeroError");
    assert_eq!(calc("99999999999999999999999999999999999999", "10", 2), "OverflowError");
}
