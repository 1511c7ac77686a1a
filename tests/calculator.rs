use cheru::calculator::evaluate;

#[test]
fn basic_arithmetic() {
    assert_eq!(evaluate("2+3"), Some("5".into()));
    assert_eq!(evaluate("10-4"), Some("6".into()));
    assert_eq!(evaluate("3*4"), Some("12".into()));
    assert_eq!(evaluate("15/4"), Some("3.75".into()));
}

#[test]
fn operator_precedence() {
    assert_eq!(evaluate("2+3*4"), Some("14".into()));
    assert_eq!(evaluate("(2+3)*4"), Some("20".into()));
}

#[test]
fn power() {
    assert_eq!(evaluate("2^10"), Some("1024".into()));
}

#[test]
fn unary_minus() {
    assert_eq!(evaluate("-5+3"), Some("-2".into()));
}

#[test]
fn not_math() {
    assert_eq!(evaluate("hello"), None);
    assert_eq!(evaluate("firefox"), None);
    assert_eq!(evaluate(""), None);
}

#[test]
fn division_by_zero() {
    assert_eq!(evaluate("1/0"), None);
}

#[test]
fn rounds_to_ten_decimals() {
    assert_eq!(evaluate("1/3"), Some("0.3333333333".into()));
    assert_eq!(evaluate("2/3"), Some("0.6666666667".into()));
    assert_eq!(evaluate("-1/8"), Some("-0.125".into()));
}

#[test]
fn decimals_and_whitespace() {
    assert_eq!(evaluate(" 0.1 + 0.2 "), Some("0.3".into()));
    assert_eq!(evaluate("2.50*2"), Some("5".into()));
    assert_eq!(evaluate("1.2.3+1"), None);
}

#[test]
fn powers_are_right_associative_and_may_be_negative() {
    assert_eq!(evaluate("2^3^2"), Some("512".into()));
    assert_eq!(evaluate("2^-1"), Some("0.5".into()));
    assert_eq!(evaluate("1^123456789012"), Some("1".into()));
    assert_eq!(evaluate("2^0.5"), None);
}

#[test]
fn malformed_expressions_have_no_value() {
    assert_eq!(evaluate("(2+3"), None);
    assert_eq!(evaluate("2+"), None);
    assert_eq!(evaluate("3)"), None);
    assert_eq!(evaluate("12"), None);
}

#[test]
fn out_of_range_has_no_value() {
    assert_eq!(evaluate("10^30"), None);
    assert_eq!(evaluate("1000000000000*1000000000000"), Some("1000000000000000000000000".into()));
}
