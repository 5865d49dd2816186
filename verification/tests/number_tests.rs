use sshmon::number::format_two_decimals;

#[test]
fn integer_gets_two_decimals() {
    assert_eq!(format_two_decimals("25"), Some("25.00".to_string()));
}

#[test]
fn fraction_is_padded() {
    assert_eq!(format_two_decimals("12.5"), Some("12.50".to_string()));
}

#[test]
fn half_rounds_up() {
    assert_eq!(format_two_decimals("0.125"), Some("0.13".to_string()));
    assert_eq!(format_two_decimals("33.333333"), Some("33.33".to_string()));
    assert_eq!(format_two_decimals("66.666666"), Some("66.67".to_string()));
}

#[test]
fn carry_crosses_the_point() {
    assert_eq!(format_two_decimals("0.999"), Some("1.00".to_string()));
    assert_eq!(format_two_decimals("99.995"), Some("100.00".to_string()));
}

#[test]
fn leading_zeros_are_dropped() {
    assert_eq!(format_two_decimals("007.5"), Some("7.50".to_string()));
    assert_eq!(format_two_decimals("000"), Some("0.00".to_string()));
}

#[test]
fn bare_point_forms() {
    assert_eq!(format_two_decimals("5."), Some("5.00".to_string()));
    assert_eq!(format_two_decimals(".5"), Some("0.50".to_string()));
}

#[test]
fn signs_are_kept() {
    assert_eq!(format_two_decimals("+3"), Some("3.00".to_string()));
    assert_eq!(format_two_decimals("-2.345"), Some("-2.35".to_string()));
    assert_eq!(format_two_decimals("-0.001"), Some("-0.00".to_string()));
}

#[test]
fn non_numeric_is_rejected() {
    assert_eq!(format_two_decimals(""), None);
    assert_eq!(format_two_decimals("."), None);
    assert_eq!(format_two_decimals("+"), None);
    assert_eq!(format_two_decimals("-."), None);
    assert_eq!(format_two_decimals("abc"), None);
    assert_eq!(format_two_decimals("1.2.3"), None);
    assert_eq!(format_two_decimals("--1"), None);
    assert_eq!(format_two_decimals("1e3"), None);
    assert_eq!(format_two_decimals("12 "), None);
}
