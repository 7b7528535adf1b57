use typograf_client::digits::to_decimal;

#[test]
fn to_decimal_renders_exact_digit_strings() {
    assert_eq!(to_decimal(0), "0");
    assert_eq!(to_decimal(7), "7");
    assert_eq!(to_decimal(10), "10");
    assert_eq!(to_decimal(255), "255");
    assert_eq!(to_decimal(9081726354), "9081726354");
}
