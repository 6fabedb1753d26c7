use nova_bridge::json::Quantity;
use nova_bridge::number::parse_quantity;

#[test]
fn scientific_numerals_parse_to_exact_quantities() {
    // The shapes `format!("{x:e}")` produces for 64-bit floats.
    assert_eq!(
        parse_quantity("6.7056e1"),
        Some(Quantity { neg: false, mantissa: 67056, exp10: -3 })
    );
    assert_eq!(
        parse_quantity("-2e0"),
        Some(Quantity { neg: true, mantissa: 2, exp10: 0 })
    );
    assert_eq!(
        parse_quantity("1.5e2"),
        Some(Quantity { neg: false, mantissa: 15, exp10: 1 })
    );
    assert_eq!(
        parse_quantity("0e0"),
        Some(Quantity { neg: false, mantissa: 0, exp10: 0 })
    );
    assert_eq!(
        parse_quantity("1e-300"),
        Some(Quantity { neg: false, mantissa: 1, exp10: -300 })
    );
    // A bare numeral without an exponent part is a quantity too.
    assert_eq!(
        parse_quantity("2800"),
        Some(Quantity { neg: false, mantissa: 2800, exp10: 0 })
    );
    assert_eq!(
        parse_quantity("12.5"),
        Some(Quantity { neg: false, mantissa: 125, exp10: -1 })
    );
}

#[test]
fn malformed_numerals_are_rejected() {
    assert_eq!(parse_quantity(""), None);
    assert_eq!(parse_quantity("-"), None);
    assert_eq!(parse_quantity("."), None);
    assert_eq!(parse_quantity(".5"), None);
    assert_eq!(parse_quantity("1."), None);
    assert_eq!(parse_quantity("1e"), None);
    assert_eq!(parse_quantity("1e+5"), None);
    assert_eq!(parse_quantity("1.2.3"), None);
    assert_eq!(parse_quantity("abc"), None);
    assert_eq!(parse_quantity("1x5"), None);
    assert_eq!(parse_quantity(" 1"), None);
}

#[test]
fn out_of_range_numerals_are_rejected() {
    // A mantissa beyond the well-formed range.
    assert_eq!(parse_quantity("100000000000000000000e0"), None);
    // An effective exponent beyond the well-formed range.
    assert_eq!(parse_quantity("1e200000"), None);
    assert_eq!(parse_quantity("1e-200000"), None);
    // An exponent numeral beyond nine digits' worth.
    assert_eq!(parse_quantity("1e10000000000"), None);
}
