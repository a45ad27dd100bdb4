use battery_status::numeric::extract_number;
use battery_status::numeric::Decimal;

fn dec(mantissa: u64, scale: u64) -> Decimal {
    Decimal { mantissa, scale }
}

#[test]
fn percent_sign_is_dropped() {
    assert_eq!(extract_number("100%"), dec(100, 0));
}

#[test]
fn units_and_padding_are_dropped() {
    assert_eq!(extract_number("  47.50 Wh "), dec(475, 1));
}

#[test]
fn empty_text_is_zero() {
    assert_eq!(extract_number(""), dec(0, 0));
}

#[test]
fn not_available_is_zero() {
    assert_eq!(extract_number("N/A"), dec(0, 0));
}

#[test]
fn thousands_comma_quirk_yields_zero() {
    // The comma fix-up leaves "1.234.5", which is no single number.
    assert_eq!(extract_number("1,234.5 Wh"), dec(0, 0));
}

#[test]
fn comma_serves_as_decimal_point() {
    assert_eq!(extract_number("47,5 Wh"), dec(475, 1));
}

#[test]
fn trailing_fraction_zeros_are_normalized() {
    assert_eq!(extract_number("35.000"), dec(35, 0));
    assert_eq!(extract_number("0.000"), dec(0, 0));
    assert_eq!(extract_number("0.50"), dec(5, 1));
}

#[test]
fn bare_point_forms_parse() {
    assert_eq!(extract_number(".5"), dec(5, 1));
    assert_eq!(extract_number("1."), dec(1, 0));
}

#[test]
fn lone_period_is_zero() {
    assert_eq!(extract_number("."), dec(0, 0));
    assert_eq!(extract_number(" Wh "), dec(0, 0));
}

#[test]
fn two_periods_are_zero() {
    assert_eq!(extract_number("1.2.3"), dec(0, 0));
}

#[test]
fn digits_beyond_the_word_size_are_zero() {
    assert_eq!(extract_number("99999999999999999999999999"), dec(0, 0));
}

#[test]
fn long_fraction_that_normalizes_fits() {
    // Unnormalized this is 35 followed by twenty fractional zeros; in
    // lowest form it is exactly 35.
    assert_eq!(extract_number("35.00000000000000000000"), dec(35, 0));
}

#[test]
fn interleaved_junk_is_filtered_not_rejected() {
    assert_eq!(extract_number("4a7.5x"), dec(475, 1));
}
