use spent_ledger::amount::{format_amount, parse_amount};
use spent_ledger::error::AmountError;

#[test]
fn amount_with_symbol_and_separator() {
    assert_eq!(parse_amount("$1,234.50"), Ok(123450));
}

#[test]
fn amount_whole_and_fraction() {
    assert_eq!(parse_amount("12"), Ok(1200));
    assert_eq!(parse_amount("12.3"), Ok(1230));
    assert_eq!(parse_amount("12.34"), Ok(1234));
    assert_eq!(parse_amount("0"), Ok(0));
    assert_eq!(parse_amount("0.07"), Ok(7));
    assert_eq!(parse_amount("007.10"), Ok(710));
}

#[test]
fn amount_rounds_half_away_from_zero() {
    assert_eq!(parse_amount("12.344"), Ok(1234));
    assert_eq!(parse_amount("12.345"), Ok(1235));
    assert_eq!(parse_amount("12.3449999"), Ok(1234));
    assert_eq!(parse_amount("-12.345"), Ok(-1235));
    assert_eq!(parse_amount("-12.344"), Ok(-1234));
    assert_eq!(parse_amount("0.005"), Ok(1));
    assert_eq!(parse_amount("0.004"), Ok(0));
    assert_eq!(parse_amount("1.005"), Ok(101));
    assert_eq!(parse_amount("0.999"), Ok(100));
}

#[test]
fn amount_signs_and_bare_points() {
    assert_eq!(parse_amount("+5"), Ok(500));
    assert_eq!(parse_amount("-5"), Ok(-500));
    assert_eq!(parse_amount(".5"), Ok(50));
    assert_eq!(parse_amount("5."), Ok(500));
    assert_eq!(parse_amount("-.25"), Ok(-25));
    assert_eq!(parse_amount("-0"), Ok(0));
}

#[test]
fn amount_ignores_marks_and_outer_space() {
    assert_eq!(parse_amount("  7.5 "), Ok(750));
    assert_eq!(parse_amount("\u{20AC} 3"), Ok(300));
    assert_eq!(parse_amount("\u{A3}1,000,000"), Ok(100_000_000));
    assert_eq!(parse_amount("1,2,3"), Ok(12300));
    assert_eq!(parse_amount("$-4.20"), Ok(-420));
    assert_eq!(parse_amount("\t$ 9.99\n"), Ok(999));
}

#[test]
fn amount_rejects_what_is_no_number() {
    for text in ["abc", "", " ", "-", "+", ".", "1.2.3", "1e3", "--5", "$", "12 3", "1-2", "nan", "inf", "0x10"] {
        assert_eq!(parse_amount(text), Err(AmountError::NotANumber), "{:?}", text);
    }
}

#[test]
fn amount_beyond_range_becomes_the_bound() {
    assert_eq!(parse_amount("92233720368547758.07"), Ok(i64::MAX));
    assert_eq!(parse_amount("92233720368547758.06"), Ok(i64::MAX - 1));
    assert_eq!(parse_amount("92233720368547758.08"), Ok(i64::MAX));
    assert_eq!(parse_amount("-92233720368547758.08"), Ok(i64::MIN));
    assert_eq!(parse_amount("-92233720368547758.09"), Ok(i64::MIN));
    assert_eq!(parse_amount("99999999999999999999999999999999999999999999"), Ok(i64::MAX));
    assert_eq!(parse_amount("-99999999999999999999999999999999999999999999"), Ok(i64::MIN));
}

#[test]
fn amount_is_written_with_two_decimals() {
    assert_eq!(format_amount(123450), "1234.50");
    assert_eq!(format_amount(0), "0.00");
    assert_eq!(format_amount(7), "0.07");
    assert_eq!(format_amount(70), "0.70");
    assert_eq!(format_amount(100), "1.00");
    assert_eq!(format_amount(-5), "-0.05");
    assert_eq!(format_amount(-12345), "-123.45");
    assert_eq!(format_amount(i64::MAX), "92233720368547758.07");
    assert_eq!(format_amount(i64::MIN), "-92233720368547758.08");
}

#[test]
fn amount_written_is_read_back() {
    for cents in [0i64, 1, -1, 99, 100, -100, 123456789, -987654321, i64::MAX, i64::MIN] {
        assert_eq!(parse_amount(&format_amount(cents)), Ok(cents));
    }
}
