use hypr_tui::modestr::parse_mode;
use hypr_tui::numfmt::{format_centi, format_milli, milli_to_centi};
use hypr_tui::numparse::{parse_int_i64, parse_rate_milli};
use hypr_tui::order::str_lex_lt;
use hypr_tui::rates::normalize_rates;

#[test]
fn mode_string_parses_resolution_and_rate() {
    let parsed = parse_mode("1920x1080@59.94Hz");
    assert_eq!(parsed, Some((String::from("1920x1080"), 59940)));
}

#[test]
fn malformed_mode_string_contributes_nothing() {
    assert_eq!(parse_mode("garbage"), None);
    assert_eq!(parse_mode(""), None);
    assert_eq!(parse_mode("1920x1080@notarate"), None);
}

#[test]
fn mode_string_with_repeated_hz_suffix() {
    assert_eq!(parse_mode("640x480@60HzHz"), Some((String::from("640x480"), 60000)));
}

#[test]
fn mode_string_splits_on_first_at_sign() {
    assert_eq!(parse_mode("800x600@75Hz@x"), None);
}

#[test]
fn rate_without_fraction() {
    assert_eq!(parse_rate_milli("60"), Some(60000));
}

#[test]
fn rate_with_leading_or_trailing_point() {
    assert_eq!(parse_rate_milli(".5"), Some(500));
    assert_eq!(parse_rate_milli("5."), Some(5000));
    assert_eq!(parse_rate_milli("."), None);
}

#[test]
fn rate_rounds_on_the_fourth_fractional_digit() {
    assert_eq!(parse_rate_milli("59.9994"), Some(59999));
    assert_eq!(parse_rate_milli("59.9995"), Some(60000));
    assert_eq!(parse_rate_milli("59.9999"), Some(60000));
}

#[test]
fn rate_rejects_signs_and_letters() {
    assert_eq!(parse_rate_milli("-60"), None);
    assert_eq!(parse_rate_milli("6e1"), None);
    assert_eq!(parse_rate_milli(""), None);
}

#[test]
fn rate_at_the_top_of_the_range() {
    // u64::MAX millihertz exactly, and one thousandth more
    assert_eq!(parse_rate_milli("18446744073709551.615"), Some(u64::MAX));
    assert_eq!(parse_rate_milli("18446744073709551.616"), None);
}

#[test]
fn integers_parse_with_optional_sign() {
    assert_eq!(parse_int_i64("1920"), Some(1920));
    assert_eq!(parse_int_i64("-1080"), Some(-1080));
    assert_eq!(parse_int_i64("+7"), Some(7));
    assert_eq!(parse_int_i64(""), None);
    assert_eq!(parse_int_i64("-"), None);
    assert_eq!(parse_int_i64("12a"), None);
}

#[test]
fn rates_dedup_keeps_first_representative() {
    let raw = vec![60003u64, 59998, 30000];
    let out = normalize_rates(&raw);
    assert_eq!(out, vec![60003, 30000]);
}

#[test]
fn rates_sort_descending_then_dedup() {
    let raw = vec![30000u64, 59998, 60003];
    let out = normalize_rates(&raw);
    assert_eq!(out, vec![60003, 30000]);
}

#[test]
fn normalized_rates_are_strictly_descending_with_gaps() {
    let raw = vec![60000u64, 59995, 59990, 59979, 120000, 120005, 30000];
    let out = normalize_rates(&raw);
    for pair in out.windows(2) {
        assert!(pair[0] >= pair[1] + 10);
    }
}

#[test]
fn two_decimal_rendering_is_exact() {
    assert_eq!(format_centi(5994), "59.94");
    assert_eq!(format_centi(150), "1.50");
    assert_eq!(format_centi(0), "0.00");
    assert_eq!(format_centi(100), "1.00");
    assert_eq!(format_centi(12345), "123.45");
}

#[test]
fn millihertz_rendering_rounds_to_hundredths() {
    assert_eq!(format_milli(59940), "59.94");
    assert_eq!(format_milli(59945), "59.95");
    assert_eq!(format_milli(59944), "59.94");
    assert_eq!(milli_to_centi(60000), 6000);
}

#[test]
fn lexicographic_order_of_labels() {
    assert!(str_lex_lt("1280x720", "1920x1080"));
    assert!(!str_lex_lt("1920x1080", "1280x720"));
    assert!(!str_lex_lt("1920x1080", "1920x1080"));
    assert!(str_lex_lt("abc", "abcd"));
}
