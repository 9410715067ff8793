use sonar_presence::text::{
    parse_decimal, parse_natural, parse_signed_decimal, range_is, split_ranges, text_of,
    trim_range,
};

fn dec(s: &str, d: u8) -> Option<u64> {
    parse_decimal(s.as_bytes(), 0, s.len(), d)
}

fn sdec(s: &str, d: u8) -> Option<i64> {
    parse_signed_decimal(s.as_bytes(), 0, s.len(), d)
}

#[test]
fn split_gives_one_field_more_than_separators() {
    let s = b"a,bc,,d,";
    assert_eq!(split_ranges(s, 0, s.len(), b','), vec![(0, 1), (2, 4), (5, 5), (6, 7), (8, 8)]);
    assert_eq!(split_ranges(s, 2, 4, b','), vec![(2, 4)]);
    assert_eq!(split_ranges(b"", 0, 0, b','), vec![(0, 0)]);
    assert_eq!(split_ranges(b",", 0, 1, b','), vec![(0, 0), (1, 1)]);
}

#[test]
fn trim_drops_white_space_at_both_ends() {
    let s = b"  \t url \r\n";
    assert_eq!(trim_range(s, 0, s.len()), (4, 7));
    assert_eq!(trim_range(b"   ", 0, 3), (3, 3));
    assert_eq!(trim_range(b"a b", 0, 3), (0, 3));
    assert_eq!(trim_range(b"", 0, 0), (0, 0));
}

#[test]
fn range_is_compares_bytes() {
    let s = b"x,url,y";
    assert!(range_is(s, (2, 5), b"url"));
    assert!(!range_is(s, (2, 5), b"urx"));
    assert!(!range_is(s, (2, 4), b"url"));
    assert!(range_is(s, (3, 3), b""));
}

#[test]
fn decimals_scale_and_round() {
    assert_eq!(dec("12.345", 3), Some(12_345));
    assert_eq!(dec("12.3454", 3), Some(12_345));
    assert_eq!(dec("12.3455", 3), Some(12_346));
    assert_eq!(dec("12.9995", 3), Some(13_000));
    assert_eq!(dec("12", 3), Some(12_000));
    assert_eq!(dec("12.", 3), Some(12_000));
    assert_eq!(dec(".5", 3), Some(500));
    assert_eq!(dec("0.01067", 6), Some(10_670));
    assert_eq!(dec("0.6", 6), Some(600_000));
    assert_eq!(dec("007", 0), Some(7));
    assert_eq!(dec("7.5", 0), Some(8));
    assert_eq!(dec("7.49", 0), Some(7));
}

#[test]
fn decimals_reject_anything_else() {
    assert_eq!(dec("", 3), None);
    assert_eq!(dec(".", 3), None);
    assert_eq!(dec("1.2.3", 3), None);
    assert_eq!(dec("1e3", 3), None);
    assert_eq!(dec("-1", 3), None);
    assert_eq!(dec("+1", 3), None);
    assert_eq!(dec(" 1", 3), None);
    assert_eq!(dec("1.5x", 0), None);
    assert_eq!(dec("1.2345x", 2), None);
    assert_eq!(dec("inf", 3), None);
}

#[test]
fn decimals_must_fit() {
    assert_eq!(dec("18446744073709551615", 0), Some(u64::MAX));
    assert_eq!(dec("18446744073709551616", 0), None);
    assert_eq!(dec("18446744073709551615.5", 0), None);
    assert_eq!(dec("18446744073709551.615", 3), Some(u64::MAX));
    assert_eq!(dec("18446744073709551.616", 3), None);
    assert_eq!(dec("99999999999999999999999999999999", 3), None);
}

#[test]
fn signed_decimals() {
    assert_eq!(sdec("-40", 3), Some(-40_000));
    assert_eq!(sdec("+40.5", 3), Some(40_500));
    assert_eq!(sdec("40.5", 3), Some(40_500));
    assert_eq!(sdec("-0.0004", 3), Some(0));
    assert_eq!(sdec("-", 3), None);
    assert_eq!(sdec("--1", 3), None);
    assert_eq!(sdec("-9223372036854775808", 0), Some(i64::MIN));
    assert_eq!(sdec("-9223372036854775809", 0), None);
    assert_eq!(sdec("9223372036854775807", 0), Some(i64::MAX));
    assert_eq!(sdec("9223372036854775808", 0), None);
}

#[test]
fn naturals() {
    let s = b"bands=32;";
    assert_eq!(parse_natural(s, 6, 8), Some(32));
    assert_eq!(parse_natural(s, 6, 6), None);
    assert_eq!(parse_natural(s, 5, 8), None);
    assert_eq!(parse_natural(b"32.0", 0, 4), None);
}

#[test]
fn text_of_decodes_utf8() {
    let s = "a,caf\u{e9}\u{1F3B5},b".as_bytes();
    assert_eq!(text_of(s, (2, s.len() - 2)), "caf\u{e9}\u{1F3B5}");
    assert_eq!(text_of(s, (0, 0)), "");
    assert_eq!(text_of(&[b'a', 0xff, b'b'], (0, 3)), "a\u{fffd}b");
}
