use sonar_presence::hex::{from_hex, to_hex};

#[test]
fn to_hex_is_lower_case_two_digits_per_byte() {
    assert_eq!(to_hex(&[]), "");
    assert_eq!(to_hex(&[0x00, 0x0f, 0xa5, 0xff, 0x1f]), "000fa5ff1f");
}

#[test]
fn from_hex_reads_both_cases() {
    assert_eq!(from_hex("000fA5Ff1F"), Some(vec![0x00, 0x0f, 0xa5, 0xff, 0x1f]));
    assert_eq!(from_hex(""), Some(vec![]));
}

#[test]
fn from_hex_rejects_odd_length() {
    assert_eq!(from_hex("abc"), None);
    assert_eq!(from_hex("0"), None);
}

#[test]
fn from_hex_rejects_other_characters() {
    assert_eq!(from_hex("0g"), None);
    assert_eq!(from_hex("g0"), None);
    assert_eq!(from_hex(" 0"), None);
    assert_eq!(from_hex("é"), None);
    assert_eq!(from_hex("0x10"), None);
}

#[test]
fn hex_round_trips_every_byte() {
    let all: Vec<u8> = (0..=255u8).collect();
    let text = to_hex(&all);
    assert_eq!(text.len(), 512);
    assert_eq!(from_hex(&text), Some(all));
}
