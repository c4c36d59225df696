use name_registry::address::{parse_address, parse_octet};
use name_registry::text::chars_of;

fn octet(text: &str) -> Option<u8> {
    let chars = chars_of(text);
    parse_octet(&chars, 0, chars.len())
}

#[test]
fn octets_are_what_u8_parses() {
    for text in [
        "", "0", "7", "007", "255", "256", "999", "0255", "00000000000000000000255", "+1", "+", "++1",
        "-1", "-0", "1 ", " 1", "1a", "a", "2５", "١", "25.", "300000000000000000000000",
        "4294967296", "4294967551",
    ] {
        assert_eq!(octet(text), text.parse::<u8>().ok(), "{:?}", text);
    }
}

#[test]
fn every_octet_reads_back() {
    for value in 0..=255u8 {
        assert_eq!(octet(&value.to_string()), Some(value));
    }
    for value in 256..2000u32 {
        assert_eq!(octet(&value.to_string()), None);
    }
}

#[test]
fn octet_inside_a_longer_text() {
    let chars = chars_of("10.20.30");
    assert_eq!(parse_octet(&chars, 3, 5), Some(20));
    assert_eq!(parse_octet(&chars, 2, 5), None);
    assert_eq!(parse_octet(&chars, 3, 3), None);
}

#[test]
fn four_octets_make_an_address() {
    assert_eq!(parse_address("192.168.1.1"), Some(vec![192, 168, 1, 1]));
    assert_eq!(parse_address("0.0.0.0"), Some(vec![0, 0, 0, 0]));
    assert_eq!(parse_address("255.255.255.255"), Some(vec![255, 255, 255, 255]));
    assert_eq!(parse_address("001.+2.03.4"), Some(vec![1, 2, 3, 4]));
}

#[test]
fn anything_else_is_no_address() {
    for text in [
        "", "1", "1.2.3", "1.2.3.4.5", "1.2.3.", ".1.2.3", "1..2.3", "192.168.1.999", "256.0.0.0",
        "a.b.c.d", "1.2.3.4 ", " 1.2.3.4", "1,2,3,4", "1.2.3.-4", "...",
    ] {
        assert_eq!(parse_address(text), None, "{:?}", text);
    }
}
