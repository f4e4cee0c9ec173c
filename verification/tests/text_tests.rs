//! The text utilities on concrete values.

use blitzkrieg::text::{chars_of, chars_to_string, parse_dec, usize_to_dec};

#[test]
fn chars_round_trip_through_string() {
    let chars = chars_of("Hello, world!");
    assert_eq!(chars.len(), 13);
    let s = chars_to_string(&chars);
    assert_eq!(s, "Hello, world!");
}

#[test]
fn decimal_round_trips() {
    for n in [0usize, 7, 10, 200, 65535, 123456] {
        let digits = usize_to_dec(n);
        assert_eq!(chars_to_string(&digits), format!("{}", n));
        assert_eq!(parse_dec(&digits), Some(n));
    }
}

#[test]
fn parse_dec_rejects_non_digits() {
    assert_eq!(parse_dec(&chars_of("")), None);
    assert_eq!(parse_dec(&chars_of("12a")), None);
    assert_eq!(parse_dec(&chars_of("-5")), None);
    assert_eq!(parse_dec(&chars_of("99999999999999999999999999")), None);
}
