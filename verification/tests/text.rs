use rust_api_example::text::{
    chars_of, is_whitespace_char, normalize_hex, normalize_identifier, to_ascii_upper,
};
use rust_api_example::validation::{
    is_hex_char, validate_ant, validate_epc, validate_rssi, validate_tid,
};
use rust_api_example::sorting::str_less;
use rust_api_example::TagListError;

#[test]
fn whitespace_matches_std_for_every_char() {
    for n in 0u32..=0x10FFFF {
        if let Some(c) = char::from_u32(n) {
            assert_eq!(is_whitespace_char(c), c.is_whitespace(), "char {:#x}", n);
        }
    }
}

#[test]
fn upper_case_matches_std_for_every_char() {
    for n in 0u32..=0x10FFFF {
        if let Some(c) = char::from_u32(n) {
            assert_eq!(to_ascii_upper(c), c.to_ascii_uppercase(), "char {:#x}", n);
        }
    }
}

#[test]
fn hex_digit_matches_std() {
    for n in 0u32..0x300 {
        if let Some(c) = char::from_u32(n) {
            assert_eq!(is_hex_char(c), c.is_ascii_hexdigit());
        }
    }
}

#[test]
fn normalize_hex_trims_and_upper_cases() {
    assert_eq!(normalize_hex("  abCd12\t\n"), "ABCD12");
    assert_eq!(normalize_hex("\u{3000}ß-x\u{a0}"), "ß-X");
    assert_eq!(normalize_hex("   "), "");
    assert_eq!(normalize_hex(""), "");
    for s in ["  a b ", "x\u{2028}", "\u{85}abc", "ÄbC"] {
        assert_eq!(normalize_hex(s), s.trim().to_ascii_uppercase());
    }
}

#[test]
fn normalize_identifier_keeps_leading_underscore() {
    assert_eq!(normalize_identifier(" _abcd "), "_ABCD");
    assert_eq!(normalize_identifier("_ ab "), "_AB");
    assert_eq!(normalize_identifier("abc_d"), "ABC_D");
    assert_eq!(normalize_identifier("  "), "");
    assert_eq!(normalize_identifier("_"), "_");
}

#[test]
fn chars_of_collects_in_order() {
    assert_eq!(chars_of("aé€"), vec!['a', 'é', '€']);
}

#[test]
fn str_less_matches_string_order() {
    let words = ["", "a", "A", "ab", "b", "_A", "é", "z", "ABCD", "ABCE"];
    for x in words {
        for y in words {
            assert_eq!(str_less(x, y), x < y, "{:?} < {:?}", x, y);
        }
    }
}

#[test]
fn validators_report_their_errors() {
    assert_eq!(validate_epc("ABCD"), Ok(()));
    assert_eq!(validate_epc(""), Err(TagListError::InvalidEpc));
    assert_eq!(validate_epc("ABCDE"), Err(TagListError::InvalidEpc));
    assert_eq!(validate_tid(None), Ok(()));
    assert_eq!(validate_tid(Some("00112233445566778899aabb")), Ok(()));
    assert_eq!(validate_tid(Some("00112233445566778899aab")), Err(TagListError::InvalidTid));
    assert_eq!(validate_tid(Some("00112233445566778899aabg")), Err(TagListError::InvalidTid));
    assert_eq!(validate_ant(1), Ok(()));
    assert_eq!(validate_ant(0), Err(TagListError::InvalidAnt));
    assert_eq!(validate_ant(i32::MIN), Err(TagListError::InvalidAnt));
    assert_eq!(validate_rssi(-1), Ok(()));
    assert_eq!(validate_rssi(-255), Ok(()));
    assert_eq!(validate_rssi(0), Err(TagListError::InvalidRssi));
    assert_eq!(validate_rssi(-256), Err(TagListError::InvalidRssi));
}

#[test]
fn normalize_hex_is_idempotent_and_ignores_case() {
    for s in [" abCD ", "\tAbc\u{3000}", "xyz", "", " _aB "] {
        let once = normalize_hex(s);
        assert_eq!(normalize_hex(&once), once);
        assert_eq!(normalize_hex(&s.to_ascii_uppercase()), once);
    }
}
