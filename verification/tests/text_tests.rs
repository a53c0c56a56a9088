use worst_minecraft_launcher::digest::sha1_hex;
use worst_minecraft_launcher::text::{
    decimal_string, hex_string, newest_index, parse_u32, text_before, trim_text, white_space,
};

#[test]
fn decimal_string_writes_plain_numerals() {
    assert_eq!(decimal_string(0), "0");
    assert_eq!(decimal_string(7), "7");
    assert_eq!(decimal_string(6789), "6789");
    assert_eq!(decimal_string(306612), "306612");
    assert_eq!(decimal_string(u32::MAX as u64), "4294967295");
    assert_eq!(decimal_string(u64::MAX), "18446744073709551615");
}

#[test]
fn parse_u32_follows_str_parse() {
    for s in ["0", "6789", "+5", "007", "4294967295", "", "+", "-5", "4294967296", "12a", " 1", "1 ", "++1", "٣"] {
        assert_eq!(parse_u32(s), s.parse::<u32>().ok(), "input {s:?}");
    }
    assert_eq!(parse_u32("6789"), Some(6789));
    assert_eq!(parse_u32("+5"), Some(5));
    assert_eq!(parse_u32("-5"), None);
    assert_eq!(parse_u32("99999999999999999999"), None);
}

#[test]
fn parsing_a_decimal_numeral_gives_the_number_back() {
    for n in [0u32, 1, 9, 10, 6789, 306612, u32::MAX] {
        assert_eq!(parse_u32(&decimal_string(n as u64)), Some(n));
    }
}

#[test]
fn text_before_is_str_order() {
    let texts = ["", "a", "ab", "b", "2024-01-01T00:00:00Z", "2024-06-01T00:00:00Z", "é", "z"];
    for a in texts {
        for b in texts {
            assert_eq!(text_before(a, b), a < b, "{a:?} vs {b:?}");
        }
    }
}

#[test]
fn newest_index_takes_the_first_of_the_newest() {
    let dates: Vec<String> = ["2024-01-01", "2024-06-01", "2023-12-31", "2024-06-01"]
        .iter()
        .map(|s| s.to_string())
        .collect();
    assert_eq!(newest_index(&dates), 1);
    let one = vec!["x".to_string()];
    assert_eq!(newest_index(&one), 0);
}

#[test]
fn hex_string_writes_two_lower_case_digits_per_byte() {
    assert_eq!(hex_string(&[]), "");
    assert_eq!(hex_string(&[0x00, 0x0f, 0xa0, 0xff, 0x5c]), "000fa0ff5c");
}

#[test]
fn sha1_hex_is_the_published_digest_form() {
    assert_eq!(sha1_hex(b"hello world"), "2aae6c35c94fcfb415dbe95f408b9ce91ee846ed");
    assert_eq!(sha1_hex(b""), "da39a3ee5e6b4b0d3255bfef95601890afd80709");
    assert_eq!(sha1_hex(b"pretend this is a jar file").len(), 40);
}

#[test]
fn white_space_is_char_is_whitespace() {
    for u in 0u32..=0x10FFFF {
        if let Some(c) = char::from_u32(u) {
            assert_eq!(white_space(c), c.is_whitespace(), "U+{u:04X}");
        }
    }
}

#[test]
fn trim_text_is_str_trim() {
    for s in ["", "   ", " fabric-api ", "\t306612\n", "\u{3000}a b\u{2029}", "x", " é "] {
        assert_eq!(trim_text(s), s.trim(), "input {s:?}");
    }
}
