use http_message::decimal::{decimal_string, push_signed_decimal, read_u32};
use http_message::request_parser::is_multipart;
use http_message::text::{
    blank, chars_equal, chars_of, decode, slice_chars, split_chars, string_of, trimmed, whitespace,
};

fn chars(s: &str) -> Vec<char> {
    s.chars().collect()
}

#[test]
fn whitespace_is_what_std_calls_whitespace() {
    for code in 0..=0x10FFFFu32 {
        if let Some(c) = char::from_u32(code) {
            assert_eq!(whitespace(c), c.is_whitespace(), "U+{code:04X}");
        }
    }
}

#[test]
fn trimmed_agrees_with_std() {
    for s in ["", " ", "a", "  a b  ", "\r\n x\t", "\u{a0}x\u{2003}", "\0 \0", " \0 ", "x\u{200b}"] {
        assert_eq!(string_of(&trimmed(&chars(s))), s.trim(), "{s:?}");
    }
}

#[test]
fn blank_is_padding_only() {
    for s in ["", " ", "\r\n", "\0", " \0\0\r\n", "\t\0"] {
        assert!(blank(&chars(s)), "{s:?}");
    }
    for s in ["a", "\0 \0", " \0a\0 ", "\0\r\0"] {
        assert!(!blank(&chars(s)), "{s:?}");
    }
    for s in ["", " ", "\0", " \0 ", "\0 \0", "x", "\0x\0", "\r\n\0\0\r\n"] {
        assert_eq!(blank(&chars(s)), s.trim().trim_matches('\0').is_empty(), "{s:?}");
    }
}

#[test]
fn split_agrees_with_std() {
    for s in ["", "a", ",", "a,b", "a,,b", ",a,", ",,", "no comma", "é,ü,"] {
        let pieces: Vec<String> = split_chars(&chars(s), ',').iter().map(|p| string_of(p)).collect();
        let expected: Vec<String> = s.split(',').map(String::from).collect();
        assert_eq!(pieces, expected, "{s:?}");
    }
}

#[test]
fn chars_and_strings_convert_both_ways() {
    let s = "h\u{e9}llo \u{1f600}";
    assert_eq!(chars_of(s), chars(s));
    assert_eq!(string_of(&chars(s)), s);
    assert_eq!(string_of(&[]), "");
    assert_eq!(slice_chars(&chars("hello"), 1, 3), chars("el"));
    assert_eq!(slice_chars(&chars("hello"), 2, 2), chars(""));
    assert!(chars_equal(&chars("GET"), "GET"));
    assert!(!chars_equal(&chars("GET"), "GE"));
    assert!(!chars_equal(&chars("GET"), "GEt"));
}

#[test]
fn decode_reads_utf8() {
    assert_eq!(decode("h\u{e9}\u{1f600}".as_bytes()), Some(chars("h\u{e9}\u{1f600}")));
    assert_eq!(decode(b""), Some(vec![]));
    assert_eq!(decode(b"\xc3"), None);
    assert_eq!(decode(b"a\xffb"), None);
    assert_eq!(decode(b"\xed\xa0\x80"), None);
}

#[test]
fn decimal_agrees_with_std() {
    for n in [0u64, 1, 9, 10, 11, 99, 100, 101, 12345, u32::MAX as u64, u64::MAX] {
        assert_eq!(decimal_string(n), n.to_string());
    }
    for n in 0..2000u64 {
        assert_eq!(decimal_string(n), n.to_string());
    }
}

#[test]
fn signed_decimal_agrees_with_std() {
    for i in [0i64, 1, -1, 10, -10, 42, -42, i64::MAX, i64::MIN, i64::MIN + 1] {
        let mut s = String::from("x");
        push_signed_decimal(&mut s, i);
        assert_eq!(s, format!("x{i}"));
    }
}

#[test]
fn read_u32_agrees_with_std() {
    for s in [
        "", "0", "00", "+0", "+", "-0", "1", "42", "+42", "-42", "4294967295", "4294967296",
        "04294967295", "99999999999999999999999", " 1", "1 ", "1a", "a1", "++1", "1+", "1_000",
        "\u{661}", "0x10", "١٢",
    ] {
        assert_eq!(read_u32(&chars(s)), s.parse::<u32>().ok(), "{s:?}");
    }
}

#[test]
fn multipart_is_found_in_any_case() {
    for s in [
        "multipart/form-data",
        "Multipart/Form-Data; boundary=x",
        "MULTIPART",
        "text/plain; x-multiPART",
        "",
        "text/plain",
        "multi part",
        "multipar",
        "MULT\u{130}PART",
        "mult\u{131}part",
        "\u{212a}multipart\u{212a}",
    ] {
        assert_eq!(is_multipart(s), s.to_lowercase().contains("multipart"), "{s:?}");
    }
    assert!(is_multipart("Multipart/Form-Data"));
    assert!(!is_multipart("text/plain"));
}
