use psa_ret::text::{
    chars_lt, chars_of, ends_with, i64_hex_text, i64_text, pad_left_chars, parse_i64, str_is,
    string_from_chars, trim_end,
};

fn cs(s: &str) -> Vec<char> {
    s.chars().collect()
}

#[test]
fn parse_i64_like_std() {
    for text in ["0", "42", "-42", "+7", "007", "", "-", "+", "1 ", " 1", "12a", "9223372036854775807",
        "9223372036854775808", "-9223372036854775808", "-9223372036854775809", "--1", "1_000"] {
        assert_eq!(parse_i64(&cs(text)), text.parse::<i64>().ok(), "{text:?}");
    }
}

#[test]
fn number_texts_like_format() {
    for v in [0i64, 9, 10, -1, 255, -256, i64::MAX, i64::MIN] {
        assert_eq!(string_from_chars(&i64_text(v)), format!("{}", v));
        assert_eq!(string_from_chars(&i64_hex_text(v)), format!("{:X}", v));
        assert_eq!(string_from_chars(&pad_left_chars(&i64_text(v), 5)), format!("{: >5}", v));
    }
}

#[test]
fn suffix_helpers_like_std() {
    for (text, pat) in [("10 ms", " ms"), ("10 ms ms", " ms"), ("msms", "ms"), ("10", "ms"), ("", "ms")] {
        assert_eq!(ends_with(&cs(text), &cs(pat)), text.ends_with(pat));
        assert_eq!(string_from_chars(&trim_end(&cs(text), &cs(pat))), text.trim_end_matches(pat));
    }
}

#[test]
fn text_comparisons_like_std() {
    let words = ["", "a", "ab", "b", "0x10", "0x2", "é", "z"];
    for a in words {
        for b in words {
            assert_eq!(chars_lt(&cs(a), &cs(b)), a < b, "{a:?} {b:?}");
        }
        assert!(str_is(a, a));
        assert_eq!(chars_of(a), cs(a));
    }
    assert!(!str_is("en", "fr"));
}
