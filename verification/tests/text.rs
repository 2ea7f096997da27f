use doc_scanner_core::text::{
    chars_of, contains_chars, decimal_chars, double_char_in, hex_lower_chars, is_whitespace,
    split_whitespace, string_of, trim_chars,
};

fn s(v: &[char]) -> String {
    v.iter().collect()
}

#[test]
fn whitespace_matches_std_for_every_char() {
    for u in 0u32..=0x10FFFF {
        if let Some(c) = char::from_u32(u) {
            assert_eq!(is_whitespace(c), c.is_whitespace(), "U+{:04X}", u);
        }
    }
}

#[test]
fn trim_matches_std() {
    for text in ["", "   ", "  a b  ", "\u{3000}x\u{85}", "abc", "\t\n tesco \r\n"] {
        let chars = chars_of(text);
        assert_eq!(s(&trim_chars(&chars)), text.trim());
    }
}

#[test]
fn split_whitespace_matches_std() {
    for text in ["", "  ", "a", " a  b\tc\n", "TESCO STORES 2211 LONDON GB", "x\u{2003}y"] {
        let chars = chars_of(text);
        let got: Vec<String> = split_whitespace(&chars).iter().map(|w| s(w)).collect();
        let want: Vec<String> = text.split_whitespace().map(|w| w.to_string()).collect();
        assert_eq!(got, want);
    }
}

#[test]
fn contains_matches_std() {
    let cases = [("grocery mart", "mart"), ("grocery mart", "Mart"), ("abc", ""), ("", "a"), ("aab", "ab"), ("ab", "abc")];
    for (hay, needle) in cases {
        assert_eq!(contains_chars(&chars_of(hay), &chars_of(needle)), hay.contains(needle));
    }
}

#[test]
fn decimal_matches_to_string() {
    for n in [0u64, 7, 10, 99, 100, 26214400, u64::MAX] {
        assert_eq!(s(&decimal_chars(n)), n.to_string());
    }
}

#[test]
fn hex_is_lower_case_two_digits_per_byte() {
    assert_eq!(s(&hex_lower_chars(&[0x00, 0x0f, 0xa0, 0xff])), "000fa0ff");
    assert_eq!(s(&hex_lower_chars(&[])), "");
}

#[test]
fn doubling_a_quote() {
    assert_eq!(s(&double_char_in(&chars_of("O'Neil's"), '\'')), "O''Neil''s");
    assert_eq!(string_of(&chars_of("plain")), "plain");
}
