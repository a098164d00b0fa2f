use newapi_status_bot::json::{
    array_len_of, double_of, integer_of, text_of, value_as_string, JsonLeaf,
};
use newapi_status_bot::double::Double;
use newapi_status_bot::text::{
    comes_before, contains_text, holds_text, is_blank, join, same_ignoring_case, split_words,
    starts_with, to_lower, trim, trim_trailing, truncate,
};

const SAMPLES: [&str; 8] =
    ["", " ", "\u{3000}a\u{a0}", "a b  c\n", "\tÄ x ", "模型 状态", "Error", "eRROR "];

#[test]
fn trimming_and_splitting_follow_white_space() {
    for text in SAMPLES {
        assert_eq!(trim(text), text.trim());
        assert_eq!(is_blank(text), text.trim().is_empty());
        let words = text.split_whitespace().map(str::to_string).collect::<Vec<_>>();
        assert_eq!(split_words(text), words);
    }
}

#[test]
fn case_is_that_of_ascii() {
    for a in SAMPLES {
        assert_eq!(to_lower(a), a.to_ascii_lowercase());
        for b in SAMPLES {
            assert_eq!(same_ignoring_case(a, b), a.eq_ignore_ascii_case(b));
            assert_eq!(comes_before(a, b), a < b);
            assert_eq!(contains_text(a, b), a.contains(b));
            assert_eq!(starts_with(a, b), a.starts_with(b));
        }
    }
}

#[test]
fn texts_are_cut_and_joined() {
    assert_eq!(truncate("模型状态", 2), "模型");
    assert_eq!(truncate("ab", 5), "ab");
    assert_eq!(trim_trailing("http://x//", '/'), "http://x");
    let parts = ["a", "b", "c"].map(str::to_string).to_vec();
    assert_eq!(join(&parts, "->"), "a->b->c");
    assert_eq!(join(&Vec::new(), "->"), "");
    assert!(holds_text(&parts, "b"));
    assert!(!holds_text(&parts, "d"));
}

#[test]
fn leaves_are_read_by_their_kind() {
    let number = Some(JsonLeaf::Number {
        integer: Some(7),
        double: Double { bits: 7f64.to_bits() },
        text: "7".to_string(),
    });
    assert_eq!(integer_of(&number), Some(7));
    assert_eq!(double_of(&number), Some(Double { bits: 7f64.to_bits() }));
    assert_eq!(value_as_string(&number).as_deref(), Some("7"));
    assert_eq!(text_of(&number), None);
    let text = Some(JsonLeaf::Text("x".to_string()));
    assert_eq!(text_of(&text).as_deref(), Some("x"));
    assert_eq!(value_as_string(&text).as_deref(), Some("x"));
    assert_eq!(integer_of(&text), None);
    assert_eq!(array_len_of(&Some(JsonLeaf::Array(3))), Some(3));
    assert_eq!(array_len_of(&None), None);
    assert_eq!(value_as_string(&Some(JsonLeaf::Null)), None);
}

#[test]
fn white_space_is_what_unicode_says() {
    let expected = "\t\n\u{b}\u{c}\r \u{85}\u{a0}\u{1680}\u{2000}\u{2001}\u{2002}\u{2003}\u{2004}\
        \u{2005}\u{2006}\u{2007}\u{2008}\u{2009}\u{200a}\u{2028}\u{2029}\u{202f}\u{205f}\u{3000}";
    let found = ('\0'..=char::MAX).filter(|c| is_blank(&c.to_string())).collect::<String>();
    assert_eq!(found, expected);
}
