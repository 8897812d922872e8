use plane::error::Error;
use plane::json::{number_of, text_array, Fields, Json};
use plane::order::{key_of_number, key_of_text, sort};
use plane::text::{
    alphanumeric, ascii_lowercase, ascii_uppercase, contains, decimal_text, digit, find,
    first_chars, hex_digit, join, lines_of, longer_than, signed_text, split_text, strip_prefix,
    trim, white_space,
};

#[test]
fn characters_are_classed_as_unicode_and_ascii_class_them() {
    for n in 0..=0x10ffffu32 {
        if let Some(c) = char::from_u32(n) {
            assert_eq!(white_space(c), c.is_whitespace(), "{n:x}");
            assert_eq!(digit(c), c.is_ascii_digit(), "{n:x}");
            assert_eq!(alphanumeric(c), c.is_ascii_alphanumeric(), "{n:x}");
            assert_eq!(hex_digit(c), c.is_ascii_hexdigit(), "{n:x}");
        }
    }
}

#[test]
fn texts_are_cut_and_searched_by_character() {
    assert_eq!(trim(" \u{3000}a b\u{85}\n"), "a b");
    assert_eq!(trim(" \t"), "");
    assert_eq!(first_chars("Grün", 3), "Grü");
    assert_eq!(first_chars("Grün", 9), "Grün");
    assert_eq!(find("üüab", "ab"), Some(2));
    assert_eq!(find("ab", ""), Some(0));
    assert_eq!(find("", "a"), None);
    assert!(contains("plane_token_x", "token"));
    assert_eq!(strip_prefix("plane_x", "plane_"), Some("x"));
    assert_eq!(strip_prefix("x", "plane_"), None);
    assert_eq!(split_text("a--b-", '-'), vec!["a", "", "b", ""]);
    assert_eq!(split_text("", '-'), vec![""]);
    for s in ["a\nb\r\nc\r", "", "\n", "a\n", "\r\n\r", "a\r\nb"] {
        assert_eq!(lines_of(s), s.lines().collect::<Vec<_>>(), "{s:?}");
    }
    assert_eq!(join(&vec!["a".to_string(), "b".to_string()], ", "), "a, b");
    assert_eq!(join(&vec![], ", "), "");
    assert_eq!(ascii_lowercase("AZÄ"), "azÄ");
    assert_eq!(ascii_uppercase("azä"), "AZä");
}

#[test]
fn numbers_are_printed_in_decimal() {
    for n in [0u64, 9, 10, 99, 100, u64::MAX] {
        assert_eq!(decimal_text(n), n.to_string());
    }
    for n in [0i64, -1, 10, i64::MIN, i64::MAX] {
        assert_eq!(signed_text(n), n.to_string());
    }
    for s in ["", "ab", "üb", "€x", "\u{1F600}"] {
        for limit in 0..6u32 {
            assert_eq!(longer_than(s, limit), s.len() > limit as usize, "{s} {limit}");
        }
    }
}

#[test]
fn errors_stack_the_reason_behind_the_message() {
    let e = Error::new("inner".to_string()).context("outer".to_string());
    assert_eq!(e.message(), "outer");
    assert_eq!(e.full(), "outer: inner");
    assert_eq!(e.clone(), e);
}

#[test]
fn values_are_read_and_written_as_json() {
    let v = Json::parse(r#" {"a": {"b": [1, "x\n", false]}} "#).unwrap();
    assert_eq!(v.get("a").and_then(|a| a.get("b")).and_then(|b| b.as_array()).unwrap().len(), 3);
    assert_eq!(v.get("b"), None);
    assert_eq!(v.to_line(), r#"{"a":{"b":[1,"x\n",false]}}"#);
    assert_eq!(v.clone(), v);
    assert!(Json::parse("{").is_err());
    assert_eq!(Json::parse("-5").unwrap().as_i64(), Some(-5));
    assert_eq!(Json::parse("18446744073709551615").unwrap().as_i64(), None);
    assert_eq!(Json::parse("1.0").unwrap().as_i64(), None);
    assert_eq!(Json::parse("1.0").unwrap().to_line(), "1.0");
    assert_eq!(number_of(7), Json::Int(7));
    assert_eq!(number_of(u64::MAX), Json::UInt(u64::MAX));
    assert_eq!(number_of(u64::MAX).to_line(), u64::MAX.to_string());
    let mut fields = Fields::new();
    fields.put("l", text_array(&vec!["a".to_string()]));
    fields.put_text("t", "b");
    assert_eq!(fields.object().to_line(), r#"{"l":["a"],"t":"b"}"#);
}

#[test]
fn sorting_is_stable() {
    let items: Vec<Json> = ["b", "a", "c", "d"].iter().map(|s| Json::Text(s.to_string())).collect();
    let keys = vec![key_of_number(2), key_of_number(-1), key_of_number(2), key_of_number(-1)];
    let sorted = sort(&items, &keys);
    let names: Vec<&str> = sorted.iter().map(|v| v.as_str().unwrap()).collect();
    assert_eq!(names, vec!["a", "d", "b", "c"]);
    let words = ["bb", "b", "", "Z", "ä", "\u{1F600}", "\u{ffff}"];
    let items: Vec<Json> = words.iter().map(|s| Json::Text(s.to_string())).collect();
    let keys: Vec<Vec<i64>> = words.iter().map(|s| key_of_text(s)).collect();
    let sorted = sort(&items, &keys);
    let mut expected = words.to_vec();
    expected.sort();
    assert_eq!(sorted.iter().map(|v| v.as_str().unwrap()).collect::<Vec<_>>(), expected);
}

#[test]
fn floats_are_printed_as_serde_json_prints_them() {
    let mut seed: u64 = 7;
    for _ in 0..20000 {
        seed = seed.wrapping_mul(6364136223846793005).wrapping_add(1442695040888963407);
        let text = format!("{}.{}e{}", seed % 10, seed >> 11, (seed % 200) as i64 - 100);
        let value: serde_json::Value = serde_json::from_str(&text).unwrap();
        assert_eq!(Json::parse(&text).unwrap().to_line(), value.to_string(), "{text}");
    }
    assert_eq!(Json::parse("-0.0").unwrap().to_line(), "-0.0");
    assert_eq!(Json::parse("5.0").unwrap().to_line(), "5.0");
}
