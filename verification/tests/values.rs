use kilo::host_path::{is_rooted, is_same_path, join, path_steps};
use kilo::json::{parse_json, JsonValue};
use kilo::text::{
    chars_of, is_space_char, lower_char, replace, same, split, starts_with, strip_prefix, text_of,
    to_lowercase, trim, trim_quote,
};
use std::path::{Path, PathBuf};

#[test]
fn spaces_are_those_of_unicode() {
    for code in 0..=0x10ffffu32 {
        if let Some(c) = char::from_u32(code) {
            assert_eq!(is_space_char(c), c.is_whitespace(), "{:x}", code);
            assert_eq!(lower_char(c), c.to_ascii_lowercase(), "{:x}", code);
        }
    }
}

#[test]
fn texts_are_cut_like_strings() {
    for s in ["", " ", "a", " a b\t", "\u{3000}x\u{85}", "\"\"q\"", "'q'\"", "\"'q'\""] {
        assert_eq!(trim(s), s.trim());
        assert_eq!(trim_quote(s, '"'), s.trim_matches('"'));
        assert_eq!(trim_quote(s, '\''), s.trim_matches('\''));
        assert_eq!(text_of(&chars_of(s), 0, s.chars().count()), s);
        assert_eq!(to_lowercase(s), s.to_ascii_lowercase());
    }
    assert_eq!(to_lowercase("ÀB_c"), "Àb_c");
    assert_eq!(text_of(&chars_of("abcd"), 1, 3), "bc");
}

#[test]
fn texts_are_searched_like_strings() {
    for s in ["", "a", "aaa", "aaaa", "abab", "xaay", "\\\\a\\", "é\n\né"] {
        for pattern in ["a", "aa", "ab", "\\", "\n", "é"] {
            for with in ["", "b", "aa", "\\\\"] {
                assert_eq!(replace(s, pattern, with), s.replace(pattern, with));
            }
            assert_eq!(starts_with(s, pattern), s.starts_with(pattern));
            assert_eq!(
                strip_prefix(s, pattern),
                s.strip_prefix(pattern).map(String::from)
            );
            assert_eq!(same(s, pattern), s == pattern);
        }
        for separator in ['a', '\n', '\\', 'é'] {
            let expected: Vec<&str> = s.split(separator).collect();
            assert_eq!(split(s, separator), expected);
        }
    }
}

#[test]
fn paths_are_those_of_the_host() {
    let paths = [
        "", "/", "//", ".", "./", "./.", "..", "a", "a/", "./a", "a/.", "a//b", "a/./b", "/a",
        "/./a", "//a", "a/b", "/a/b/", "a/../b", "../a", "é/ü",
    ];
    for a in paths {
        assert_eq!(is_rooted(a), Path::new(a).is_absolute());
        for b in paths {
            assert_eq!(join(a, b), Path::new(a).join(b).to_str().unwrap(), "{:?} {:?}", a, b);
            assert_eq!(is_same_path(a, b), PathBuf::from(a) == PathBuf::from(b), "{:?} {:?}", a, b);
        }
    }
    assert_eq!(path_steps("./a//b/../c/."), vec![".", "a", "b", "..", "c"]);
}

#[test]
fn json_texts() {
    let value =
        parse_json(r#"{"b": [null, true, 1.5], "a": {"x": "y"}, "b2": -3, "a": "last"}"#).unwrap();
    match value.get("b") {
        Some(JsonValue::Array(items)) => {
            assert_eq!(items.len(), 3);
            assert_eq!(items[0], JsonValue::Null);
            assert_eq!(items[1], JsonValue::Bool(true));
            assert!(matches!(&items[2], JsonValue::Number(n) if n.as_f64() == Some(1.5)));
        }
        other => panic!("{:?}", other),
    }
    assert_eq!(value.text_under("a"), Some("last".to_string()));
    assert_eq!(value.text_under("b2"), None);
    assert_eq!(value.get("c"), None);
    assert!(matches!(value.get("b2"), Some(JsonValue::Number(n)) if n.as_i64() == Some(-3)));
    assert_eq!(JsonValue::Bool(true).get("a"), None);
    assert_eq!(JsonValue::Bool(true).as_text(), None);
    assert_eq!(parse_json("\"t\"").unwrap().as_text(), Some(&"t".to_string()));
}

#[test]
fn json_keys_come_in_order() {
    match parse_json(r#"{"b": 1, "a": 2, "B": 3}"#).unwrap() {
        JsonValue::Object(members) => {
            let keys: Vec<&str> = members.iter().map(|(key, _)| key.as_str()).collect();
            assert_eq!(keys, vec!["B", "a", "b"]);
        }
        other => panic!("{:?}", other),
    }
}

#[test]
fn broken_json_texts() {
    assert_eq!(
        parse_json(""),
        Err("EOF while parsing a value at line 1 column 0".to_string())
    );
    assert_eq!(parse_json("{} x"), Err("trailing characters at line 1 column 4".to_string()));
}

#[test]
fn the_order_of_members_does_not_matter_to_a_key() {
    let member = |key: &str, b: bool| (key.to_string(), JsonValue::Bool(b));
    let one = JsonValue::Object(vec![member("a", true), member("b", false)]);
    let other = JsonValue::Object(vec![member("b", false), member("a", true)]);
    for key in ["a", "b", "c"] {
        assert_eq!(one.get(key), other.get(key));
    }
    assert_eq!(other.get("a"), Some(&JsonValue::Bool(true)));
}
