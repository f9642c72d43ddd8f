//! JSON values beside `serde_json`'s, and text.

use hitpoint::json::{JsonMap, JsonValue, Number};
use hitpoint::text::{
    byte_len, lines, pad, pad_left, parse_signed, show, show_signed, split_once, to_lower,
    to_upper, trim, without_last, words,
};

const SAMPLES: [&str; 9] = [
    "null",
    "true",
    "-7",
    "18446744073709551615",
    "1.50",
    "1e300",
    r#""a\"b\\c\n\u0001é😀/""#,
    "[]",
    r#"{"b": [1, {"x": null}], "a": {}, "c": "", "n": -0.25}"#,
];

#[test]
fn reading_and_printing_agree_with_serde_json() {
    for sample in SAMPLES {
        let ours = JsonValue::parse(sample).unwrap();
        let theirs: serde_json::Value = serde_json::from_str(sample).unwrap();
        assert_eq!(ours.to_text(), serde_json::to_string(&theirs).unwrap());
        assert_eq!(
            ours.to_text_pretty(),
            serde_json::to_string_pretty(&theirs).unwrap()
        );
        assert_eq!(JsonValue::parse(&ours.to_text()).unwrap(), ours);
    }
    let message = serde_json::from_str::<serde_json::Value>("{").unwrap_err();
    assert_eq!(JsonValue::parse("{").unwrap_err(), message.to_string());
}

#[test]
fn texts_are_quoted_and_escaped() {
    let text = "\"\\/\n\r\t\u{8}\u{c}\u{0}\u{1f}\u{7f}é";
    assert_eq!(
        JsonValue::text(text).to_text(),
        "\"\\\"\\\\/\\n\\r\\t\\b\\f\\u0000\\u001f\u{7f}é\""
    );
}

#[test]
fn members_keep_their_order_and_the_last_value() {
    let value = JsonValue::parse(r#"{"b": 1, "a": 2, "b": 3}"#).unwrap();
    assert_eq!(value.to_text(), r#"{"b":3,"a":2}"#);
    let mut map = JsonMap::new();
    map.insert("b".into(), JsonValue::unsigned(1));
    map.insert("a".into(), JsonValue::signed(-2));
    map.insert("b".into(), JsonValue::text("x"));
    assert_eq!(map.len(), 2);
    assert!(map.contains_key("a"));
    assert_eq!(map.position("a"), Some(1));
    assert_eq!(JsonValue::Object(map).to_text(), r#"{"b":"x","a":-2}"#);
}

#[test]
fn numbers_are_told_apart() {
    let of = |text: &str| JsonValue::parse(text).unwrap();
    assert_eq!(of("3").as_u64(), Some(3));
    assert_eq!(of("3").as_i64(), Some(3));
    assert_eq!(of("-3").as_u64(), None);
    assert_eq!(of("-3").as_i64(), Some(-3));
    assert_eq!(of("18446744073709551615").as_i64(), None);
    assert_eq!(of("3.0").as_i64(), None);
    assert_eq!(of("3.0"), JsonValue::Number(Number::Float("3.0".into())));
    assert_eq!(Number::PosInt(3).fraction().as_deref(), Some("3.0"));
    assert_eq!(JsonValue::from_fraction("9.50").unwrap().to_text(), "9.5");
    assert!(JsonValue::from_fraction("inf").is_none());
    assert!(JsonValue::from_fraction("1e999").is_none());
    assert!(JsonValue::from_fraction("nine").is_none());
}

#[test]
fn accessors_look_at_the_kind() {
    let value = JsonValue::parse(r#"{"s": "t", "b": false, "l": [1], "z": null}"#).unwrap();
    assert_eq!(value.get("s").unwrap().as_str(), Some("t"));
    assert_eq!(value.get("b").unwrap().as_bool(), Some(false));
    assert_eq!(value.get("l").unwrap().as_array().unwrap().len(), 1);
    assert!(value.get("z").unwrap().is_null());
    assert!(value.get("y").is_none());
    assert!(value.is_object());
    assert!(value.as_str().is_none());
    assert!(value.get("s").unwrap().get("s").is_none());
}

#[test]
fn pointers_follow_the_standard() {
    let text = r#"{"foo": ["bar", "baz"], "": 0, "a/b": 1, "m~n": 8, "~1": 9}"#;
    let ours = JsonValue::parse(text).unwrap();
    let theirs: serde_json::Value = serde_json::from_str(text).unwrap();
    for pointer in [
        "", "/foo", "/foo/0", "/foo/1", "/foo/2", "/foo/-", "/foo/00", "/foo/01", "/foo/+1", "/",
        "/a~1b", "/m~0n", "/~01", "foo", "/nope", "/foo/0/x",
    ] {
        let expected = theirs.pointer(pointer).map(|v| v.to_string());
        assert_eq!(ours.pointer(pointer).map(|v| v.to_text()), expected, "{pointer}");
    }
}

#[test]
fn text_is_cut_and_joined() {
    assert_eq!(lines("a\r\nb\n\nc"), vec!["a", "b", "", "c"]);
    assert_eq!(lines("a\n"), vec!["a"]);
    assert!(lines("").is_empty());
    assert_eq!(words("  a\tb  c\n"), vec!["a", "b", "c"]);
    assert_eq!(
        split_once("a=b=c", '='),
        Some(("a".to_string(), "b=c".to_string()))
    );
    assert_eq!(split_once("abc", '='), None);
    assert_eq!(trim(" \t a b\u{3000}\n"), "a b");
    assert_eq!(without_last("aé"), "a");
    assert_eq!(without_last(""), "");
    assert_eq!(byte_len("é😀"), 6);
    assert_eq!(pad("é", 3), "é  ");
    assert_eq!(pad("four", 3), "four");
    assert_eq!(pad_left("7", 3), "  7");
}

#[test]
fn case_and_numbers() {
    assert_eq!(to_upper("get"), "GET");
    assert_eq!(to_lower("GeT"), "get");
    // Only ASCII letters are folded.
    assert_eq!(to_lower("ÄO"), "Äo");
    assert_eq!(show(0), "0");
    assert_eq!(show(u64::MAX), "18446744073709551615");
    assert_eq!(show_signed(i64::MIN), "-9223372036854775808");
    assert_eq!(parse_signed("-12"), Some(-12));
    assert_eq!(parse_signed("+12"), Some(12));
    assert_eq!(parse_signed("9223372036854775808"), None);
    assert_eq!(parse_signed("1x"), None);
    assert_eq!(parse_signed(""), None);
}
