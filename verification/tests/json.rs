use local_mcp::json::{parse, render, render_pretty, Json};
use local_mcp::lines::{blank, lines, trim_end, white_space};
use local_mcp::text::{
    bounded_text, bounded_utf8_prefix, bounded_utf8_suffix, decimal_text, parse_usize,
    signed_decimal_text, text_contains,
};

#[test]
fn values_are_read_and_written() {
    let text = "{\"a\":[1,-2,true,null,\"x\\ny\"],\"b\":{\"c\":1.5},\"d\":18446744073709551615}";
    let value = parse(text).unwrap();
    assert_eq!(render(&value), text);
    assert_eq!(parse(&render(&value)).unwrap(), value);
    assert_eq!(value.clone(), value);
}

#[test]
fn fractions_stay_fractions() {
    for text in ["1.5", "-0.25", "1e300", "5.0", "18446744073709551616.0"] {
        let value = parse(text).unwrap();
        assert!(matches!(value, Json::Float(_)));
        let again = parse(&render(&value)).unwrap();
        assert!(matches!(again, Json::Float(_)));
        assert_eq!(again, value.clone());
    }
    assert_eq!(parse("5").unwrap(), Json::Unsigned(5));
    assert_eq!(parse("-5").unwrap(), Json::Signed(-5));
}

#[test]
fn keys_are_kept_in_order() {
    let value = Json::object()
        .with("b", Json::Unsigned(1))
        .with("a", Json::Unsigned(2))
        .with("b", Json::Unsigned(3))
        .with("aa", Json::Null);
    assert_eq!(render(&value), "{\"a\":2,\"aa\":null,\"b\":3}");
    assert_eq!(render(&parse("{\"z\":1,\"y\":2,\"z\":3}").unwrap()), "{\"y\":2,\"z\":3}");
}

#[test]
fn values_are_written_on_lines_of_their_own() {
    let value = Json::object()
        .with("list", Json::list().item(Json::Unsigned(1)).item(Json::list()))
        .with("empty", Json::object());
    assert_eq!(
        render_pretty(&value),
        "{\n  \"empty\": {},\n  \"list\": [\n    1,\n    []\n  ]\n}"
    );
}

#[test]
fn texts_are_escaped() {
    assert_eq!(
        render(&Json::text("\u{0}\u{8}\t\n\u{c}\r\u{1f}\"\\/é\u{7f}")),
        "\"\\u0000\\b\\t\\n\\f\\r\\u001f\\\"\\\\/é\u{7f}\""
    );
}

#[test]
fn members_are_found() {
    let value = parse("{\"a\":\"x\",\"n\":1}").unwrap();
    assert_eq!(value.get_text("a"), Some("x"));
    assert_eq!(value.get_text("n"), None);
    assert_eq!(value.get("missing"), None);
    assert_eq!(Json::Null.get("a"), None);
    assert_eq!(Json::text("x").as_str(), Some("x"));
    assert_eq!(render(&Json::optional_text(&None)), "null");
    assert_eq!(render(&Json::optional_text(&Some("v".to_owned()))), "\"v\"");
}

#[test]
fn mistakes_are_told() {
    assert_eq!(
        parse("[1,").unwrap_err(),
        "EOF while parsing a value at line 1 column 3"
    );
}

#[test]
fn texts_are_cut_between_characters() {
    assert_eq!(bounded_utf8_prefix("日本語", 7), "日本");
    assert_eq!(bounded_utf8_suffix("日本語", 7), "本語");
    assert_eq!(bounded_utf8_prefix("abc", 10), "abc");
    assert_eq!(bounded_text("日本語🙂", 10), "日本...");
    assert_eq!(bounded_text("abc", 3), "abc");
    assert_eq!(bounded_text("abcd", 2), "...");
}

#[test]
fn numbers_are_read_and_written() {
    assert_eq!(parse_usize("0042"), Some(42));
    assert_eq!(parse_usize("+7"), Some(7));
    assert_eq!(parse_usize("-7"), None);
    assert_eq!(parse_usize(""), None);
    assert_eq!(parse_usize("+"), None);
    assert_eq!(parse_usize("18446744073709551615"), Some(usize::MAX));
    assert_eq!(parse_usize("18446744073709551616"), None);
    assert_eq!(decimal_text(0), "0");
    assert_eq!(decimal_text(1_234_567_890), "1234567890");
    assert_eq!(signed_decimal_text(-40), "-40");
    assert!(text_contains("important failure", "failure"));
    assert!(!text_contains("fail", "failure"));
}

#[test]
fn white_space_is_that_of_unicode() {
    for code in 0..=0x10ffff_u32 {
        if let Some(character) = char::from_u32(code) {
            assert_eq!(white_space(character), character.is_whitespace(), "{code:x}");
        }
    }
}

#[test]
fn lines_are_those_of_the_standard_library() {
    for text in ["", "\n", "a", "a\n", "a\r\nb", "a\n\nb\r", "\r\n", "a\rb\n\r", "a\r\r\n", " x \t\n "] {
        let expected: Vec<&str> = text.lines().collect();
        assert_eq!(lines(text), expected, "{text:?}");
        assert_eq!(trim_end(text), text.trim_end(), "{text:?}");
        assert_eq!(blank(text), text.trim().is_empty(), "{text:?}");
    }
}
