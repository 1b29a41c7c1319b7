use apirun::json::JsonValue;
use apirun::render::to_pretty_string;
use apirun::text::{i64_to_string, trim, trim_trailing, u64_to_string};

fn text(s: &str) -> JsonValue {
    JsonValue::Text(String::from(s))
}

fn obj(members: Vec<(&str, JsonValue)>) -> JsonValue {
    JsonValue::Object(
        members
            .into_iter()
            .map(|(k, v)| (String::from(k), v))
            .collect(),
    )
}

#[test]
fn scalars_render_as_their_literals() {
    assert_eq!(to_pretty_string(&JsonValue::Null), "null");
    assert_eq!(to_pretty_string(&JsonValue::Bool(true)), "true");
    assert_eq!(to_pretty_string(&JsonValue::Bool(false)), "false");
    assert_eq!(to_pretty_string(&JsonValue::Number(0)), "0");
    assert_eq!(to_pretty_string(&JsonValue::Number(-42)), "-42");
    assert_eq!(to_pretty_string(&text("hi")), "\"hi\"");
}

#[test]
fn empty_containers_render_closed() {
    assert_eq!(to_pretty_string(&JsonValue::Array(vec![])), "[]");
    assert_eq!(to_pretty_string(&obj(vec![])), "{}");
}

#[test]
fn nested_values_render_indented() {
    let value = obj(vec![
        ("user", text("ada")),
        (
            "roles",
            JsonValue::Array(vec![text("admin"), JsonValue::Number(2)]),
        ),
        ("meta", obj(vec![("active", JsonValue::Bool(true))])),
    ]);
    let expected = "{\n  \"user\": \"ada\",\n  \"roles\": [\n    \"admin\",\n    2\n  ],\n  \"meta\": {\n    \"active\": true\n  }\n}";
    assert_eq!(to_pretty_string(&value), expected);
}

#[test]
fn strings_are_escaped() {
    assert_eq!(to_pretty_string(&text("a\"b")), "\"a\\\"b\"");
    assert_eq!(to_pretty_string(&text("a\\b")), "\"a\\\\b\"");
    assert_eq!(to_pretty_string(&text("a\nb\tc\rd")), "\"a\\nb\\tc\\rd\"");
    assert_eq!(to_pretty_string(&text("a\u{8}b\u{c}c")), "\"a\\bb\\fc\"");
    assert_eq!(to_pretty_string(&text("a\u{1f}b")), "\"a\\u001fb\"");
    assert_eq!(to_pretty_string(&text("héllo")), "\"héllo\"");
}

#[test]
fn rendering_twice_is_byte_identical() {
    let value = obj(vec![("k", JsonValue::Array(vec![text("v"), JsonValue::Null]))]);
    assert_eq!(to_pretty_string(&value), to_pretty_string(&value));
}

#[test]
fn integers_render_in_decimal() {
    assert_eq!(u64_to_string(0), "0");
    assert_eq!(u64_to_string(7), "7");
    assert_eq!(u64_to_string(1234567890), "1234567890");
    assert_eq!(u64_to_string(u64::MAX), "18446744073709551615");
    assert_eq!(i64_to_string(0), "0");
    assert_eq!(i64_to_string(-1), "-1");
    assert_eq!(i64_to_string(i64::MAX), "9223372036854775807");
    assert_eq!(i64_to_string(i64::MIN), "-9223372036854775808");
}

#[test]
fn trimming_removes_only_what_it_says() {
    assert_eq!(trim_trailing("abc123\n"), "abc123");
    assert_eq!(trim_trailing("  abc  \t\r\n"), "  abc");
    assert_eq!(trim_trailing(""), "");
    assert_eq!(trim_trailing("   "), "");
    assert_eq!(trim(" \t abc \n"), "abc");
    assert_eq!(trim("abc"), "abc");
    assert_eq!(trim(""), "");
}
