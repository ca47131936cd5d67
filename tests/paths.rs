use staticmcp_sse_lib::{JsonValue, MCPBridge};

fn s(t: &str) -> JsonValue {
    JsonValue::String(t.to_string())
}

fn args(pairs: Vec<(&str, JsonValue)>) -> Vec<(String, JsonValue)> {
    pairs.into_iter().map(|(k, v)| (k.to_string(), v)).collect()
}

#[test]
fn uri_file_scheme() {
    let b = MCPBridge::new();
    assert_eq!(b.uri_to_path("file:///a/b"), "resources//a/b.json");
}

#[test]
fn uri_other_scheme() {
    let b = MCPBridge::new();
    assert_eq!(b.uri_to_path("https://x.com/y"), "resources/x.com/y.json");
}

#[test]
fn uri_plain_and_already_json() {
    let b = MCPBridge::new();
    assert_eq!(b.uri_to_path("plain"), "plain.json");
    assert_eq!(b.uri_to_path("already.json"), "already.json");
}

#[test]
fn uri_scheme_with_empty_remainder() {
    let b = MCPBridge::new();
    assert_eq!(b.uri_to_path("https://"), "https://.json");
}

#[test]
fn uri_scheme_splits_at_first_separator() {
    let b = MCPBridge::new();
    assert_eq!(b.uri_to_path("a://b://c"), "resources/b://c.json");
}

#[test]
fn tool_without_arguments() {
    let b = MCPBridge::new();
    assert_eq!(b.tool_to_path("search", &Vec::new()), "tools/search.json");
}

#[test]
fn tool_with_one_argument() {
    let b = MCPBridge::new();
    assert_eq!(b.tool_to_path("search", &args(vec![("q", s("cats"))])), "tools/search/cats.json");
}

#[test]
fn tool_argument_texts() {
    let b = MCPBridge::new();
    let n = JsonValue::Number("42".to_string());
    assert_eq!(b.tool_to_path("t", &args(vec![("x", n)])), "tools/t/42.json");
    assert_eq!(b.tool_to_path("t", &args(vec![("x", JsonValue::Bool(false))])), "tools/t/false.json");
    assert_eq!(b.tool_to_path("t", &args(vec![("x", JsonValue::Null)])), "tools/t/null.json");
    let arr = JsonValue::Array(vec![JsonValue::Number("1".to_string()), s("a\"b")]);
    assert_eq!(b.tool_to_path("t", &args(vec![("x", arr)])), "tools/t/[1,\"a\\\"b\"].json");
}

#[test]
fn tool_two_arguments_sorted_by_value() {
    let b = MCPBridge::new();
    let first = b.tool_to_path("t", &args(vec![("a", s("zeta")), ("b", s("alpha"))]));
    assert_eq!(first, "tools/t/alpha/zeta.json");
    let second = b.tool_to_path("t", &args(vec![("b", s("alpha")), ("a", s("zeta"))]));
    assert_eq!(first, second);
}

#[test]
fn tool_two_arguments_collide_across_keys() {
    let b = MCPBridge::new();
    let first = b.tool_to_path("t", &args(vec![("from", s("x")), ("to", s("y"))]));
    let second = b.tool_to_path("t", &args(vec![("from", s("y")), ("to", s("x"))]));
    let third = b.tool_to_path("t", &args(vec![("p", s("x")), ("q", s("y"))]));
    assert_eq!(first, second);
    assert_eq!(first, third);
}

#[test]
fn tool_three_arguments_encoded() {
    let b = MCPBridge::new();
    let p = b.tool_to_path("t", &args(vec![("c", s("3")), ("a", s("1")), ("b", s("2"))]));
    assert_eq!(p, "tools/t/YT0xJmI9MiZjPTM_.json");
}

#[test]
fn tool_three_arguments_order_free() {
    let b = MCPBridge::new();
    let first = b.tool_to_path("t", &args(vec![("a", s("1")), ("b", s("2")), ("c", s("3"))]));
    let second = b.tool_to_path("t", &args(vec![("b", s("2")), ("c", s("3")), ("a", s("1"))]));
    let third = b.tool_to_path("t", &args(vec![("c", s("3")), ("b", s("2")), ("a", s("1"))]));
    assert_eq!(first, second);
    assert_eq!(first, third);
}

#[test]
fn tool_encoded_path_is_path_safe() {
    let b = MCPBridge::new();
    let p = b.tool_to_path("t", &args(vec![("a", s("~~~")), ("b", s("2")), ("c", s("3"))]));
    assert_eq!(p, "tools/t/YT1_fn4mYj0yJmM9Mw__.json");
    let p = b.tool_to_path("t", &args(vec![("a", s("???")), ("b", s("2")), ("c", s("3"))]));
    assert_eq!(p, "tools/t/YT0_Pz8mYj0yJmM9Mw__.json");
}

#[test]
fn tool_three_arguments_mixed_values() {
    let b = MCPBridge::new();
    let arr = JsonValue::Array(vec![JsonValue::Number("1".to_string()), JsonValue::Number("2".to_string())]);
    let p = b.tool_to_path("t", &args(vec![("c", JsonValue::Bool(true)), ("b", arr), ("a", s("x"))]));
    assert_eq!(p, "tools/t/YT14JmI9WzEsMl0mYz10cnVl.json");
}
