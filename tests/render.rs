use staticmcp_sse_lib::{
    select_source, status_failure, to_compact, to_pretty, JsonValue, RemoteDataSource, SourceChoice,
};

fn from_serde(v: &serde_json::Value) -> JsonValue {
    match v {
        serde_json::Value::Null => JsonValue::Null,
        serde_json::Value::Bool(b) => JsonValue::Bool(*b),
        serde_json::Value::Number(n) => JsonValue::Number(n.to_string()),
        serde_json::Value::String(s) => JsonValue::String(s.clone()),
        serde_json::Value::Array(a) => JsonValue::Array(a.iter().map(from_serde).collect()),
        serde_json::Value::Object(o) => {
            JsonValue::Object(o.iter().map(|(k, v)| (k.clone(), from_serde(v))).collect())
        }
    }
}

const SAMPLE: &str = r#"{"b":[1,2.5,{"x":null,"y":[]},{}],"a":"q\"\\\n\t\u0001\u001f\u007f é","c":true,"d":-3}"#;

#[test]
fn compact_matches_serde_json() {
    let v: serde_json::Value = serde_json::from_str(SAMPLE).unwrap();
    assert_eq!(to_compact(&from_serde(&v)), serde_json::to_string(&v).unwrap());
}

#[test]
fn pretty_matches_serde_json() {
    let v: serde_json::Value = serde_json::from_str(SAMPLE).unwrap();
    assert_eq!(to_pretty(&from_serde(&v)), serde_json::to_string_pretty(&v).unwrap());
}

#[test]
fn pretty_of_scalars_and_empties() {
    assert_eq!(to_pretty(&JsonValue::Null), "null");
    assert_eq!(to_pretty(&JsonValue::Array(vec![])), "[]");
    assert_eq!(to_pretty(&JsonValue::Object(vec![])), "{}");
    assert_eq!(to_compact(&JsonValue::String("\u{8}\u{c}\r".to_string())), "\"\\b\\f\\r\"");
}

#[test]
fn remote_base_url_trimmed() {
    let r = RemoteDataSource::new("https://example.com/mcp///".to_string());
    assert_eq!(r.base_url, "https://example.com/mcp");
    assert_eq!(r.url_for("mcp.json"), "https://example.com/mcp/mcp.json");
}

#[test]
fn source_selection() {
    assert!(matches!(select_source("http://h/x".to_string()), SourceChoice::Remote(_)));
    match select_source("https://h/x/".to_string()) {
        SourceChoice::Remote(r) => assert_eq!(r.base_url, "https://h/x"),
        SourceChoice::Local(_) => panic!("expected a remote source"),
    }
    match select_source("./data".to_string()) {
        SourceChoice::Local(p) => assert_eq!(p, "./data"),
        SourceChoice::Remote(_) => panic!("expected a local source"),
    }
    assert!(matches!(select_source("httpx://h".to_string()), SourceChoice::Local(_)));
}

#[test]
fn http_status_judgement() {
    assert!(status_failure(200, Some("OK")).is_none());
    assert!(status_failure(299, None).is_none());
    assert_eq!(status_failure(404, Some("Not Found")).unwrap(), "HTTP 404 Not Found: Not Found");
    assert_eq!(status_failure(599, None).unwrap(), "HTTP 599 <unknown status code>: Unknown");
    assert_eq!(status_failure(7, None).unwrap(), "HTTP 7 <unknown status code>: Unknown");
}
