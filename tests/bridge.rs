use staticmcp_sse_lib::{
    manifest_from_json, JsonValue, LoadTarget, MCPBridge, MCPRequest, MCPResponse, ManifestError,
    PendingLoad, RequestStep, INTERNAL_ERROR, METHOD_NOT_FOUND,
};

fn s(t: &str) -> JsonValue {
    JsonValue::String(t.to_string())
}

fn obj(pairs: Vec<(&str, JsonValue)>) -> JsonValue {
    JsonValue::Object(pairs.into_iter().map(|(k, v)| (k.to_string(), v)).collect())
}

fn request(id: Option<JsonValue>, method: &str, params: Option<JsonValue>) -> MCPRequest {
    MCPRequest { jsonrpc: "2.0".to_string(), id, method: method.to_string(), params }
}

fn respond(step: RequestStep) -> MCPResponse {
    match step {
        RequestStep::Respond(r) => r,
        RequestStep::Load(_) => panic!("expected an immediate answer"),
    }
}

fn pending(step: RequestStep) -> PendingLoad {
    match step {
        RequestStep::Load(p) => p,
        RequestStep::Respond(_) => panic!("expected a load"),
    }
}

fn manifest_doc() -> JsonValue {
    obj(vec![
        ("serverInfo", obj(vec![("name", s("demo")), ("version", s("2.1.0"))])),
        (
            "capabilities",
            obj(vec![
                ("resources", JsonValue::Array(vec![obj(vec![("uri", s("file:///a"))])])),
                ("tools", JsonValue::Array(vec![obj(vec![("name", s("search"))])])),
            ]),
        ),
    ])
}

fn num(n: &str) -> JsonValue {
    JsonValue::Number(n.to_string())
}

#[test]
fn unknown_method_echoes_id() {
    let b = MCPBridge::new();
    let r = respond(b.handle_request(request(Some(num("7")), "nope", None)));
    assert_eq!(r.jsonrpc, "2.0");
    assert!(r.result.is_none());
    let e = r.error.unwrap();
    assert_eq!(e.code, -32601);
    assert_eq!(e.code, METHOD_NOT_FOUND);
    assert_eq!(e.message, "Method not found");
    assert_eq!(r.id, Some(num("7")));
}

#[test]
fn unknown_method_without_id() {
    let b = MCPBridge::new();
    let r = respond(b.handle_request(request(None, "resources/delete", None)));
    assert!(r.id.is_none());
    assert_eq!(r.error.unwrap().code, -32601);
}

#[test]
fn listing_before_initialize_fails() {
    let b = MCPBridge::new();
    for method in ["resources/list", "tools/list"] {
        let r = respond(b.handle_request(request(Some(num("1")), method, None)));
        assert!(r.result.is_none());
        let e = r.error.unwrap();
        assert_eq!(e.code, -32603);
        assert_eq!(e.code, INTERNAL_ERROR);
        assert_eq!(e.message, "Manifest not loaded");
    }
}

#[test]
fn listing_after_initialize() {
    let mut b = MCPBridge::new();
    assert!(b.initialize(&manifest_doc()).is_ok());
    let r = respond(b.handle_request(request(Some(num("1")), "resources/list", None)));
    assert!(r.error.is_none());
    let expected = obj(vec![("resources", JsonValue::Array(vec![obj(vec![("uri", s("file:///a"))])]))]);
    assert_eq!(r.result, Some(expected));
    let r = respond(b.handle_request(request(Some(num("2")), "tools/list", None)));
    let expected = obj(vec![("tools", JsonValue::Array(vec![obj(vec![("name", s("search"))])]))]);
    assert_eq!(r.result, Some(expected));
}

#[test]
fn listing_with_no_descriptors_is_empty() {
    let mut b = MCPBridge::new();
    assert!(b.initialize(&obj(vec![])).is_ok());
    let r = respond(b.handle_request(request(None, "tools/list", None)));
    assert_eq!(r.result, Some(obj(vec![("tools", JsonValue::Array(vec![]))])));
}

#[test]
fn initialize_answer_is_fixed() {
    let b = MCPBridge::new();
    let r = respond(b.handle_request(request(Some(s("abc")), "initialize", Some(obj(vec![("x", num("1"))])))));
    assert_eq!(r.id, Some(s("abc")));
    let expected = obj(vec![
        ("protocolVersion", s("2024-11-05")),
        ("capabilities", obj(vec![("resources", obj(vec![])), ("tools", obj(vec![]))])),
        ("serverInfo", obj(vec![("name", s("sse-static-mcp-bridge")), ("version", s("1.0.0"))])),
    ]);
    assert_eq!(r.result, Some(expected));
    assert!(r.error.is_none());
}

#[test]
fn manifest_reading() {
    let m = manifest_from_json(&manifest_doc()).ok().unwrap();
    let info = m.server_info.unwrap();
    assert_eq!(info.name, "demo");
    assert_eq!(info.version, "2.1.0");
    let caps = m.capabilities.unwrap();
    assert_eq!(caps.resources.unwrap().len(), 1);
    assert_eq!(caps.tools.unwrap().len(), 1);
}

#[test]
fn manifest_tolerates_wrong_types() {
    let doc = obj(vec![("serverInfo", s("x")), ("capabilities", obj(vec![("tools", num("3"))]))]);
    let m = manifest_from_json(&doc).ok().unwrap();
    assert!(m.server_info.is_none());
    let caps = m.capabilities.unwrap();
    assert!(caps.tools.is_none());
    assert!(caps.resources.is_none());
}

#[test]
fn manifest_must_be_an_object() {
    assert!(matches!(manifest_from_json(&num("5")), Err(ManifestError::NotAnObject)));
    let mut b = MCPBridge::new();
    assert!(b.initialize(&JsonValue::Array(vec![])).is_err());
    assert!(b.get_manifest().is_none());
    assert_eq!(ManifestError::NotAnObject.message(), "manifest is not a JSON object");
}

#[test]
fn read_resource_plans_a_load() {
    let b = MCPBridge::new();
    let p = pending(b.handle_request(request(Some(num("3")), "resources/read", Some(obj(vec![("uri", s("file:///docs/x"))])))));
    assert_eq!(p.path, "resources//docs/x.json");
    assert_eq!(p.id, Some(num("3")));
    assert!(matches!(p.target, LoadTarget::Resource(ref u) if u == "file:///docs/x"));
}

#[test]
fn read_resource_without_uri() {
    let b = MCPBridge::new();
    let p = pending(b.handle_request(request(None, "resources/read", None)));
    assert_eq!(p.path, ".json");
}

#[test]
fn call_tool_plans_a_load() {
    let b = MCPBridge::new();
    let params = obj(vec![("name", s("search")), ("arguments", obj(vec![("q", s("cats"))]))]);
    let p = pending(b.handle_request(request(Some(num("4")), "tools/call", Some(params))));
    assert_eq!(p.path, "tools/search/cats.json");
    assert!(matches!(p.target, LoadTarget::Tool(ref n) if n == "search"));
}

#[test]
fn call_tool_with_non_object_arguments() {
    let b = MCPBridge::new();
    let params = obj(vec![("name", s("search")), ("arguments", s("cats"))]);
    let p = pending(b.handle_request(request(None, "tools/call", Some(params))));
    assert_eq!(p.path, "tools/search.json");
}

fn resource_pending(uri: &str) -> PendingLoad {
    PendingLoad { id: Some(num("9")), target: LoadTarget::Resource(uri.to_string()), path: String::new() }
}

fn tool_pending(name: &str) -> PendingLoad {
    PendingLoad { id: Some(num("9")), target: LoadTarget::Tool(name.to_string()), path: String::new() }
}

#[test]
fn read_passes_contents_through() {
    let x = JsonValue::Array(vec![obj(vec![("text", s("hi"))])]);
    let r = MCPBridge::finish_request(resource_pending("u"), Ok(obj(vec![("contents", x.clone())])));
    assert_eq!(r.result, Some(obj(vec![("contents", x)])));
    assert_eq!(r.id, Some(num("9")));
}

#[test]
fn read_wraps_uri_mime_text() {
    let doc = obj(vec![("uri", s("u")), ("mimeType", s("m")), ("text", s("t"))]);
    let r = MCPBridge::finish_request(resource_pending("req"), Ok(doc));
    let expected = obj(vec![(
        "contents",
        JsonValue::Array(vec![obj(vec![("uri", s("u")), ("mimeType", s("m")), ("text", s("t"))])]),
    )]);
    assert_eq!(r.result, Some(expected));
}

#[test]
fn read_wraps_other_documents_pretty() {
    let doc = obj(vec![("a", num("1"))]);
    let r = MCPBridge::finish_request(resource_pending("file:///x"), Ok(doc));
    let expected = obj(vec![(
        "contents",
        JsonValue::Array(vec![obj(vec![
            ("uri", s("file:///x")),
            ("mimeType", s("application/json")),
            ("text", s("{\n  \"a\": 1\n}")),
        ])]),
    )]);
    assert_eq!(r.result, Some(expected));
}

#[test]
fn read_failure_is_an_error() {
    let r = MCPBridge::finish_request(resource_pending("file:///x"), Err("not found".to_string()));
    assert!(r.result.is_none());
    let e = r.error.unwrap();
    assert_eq!(e.code, -32603);
    assert_eq!(e.message, "Failed to read resource file:///x: not found");
}

#[test]
fn tool_failure_is_in_band() {
    let r = MCPBridge::finish_request(tool_pending("search"), Err("No such file or directory".to_string()));
    assert!(r.error.is_none());
    let expected = obj(vec![
        (
            "content",
            JsonValue::Array(vec![obj(vec![
                ("type", s("text")),
                ("text", s("Error calling search: No such file or directory")),
            ])]),
        ),
        ("isError", JsonValue::Bool(true)),
    ]);
    assert_eq!(r.result, Some(expected));
}

#[test]
fn tool_result_passes_content_through() {
    let doc = obj(vec![("content", JsonValue::Array(vec![])), ("extra", num("1"))]);
    let r = MCPBridge::finish_request(tool_pending("t"), Ok(doc.clone()));
    assert_eq!(r.result, Some(doc));
    let doc = obj(vec![("contents", s("x"))]);
    let r = MCPBridge::finish_request(tool_pending("t"), Ok(doc.clone()));
    assert_eq!(r.result, Some(doc));
}

#[test]
fn tool_result_wraps_other_documents() {
    let doc = JsonValue::Array(vec![num("1"), JsonValue::Null]);
    let r = MCPBridge::finish_request(tool_pending("t"), Ok(doc));
    let expected = obj(vec![(
        "content",
        JsonValue::Array(vec![obj(vec![("type", s("text")), ("text", s("[\n  1,\n  null\n]"))])]),
    )]);
    assert_eq!(r.result, Some(expected));
}
