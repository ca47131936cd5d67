//! JSON-RPC 2.0 request and response envelopes.
use crate::json::{JsonModel, JsonValue};
use vstd::prelude::*;

verus! {

/// The code of an error answer to a method that does not exist.
pub const METHOD_NOT_FOUND: i32 = -32601;

/// The code of an error answer to any failure inside the server.
pub const INTERNAL_ERROR: i32 = -32603;

/// A JSON-RPC request. `id` is opaque and echoed back as it is.
pub struct MCPRequest {
    pub jsonrpc: String,
    pub id: Option<JsonValue>,
    pub method: String,
    pub params: Option<JsonValue>,
}

/// The error part of a JSON-RPC response.
pub struct MCPError {
    pub code: i32,
    pub message: String,
    pub data: Option<JsonValue>,
}

/// A JSON-RPC response: exactly one of `result` and `error` is present.
pub struct MCPResponse {
    pub jsonrpc: String,
    pub id: Option<JsonValue>,
    pub result: Option<JsonValue>,
    pub error: Option<MCPError>,
}

/// The model of an optional JSON value.
pub open spec fn opt_model(v: Option<JsonValue>) -> Option<JsonModel> {
    match v {
        Some(x) => Some(x@),
        None => None,
    }
}

/// `r` is a success answer to the request `id`, with result `result`.
pub open spec fn is_result(r: MCPResponse, id: Option<JsonValue>, result: JsonModel) -> bool {
    &&& r.jsonrpc@ == "2.0"@
    &&& r.id == id
    &&& r.error is None
    &&& opt_model(r.result) == Some(result)
}

/// `r` is an error answer to the request `id`.
pub open spec fn is_error(r: MCPResponse, id: Option<JsonValue>, code: i32, message: Seq<char>) -> bool {
    &&& r.jsonrpc@ == "2.0"@
    &&& r.id == id
    &&& r.result is None
    &&& r.error is Some
    &&& r.error->0.code == code
    &&& r.error->0.message@ == message
    &&& r.error->0.data is None
}

impl MCPResponse {
    /// A success answer.
    pub fn success(id: Option<JsonValue>, result: JsonValue) -> (r: MCPResponse)
        ensures
            is_result(r, id, result@),
    {
        MCPResponse { jsonrpc: String::from_str("2.0"), id, result: Some(result), error: None }
    }

    /// An error answer.
    pub fn failure(id: Option<JsonValue>, code: i32, message: String) -> (r: MCPResponse)
        ensures
            is_error(r, id, code, message@),
    {
        MCPResponse {
            jsonrpc: String::from_str("2.0"),
            id,
            result: None,
            error: Some(MCPError { code, message, data: None }),
        }
    }
}

} // verus!
