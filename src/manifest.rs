//! The manifest: the server's identity and the resources and tools it offers.
use crate::json::{member, JsonModel, JsonValue};
use crate::text::same_text;
use vstd::prelude::*;

verus! {

pub struct ServerInfo {
    pub name: String,
    pub version: String,
}

/// Resource and tool descriptors, passed through as they are.
pub struct Capabilities {
    pub resources: Option<Vec<JsonValue>>,
    pub tools: Option<Vec<JsonValue>>,
}

pub struct MCPManifest {
    pub server_info: Option<ServerInfo>,
    pub capabilities: Option<Capabilities>,
}

/// Why a document cannot be read as a manifest.
#[derive(PartialEq, Eq, Structural, Debug, Clone, Copy)]
pub enum ManifestError {
    /// The document is not a JSON object.
    NotAnObject,
}

impl ManifestError {
    pub fn message(&self) -> (r: String)
        ensures
            r@ == "manifest is not a JSON object"@,
    {
        String::from_str("manifest is not a JSON object")
    }
}

/// The models of a list of JSON values.
pub open spec fn items_model(v: Seq<JsonValue>) -> Seq<JsonModel> {
    Seq::new(v.len(), |i: int| v[i]@)
}

/// The string member `key` of `v`, if there is one.
pub open spec fn string_member(v: JsonModel, key: Seq<char>) -> Option<Seq<char>> {
    match member(v, key) {
        Some(JsonModel::String(s)) => Some(s),
        _ => None,
    }
}

/// The array member `key` of `v`, if there is one.
pub open spec fn array_member(v: JsonModel, key: Seq<char>) -> Option<Seq<JsonModel>> {
    match member(v, key) {
        Some(JsonModel::Array(items)) => Some(items),
        _ => None,
    }
}

/// The model of an optional list of JSON values.
pub open spec fn opt_items_model(v: Option<Vec<JsonValue>>) -> Option<Seq<JsonModel>> {
    match v {
        Some(items) => Some(items_model(items@)),
        None => None,
    }
}

/// `s` is what the `serverInfo` member `v` describes: present when it is an
/// object with a string `name` and a string `version`.
pub open spec fn server_info_from(v: Option<JsonModel>, s: Option<ServerInfo>) -> bool {
    match v {
        Some(info) => match (string_member(info, "name"@), string_member(info, "version"@)) {
            (Some(n), Some(ver)) => s is Some && s->0.name@ == n && s->0.version@ == ver,
            _ => s is None,
        },
        None => s is None,
    }
}

/// `c` is what the `capabilities` member `v` describes: present when it is an
/// object, with each list present when it is an array.
pub open spec fn capabilities_from(v: Option<JsonModel>, c: Option<Capabilities>) -> bool {
    match v {
        Some(JsonModel::Object(e)) => {
            &&& c is Some
            &&& opt_items_model(c->0.resources) == array_member(JsonModel::Object(e), "resources"@)
            &&& opt_items_model(c->0.tools) == array_member(JsonModel::Object(e), "tools"@)
        },
        _ => c is None,
    }
}

/// `m` is the manifest that the object `doc` describes; a member that is
/// missing or of another type leaves its field out.
pub open spec fn manifest_from(doc: JsonModel, m: MCPManifest) -> bool {
    &&& server_info_from(member(doc, "serverInfo"@), m.server_info)
    &&& capabilities_from(member(doc, "capabilities"@), m.capabilities)
}

/// A copy of a list of JSON values.
pub fn duplicate_items(v: &Vec<JsonValue>) -> (r: Vec<JsonValue>)
    ensures
        items_model(r@) == items_model(v@),
{
    let mut out: Vec<JsonValue> = Vec::new();
    let mut i: usize = 0;
    while i < v.len()
        invariant
            i <= v.len(),
            out.len() == i,
            forall|j: int| 0 <= j < i ==> #[trigger] out[j]@ == v[j]@,
        decreases v.len() - i,
    {
        out.push(v[i].duplicate());
        i = i + 1;
    }
    assert(items_model(out@) =~= items_model(v@));
    out
}

fn string_member_of(v: &JsonValue, key: &str) -> (r: Option<String>)
    ensures
        match r {
            Some(s) => string_member(v@, key@) == Some(s@),
            None => string_member(v@, key@) is None,
        },
{
    match v.get(key) {
        Some(JsonValue::String(s)) => Some(s.clone()),
        _ => None,
    }
}

fn array_member_of(v: &JsonValue, key: &str) -> (r: Option<Vec<JsonValue>>)
    ensures
        opt_items_model(r) == array_member(v@, key@),
{
    match v.get(key) {
        Some(x) => match x {
            JsonValue::Array(items) => {
                let c = duplicate_items(items);
                assert(items_model(items@) =~= x@->Array_0);
                Some(c)
            },
            _ => None,
        },
        None => None,
    }
}

/// Reads a manifest from its JSON document.
pub fn manifest_from_json(doc: &JsonValue) -> (r: Result<MCPManifest, ManifestError>)
    ensures
        r is Ok <==> doc@ is Object,
        r is Ok ==> manifest_from(doc@, r->Ok_0),
        r is Err ==> r->Err_0 == ManifestError::NotAnObject,
{
    if !matches!(doc, JsonValue::Object(_)) {
        return Err(ManifestError::NotAnObject);
    }
    let server_info = match doc.get("serverInfo") {
        Some(info) => match (string_member_of(info, "name"), string_member_of(info, "version")) {
            (Some(name), Some(version)) => Some(ServerInfo { name, version }),
            _ => None,
        },
        None => None,
    };
    let capabilities = match doc.get("capabilities") {
        Some(c) => if matches!(c, JsonValue::Object(_)) {
            Some(
                Capabilities {
                    resources: array_member_of(c, "resources"),
                    tools: array_member_of(c, "tools"),
                },
            )
        } else {
            None
        },
        None => None,
    };
    Ok(MCPManifest { server_info, capabilities })
}

} // verus!
