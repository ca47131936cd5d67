//! The bridge: dispatch of JSON-RPC methods, and the shaping of loaded
//! documents into MCP answers.
//!
//! Loading a document is work for the caller: `handle_request` either answers
//! at once or names the document to load, and `finish_request` turns the
//! outcome of that load into the answer.
use crate::json::{member, JsonModel, JsonValue};
use crate::manifest::{
    duplicate_items, items_model, manifest_from, manifest_from_json, string_member, MCPManifest,
    ManifestError,
};
use crate::paths::{entries_model, resource_path, resource_path_of, tool_path, tool_path_of};
use crate::protocol::{
    is_error, is_result, MCPRequest, MCPResponse, INTERNAL_ERROR, METHOD_NOT_FOUND,
};
use crate::render::{pretty_text, to_pretty};
use crate::text::same_text;
use vstd::prelude::*;

verus! {

/// What a pending request needs a document for.
pub enum LoadTarget {
    /// A resource read; holds the requested URI.
    Resource(String),
    /// A tool call; holds the tool's name.
    Tool(String),
}

/// A request that waits for the document at `path`.
pub struct PendingLoad {
    pub id: Option<JsonValue>,
    pub target: LoadTarget,
    pub path: String,
}

/// What the bridge does with a request.
pub enum RequestStep {
    /// The answer, ready to send.
    Respond(MCPResponse),
    /// A document must be loaded before the request can be answered.
    Load(PendingLoad),
}

/// Serves the content tree that a manifest describes. It starts without a
/// manifest; `initialize` loads one.
pub struct MCPBridge {
    pub manifest: Option<MCPManifest>,
}

// ---- the shapes of the answers ----
pub open spec fn obj1(k: Seq<char>, v: JsonModel) -> JsonModel {
    JsonModel::Object(seq![(k, v)])
}

pub open spec fn text_block(t: Seq<char>) -> JsonModel {
    JsonModel::Object(seq![("type"@, JsonModel::String("text"@)), ("text"@, JsonModel::String(t))])
}

/// The fixed answer to `initialize`.
pub open spec fn initialize_result() -> JsonModel {
    JsonModel::Object(
        seq![
            ("protocolVersion"@, JsonModel::String("2024-11-05"@)),
            (
                "capabilities"@,
                JsonModel::Object(
                    seq![
                        ("resources"@, JsonModel::Object(Seq::empty())),
                        ("tools"@, JsonModel::Object(Seq::empty())),
                    ],
                ),
            ),
            (
                "serverInfo"@,
                JsonModel::Object(
                    seq![
                        ("name"@, JsonModel::String("sse-static-mcp-bridge"@)),
                        ("version"@, JsonModel::String("1.0.0"@)),
                    ],
                ),
            ),
        ],
    )
}

/// The resource descriptors (or, with `resources` false, the tool
/// descriptors) that a manifest lists; none where it lists none.
pub open spec fn listed(m: MCPManifest, resources: bool) -> Seq<JsonModel> {
    match m.capabilities {
        Some(c) => match (if resources {
            c.resources
        } else {
            c.tools
        }) {
            Some(v) => items_model(v@),
            None => Seq::empty(),
        },
        None => Seq::empty(),
    }
}

/// `r` answers a listing request `id`: an error without a manifest, else the
/// listed descriptors under `key`.
pub open spec fn is_list_answer(
    manifest: Option<MCPManifest>,
    r: MCPResponse,
    id: Option<JsonValue>,
    key: Seq<char>,
    resources: bool,
) -> bool {
    match manifest {
        None => is_error(r, id, INTERNAL_ERROR, "Manifest not loaded"@),
        Some(m) => is_result(r, id, obj1(key, JsonModel::Array(listed(m, resources)))),
    }
}

/// The string parameter `key`; empty where it is missing.
pub open spec fn param_text(params: Option<JsonValue>, key: Seq<char>) -> Seq<char> {
    match params {
        Some(p) => match string_member(p@, key) {
            Some(s) => s,
            None => Seq::empty(),
        },
        None => Seq::empty(),
    }
}

/// The entries of the `arguments` parameter; none where it is missing or not
/// an object.
pub open spec fn param_arguments(params: Option<JsonValue>) -> Seq<(Seq<char>, JsonModel)> {
    match params {
        Some(p) => match member(p@, "arguments"@) {
            Some(JsonModel::Object(e)) => e,
            _ => Seq::empty(),
        },
        None => Seq::empty(),
    }
}

/// The `contents` of the answer to a resource read of `uri`, given its document.
pub open spec fn read_contents(uri: Seq<char>, doc: JsonModel) -> JsonModel {
    match member(doc, "contents"@) {
        Some(x) => x,
        None => if member(doc, "uri"@) is Some && member(doc, "mimeType"@) is Some && member(
            doc,
            "text"@,
        ) is Some {
            JsonModel::Array(
                seq![
                    JsonModel::Object(
                        seq![
                            ("uri"@, member(doc, "uri"@)->0),
                            ("mimeType"@, member(doc, "mimeType"@)->0),
                            ("text"@, member(doc, "text"@)->0),
                        ],
                    ),
                ],
            )
        } else {
            JsonModel::Array(
                seq![
                    JsonModel::Object(
                        seq![
                            ("uri"@, JsonModel::String(uri)),
                            ("mimeType"@, JsonModel::String("application/json"@)),
                            ("text"@, JsonModel::String(pretty_text(doc))),
                        ],
                    ),
                ],
            )
        },
    }
}

/// The result of a resource read of `uri`, given its document.
pub open spec fn read_result(uri: Seq<char>, doc: JsonModel) -> JsonModel {
    obj1("contents"@, read_contents(uri, doc))
}

/// The result of a tool call, given its document.
pub open spec fn call_result(doc: JsonModel) -> JsonModel {
    if member(doc, "content"@) is Some || member(doc, "contents"@) is Some {
        doc
    } else {
        obj1("content"@, JsonModel::Array(seq![text_block(pretty_text(doc))]))
    }
}

/// The result of a tool call whose document could not be loaded.
pub open spec fn call_failure_result(name: Seq<char>, failure: Seq<char>) -> JsonModel {
    JsonModel::Object(
        seq![
            (
                "content"@,
                JsonModel::Array(
                    seq![text_block("Error calling "@ + name + ": "@ + failure)],
                ),
            ),
            ("isError"@, JsonModel::Bool(true)),
        ],
    )
}

/// `step` is what the bridge does with `request`.
pub open spec fn is_step_for(
    manifest: Option<MCPManifest>,
    request: MCPRequest,
    step: RequestStep,
) -> bool {
    let m = request.method@;
    if m == "initialize"@ {
        step is Respond && is_result(step->Respond_0, request.id, initialize_result())
    } else if m == "resources/list"@ {
        step is Respond && is_list_answer(manifest, step->Respond_0, request.id, "resources"@, true)
    } else if m == "tools/list"@ {
        step is Respond && is_list_answer(manifest, step->Respond_0, request.id, "tools"@, false)
    } else if m == "resources/read"@ {
        let uri = param_text(request.params, "uri"@);
        &&& step is Load
        &&& step->Load_0.id == request.id
        &&& step->Load_0.target is Resource
        &&& step->Load_0.target->Resource_0@ == uri
        &&& step->Load_0.path@ == resource_path(uri)
    } else if m == "tools/call"@ {
        let name = param_text(request.params, "name"@);
        &&& step is Load
        &&& step->Load_0.id == request.id
        &&& step->Load_0.target is Tool
        &&& step->Load_0.target->Tool_0@ == name
        &&& step->Load_0.path@ == tool_path(name, param_arguments(request.params))
    } else {
        step is Respond && is_error(step->Respond_0, request.id, METHOD_NOT_FOUND, "Method not found"@)
    }
}

/// `r` answers `pending` given the outcome of its load.
pub open spec fn is_finished_answer(
    pending: PendingLoad,
    loaded: Result<JsonValue, String>,
    r: MCPResponse,
) -> bool {
    match pending.target {
        LoadTarget::Resource(uri) => match loaded {
            Ok(doc) => is_result(r, pending.id, read_result(uri@, doc@)),
            Err(e) => is_error(
                r,
                pending.id,
                INTERNAL_ERROR,
                "Failed to read resource "@ + uri@ + ": "@ + e@,
            ),
        },
        LoadTarget::Tool(name) => match loaded {
            Ok(doc) => is_result(r, pending.id, call_result(doc@)),
            Err(e) => is_result(r, pending.id, call_failure_result(name@, e@)),
        },
    }
}

/// A loaded resource document with a `contents` member is answered with that
/// member as it is.
pub proof fn lemma_contents_pass_through(uri: Seq<char>, x: JsonModel)
    ensures
        read_result(uri, obj1("contents"@, x)) == obj1("contents"@, x),
{
    assert(crate::json::entries_get(seq![("contents"@, x)], "contents"@) == Some(x));
}

// ---- building JSON values ----
fn text_value(s: &str) -> (r: JsonValue)
    ensures
        r@ == JsonModel::String(s@),
{
    JsonValue::String(String::from_str(s))
}

fn array1(v: JsonValue) -> (r: JsonValue)
    ensures
        r@ == JsonModel::Array(seq![v@]),
{
    let r = JsonValue::Array(vec![v]);
    assert(r@->Array_0 =~= seq![v@]);
    r
}

fn object1(k: &str, v: JsonValue) -> (r: JsonValue)
    ensures
        r@ == obj1(k@, v@),
{
    let r = JsonValue::Object(vec![(String::from_str(k), v)]);
    assert(r@->Object_0 =~= seq![(k@, v@)]);
    r
}

fn object2(k1: &str, v1: JsonValue, k2: &str, v2: JsonValue) -> (r: JsonValue)
    ensures
        r@ == JsonModel::Object(seq![(k1@, v1@), (k2@, v2@)]),
{
    let r = JsonValue::Object(vec![(String::from_str(k1), v1), (String::from_str(k2), v2)]);
    assert(r@->Object_0 =~= seq![(k1@, v1@), (k2@, v2@)]);
    r
}

fn object3(k1: &str, v1: JsonValue, k2: &str, v2: JsonValue, k3: &str, v3: JsonValue) -> (r:
    JsonValue)
    ensures
        r@ == JsonModel::Object(seq![(k1@, v1@), (k2@, v2@), (k3@, v3@)]),
{
    let r = JsonValue::Object(
        vec![(String::from_str(k1), v1), (String::from_str(k2), v2), (String::from_str(k3), v3)],
    );
    assert(r@->Object_0 =~= seq![(k1@, v1@), (k2@, v2@), (k3@, v3@)]);
    r
}

fn text_block_of(t: String) -> (r: JsonValue)
    ensures
        r@ == text_block(t@),
{
    object2("type", text_value("text"), "text", JsonValue::String(t))
}

fn empty_object() -> (r: JsonValue)
    ensures
        r@ == JsonModel::Object(Seq::empty()),
{
    let r = JsonValue::Object(Vec::new());
    assert(r@->Object_0 =~= Seq::<(Seq<char>, JsonModel)>::empty());
    r
}

fn param_text_of(params: &Option<JsonValue>, key: &str) -> (r: String)
    ensures
        r@ == param_text(*params, key@),
{
    match params {
        Some(p) => match p.get(key) {
            Some(JsonValue::String(s)) => s.clone(),
            _ => String::new(),
        },
        None => String::new(),
    }
}

fn param_arguments_of(params: &Option<JsonValue>) -> (r: Vec<(String, JsonValue)>)
    ensures
        entries_model(r@) == param_arguments(*params),
{
    match params {
        Some(p) => match p.get("arguments") {
            Some(a) => match a {
                JsonValue::Object(entries) => {
                    let mut out: Vec<(String, JsonValue)> = Vec::new();
                    let mut i: usize = 0;
                    while i < entries.len()
                        invariant
                            i <= entries.len(),
                            out.len() == i,
                            forall|j: int|
                                0 <= j < i ==> #[trigger] out[j].0@ == entries[j].0@ && out[j].1@
                                    == entries[j].1@,
                        decreases entries.len() - i,
                    {
                        out.push((entries[i].0.clone(), entries[i].1.duplicate()));
                        i = i + 1;
                    }
                    assert(entries_model(out@) =~= a@->Object_0);
                    out
                },
                _ => Vec::new(),
            },
            None => Vec::new(),
        },
        None => Vec::new(),
    }
}

fn read_contents_of(uri: &str, doc: &JsonValue) -> (r: JsonValue)
    ensures
        r@ == read_contents(uri@, doc@),
{
    match doc.get("contents") {
        Some(x) => x.duplicate(),
        None => match (doc.get("uri"), doc.get("mimeType"), doc.get("text")) {
            (Some(u), Some(m), Some(t)) => array1(
                object3("uri", u.duplicate(), "mimeType", m.duplicate(), "text", t.duplicate()),
            ),
            _ => array1(
                object3(
                    "uri",
                    text_value(uri),
                    "mimeType",
                    text_value("application/json"),
                    "text",
                    JsonValue::String(to_pretty(doc)),
                ),
            ),
        },
    }
}

fn call_result_of(doc: JsonValue) -> (r: JsonValue)
    ensures
        r@ == call_result(doc@),
{
    let passes = doc.get("content").is_some() || doc.get("contents").is_some();
    if passes {
        doc
    } else {
        let text = to_pretty(&doc);
        object1("content", array1(text_block_of(text)))
    }
}

impl MCPBridge {
    /// A bridge without a manifest.
    pub fn new() -> (r: Self)
        ensures
            r.manifest is None,
    {
        MCPBridge { manifest: None }
    }

    /// Loads the manifest from its JSON document; on failure the bridge is
    /// left as it was.
    pub fn initialize(&mut self, document: &JsonValue) -> (r: Result<(), ManifestError>)
        ensures
            r is Ok <==> document@ is Object,
            r is Ok ==> final(self).manifest is Some && manifest_from(
                document@,
                final(self).manifest->0,
            ),
            r is Err ==> r->Err_0 == ManifestError::NotAnObject && final(self).manifest == old(
                self,
            ).manifest,
    {
        match manifest_from_json(document) {
            Ok(m) => {
                self.manifest = Some(m);
                Ok(())
            },
            Err(e) => Err(e),
        }
    }

    pub fn get_manifest(&self) -> (r: Option<&MCPManifest>)
        ensures
            match self.manifest {
                Some(m) => r == Some(&m),
                None => r is None,
            },
    {
        match &self.manifest {
            Some(m) => Some(m),
            None => None,
        }
    }

    /// The path of the document that holds the resource `uri`.
    pub fn uri_to_path(&self, uri: &str) -> (r: String)
        ensures
            r@ == resource_path(uri@),
    {
        resource_path_of(uri)
    }

    /// The path of the stored output of the tool `tool_name` for `args`.
    pub fn tool_to_path(&self, tool_name: &str, args: &Vec<(String, JsonValue)>) -> (r: String)
        ensures
            r@ == tool_path(tool_name@, entries_model(args@)),
    {
        tool_path_of(tool_name, args)
    }

    fn list_answer(&self, id: Option<JsonValue>, key: &str, resources: bool) -> (r: MCPResponse)
        ensures
            is_list_answer(self.manifest, r, id, key@, resources),
    {
        match &self.manifest {
            None => MCPResponse::failure(id, INTERNAL_ERROR, String::from_str("Manifest not loaded")),
            Some(m) => {
                let items = match &m.capabilities {
                    Some(c) => {
                        let list = if resources {
                            &c.resources
                        } else {
                            &c.tools
                        };
                        match list {
                            Some(v) => duplicate_items(v),
                            None => Vec::new(),
                        }
                    },
                    None => Vec::new(),
                };
                assert(items_model(items@) =~= listed(*m, resources));
                let list = JsonValue::Array(items);
                assert(list@->Array_0 =~= items_model(items@));
                MCPResponse::success(id, object1(key, list))
            },
        }
    }

    /// What to do with `request`: answer it at once, or load a document first.
    pub fn handle_request(&self, request: MCPRequest) -> (r: RequestStep)
        ensures
            is_step_for(self.manifest, request, r),
    {
        let ghost req = request;
        let MCPRequest { jsonrpc: _, id, method, params } = request;
        let m = method.as_str();
        if same_text(m, "initialize") {
            let result = object3(
                "protocolVersion",
                text_value("2024-11-05"),
                "capabilities",
                object2("resources", empty_object(), "tools", empty_object()),
                "serverInfo",
                object2(
                    "name",
                    text_value("sse-static-mcp-bridge"),
                    "version",
                    text_value("1.0.0"),
                ),
            );
            RequestStep::Respond(MCPResponse::success(id, result))
        } else if same_text(m, "resources/list") {
            RequestStep::Respond(self.list_answer(id, "resources", true))
        } else if same_text(m, "tools/list") {
            RequestStep::Respond(self.list_answer(id, "tools", false))
        } else if same_text(m, "resources/read") {
            let uri = param_text_of(&params, "uri");
            let path = resource_path_of(uri.as_str());
            RequestStep::Load(PendingLoad { id, target: LoadTarget::Resource(uri), path })
        } else if same_text(m, "tools/call") {
            let name = param_text_of(&params, "name");
            let args = param_arguments_of(&params);
            let path = tool_path_of(name.as_str(), &args);
            RequestStep::Load(PendingLoad { id, target: LoadTarget::Tool(name), path })
        } else {
            RequestStep::Respond(
                MCPResponse::failure(id, METHOD_NOT_FOUND, String::from_str("Method not found")),
            )
        }
    }

    /// The answer to a pending request, given the document that was loaded for
    /// it or the text of the failure to load it. A failed resource read is an
    /// error answer; a failed tool call is a successful answer that says so.
    pub fn finish_request(pending: PendingLoad, loaded: Result<JsonValue, String>) -> (r:
        MCPResponse)
        ensures
            is_finished_answer(pending, loaded, r),
    {
        let PendingLoad { id, target, path: _ } = pending;
        match target {
            LoadTarget::Resource(uri) => match loaded {
                Ok(doc) => {
                    let contents = read_contents_of(uri.as_str(), &doc);
                    MCPResponse::success(id, object1("contents", contents))
                },
                Err(e) => {
                    let mut message = String::from_str("Failed to read resource ");
                    message.append(uri.as_str());
                    message.append(": ");
                    message.append(e.as_str());
                    MCPResponse::failure(id, INTERNAL_ERROR, message)
                },
            },
            LoadTarget::Tool(name) => match loaded {
                Ok(doc) => MCPResponse::success(id, call_result_of(doc)),
                Err(e) => {
                    let mut message = String::from_str("Error calling ");
                    message.append(name.as_str());
                    message.append(": ");
                    message.append(e.as_str());
                    let content = array1(text_block_of(message));
                    MCPResponse::success(
                        id,
                        object2("content", content, "isError", JsonValue::Bool(true)),
                    )
                },
            },
        }
    }
}

} // verus!
