//! Request-to-path resolution and response shaping for serving a static,
//! pre-generated content tree as an MCP (Model Context Protocol) JSON-RPC server.
pub mod bridge;
pub mod json;
pub mod manifest;
pub mod paths;
pub mod protocol;
pub mod render;
pub mod source;
pub mod text;

pub use bridge::{LoadTarget, MCPBridge, PendingLoad, RequestStep};
pub use json::{JsonModel, JsonValue};
pub use manifest::{manifest_from_json, Capabilities, MCPManifest, ManifestError, ServerInfo};
pub use protocol::{MCPError, MCPRequest, MCPResponse, INTERNAL_ERROR, METHOD_NOT_FOUND};
pub use render::{to_compact, to_pretty};
pub use source::{select_source, status_failure, LocalDataSource, RemoteDataSource, SourceChoice};
