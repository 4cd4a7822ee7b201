//! The first-version handshake records of the app-server protocol, as plain
//! data. Map-valued fields are lists of `(key, value)` pairs in ascending
//! key order, each key once.
use vstd::prelude::*;

verus! {

pub struct ClientInfo {
    pub name: String,
    pub title: Option<String>,
    pub version: String,
}

pub struct InitializeCapabilities {
    /// Opt into receiving experimental API methods and fields.
    pub experimental_api: bool,
    /// Opt into attestation requests.
    pub request_attestation: bool,
    /// Allow downstream MCP servers to request extended form elicitations.
    pub mcp_server_openai_form_elicitation: bool,
    /// Exact notification method names to suppress for this connection.
    pub opt_out_notification_methods: Option<Vec<String>>,
}

pub struct InitializeParams {
    pub client_info: ClientInfo,
    pub capabilities: Option<InitializeCapabilities>,
}

pub struct OrchestraSchemaIdentity {
    pub identity: String,
    pub sha256: String,
}

pub struct OrchestraEvaluatorIdentity {
    pub revision: String,
    pub adapter_abi: String,
    pub canonicalizer: String,
    pub issue_format: String,
}

pub struct OrchestraArtifactIdentity {
    pub bytes: u64,
    pub sha256: String,
}

pub struct OrchestraReleaseManifest {
    pub schema_version: u32,
    pub product_version: String,
    pub minimum_macos: String,
    pub target: String,
    pub sources: Vec<(String, String)>,
    pub schemas: Vec<(String, OrchestraSchemaIdentity)>,
    pub evaluator: OrchestraEvaluatorIdentity,
    pub capabilities: Vec<String>,
    pub limits: Vec<(String, u64)>,
    pub artifacts: Vec<(String, OrchestraArtifactIdentity)>,
    pub manifest_sha256: String,
}

pub struct ConversationGitInfo {
    pub sha: Option<String>,
    pub branch: Option<String>,
    pub origin_url: Option<String>,
}

pub struct LoginApiKeyParams {
    pub api_key: String,
}

pub struct GitDiffToRemoteParams {
    pub cwd: String,
}

pub struct GetAuthStatusParams {
    pub include_token: Option<bool>,
    pub refresh_token: Option<bool>,
}

pub struct Tools {
    pub web_search: Option<bool>,
}

} // verus!
