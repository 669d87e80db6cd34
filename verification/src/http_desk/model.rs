//! The data model of the HTTP workspace: requests, variables, environments,
//! collections, results, history and tabs, with the views that contracts use.
use vstd::prelude::*;

verus! {

// ---------------------------------------------------------------------
// Views
// ---------------------------------------------------------------------

/// A key/value row as plain text.
pub struct KeyValueView {
    pub key: Seq<char>,
    pub value: Seq<char>,
    pub enabled: bool,
}

/// An authentication setting as plain text.
pub enum AuthView {
    NoAuth,
    Bearer { token: Seq<char> },
    Basic { username: Seq<char>, password: Seq<char> },
    ApiKey { key: Seq<char>, value: Seq<char>, add_to: ApiKeyLocation },
}

/// A request body as plain text.
pub enum BodyView {
    NoBody,
    Json { content: Seq<char> },
    Raw { content: Seq<char>, content_type: Seq<char> },
    FormUrlEncoded { items: Seq<KeyValueView> },
    FormData { items: Seq<KeyValueView> },
}

/// A request definition as plain text.
pub struct RequestView {
    pub id: Seq<char>,
    pub name: Seq<char>,
    pub method: Seq<char>,
    pub url: Seq<char>,
    pub params: Seq<KeyValueView>,
    pub headers: Seq<KeyValueView>,
    pub auth: AuthView,
    pub body: BodyView,
}

/// A variable as plain text.
pub struct EnvVarView {
    pub key: Seq<char>,
    pub value: Seq<char>,
    pub secret: bool,
    pub enabled: bool,
}

/// The views of a sequence of rows.
pub open spec fn kv_views(v: Seq<KeyValueItem>) -> Seq<KeyValueView> {
    v.map_values(|i: KeyValueItem| i@)
}

/// The views of a sequence of variables.
pub open spec fn var_views(v: Seq<EnvVar>) -> Seq<EnvVarView> {
    v.map_values(|i: EnvVar| i@)
}

/// The views of a sequence of strings.
pub open spec fn text_views(v: Seq<String>) -> Seq<Seq<char>> {
    v.map_values(|s: String| s@)
}

// ---------------------------------------------------------------------
// Types
// ---------------------------------------------------------------------

/// One key/value row (query parameter, header or form field). A row with
/// `enabled == false` is kept but takes no part in the request.
#[derive(Debug, Clone)]
pub struct KeyValueItem {
    pub key: String,
    pub value: String,
    pub enabled: bool,
}

impl View for KeyValueItem {
    type V = KeyValueView;

    open spec fn view(&self) -> KeyValueView {
        KeyValueView { key: self.key@, value: self.value@, enabled: self.enabled }
    }
}

impl Default for KeyValueItem {
    fn default() -> (r: Self)
        ensures
            r@ == (KeyValueView { key: Seq::empty(), value: Seq::empty(), enabled: false }),
    {
        KeyValueItem { key: String::new(), value: String::new(), enabled: false }
    }
}

/// Where an API key travels.
#[derive(Debug, Clone, Copy, PartialEq, Eq, Structural)]
pub enum ApiKeyLocation {
    Header,
    Query,
}

/// How a request authenticates.
#[derive(Debug, Clone)]
pub enum AuthConfig {
    /// No authentication.
    NoAuth,
    Bearer { token: String },
    Basic { username: String, password: String },
    ApiKey { key: String, value: String, add_to: ApiKeyLocation },
}

impl View for AuthConfig {
    type V = AuthView;

    open spec fn view(&self) -> AuthView {
        match self {
            AuthConfig::NoAuth => AuthView::NoAuth,
            AuthConfig::Bearer { token } => AuthView::Bearer { token: token@ },
            AuthConfig::Basic { username, password } => AuthView::Basic {
                username: username@,
                password: password@,
            },
            AuthConfig::ApiKey { key, value, add_to } => AuthView::ApiKey {
                key: key@,
                value: value@,
                add_to: *add_to,
            },
        }
    }
}

impl Default for AuthConfig {
    fn default() -> (r: Self)
        ensures
            r@ == AuthView::NoAuth,
    {
        AuthConfig::NoAuth
    }
}

/// The body of a request. Form data carries text fields only.
#[derive(Debug, Clone)]
pub enum RequestBody {
    /// No body.
    NoBody,
    Json { content: String },
    /// XML, plain text and the like; `content_type` is sent as Content-Type.
    Raw { content: String, content_type: String },
    FormUrlEncoded { items: Vec<KeyValueItem> },
    FormData { items: Vec<KeyValueItem> },
}

impl View for RequestBody {
    type V = BodyView;

    open spec fn view(&self) -> BodyView {
        match self {
            RequestBody::NoBody => BodyView::NoBody,
            RequestBody::Json { content } => BodyView::Json { content: content@ },
            RequestBody::Raw { content, content_type } => BodyView::Raw {
                content: content@,
                content_type: content_type@,
            },
            RequestBody::FormUrlEncoded { items } => BodyView::FormUrlEncoded {
                items: kv_views(items@),
            },
            RequestBody::FormData { items } => BodyView::FormData { items: kv_views(items@) },
        }
    }
}

impl Default for RequestBody {
    fn default() -> (r: Self)
        ensures
            r@ == BodyView::NoBody,
    {
        RequestBody::NoBody
    }
}

/// `true`, the default of the `enabled` flags.
pub fn default_true() -> (b: bool)
    ensures
        b,
{
    true
}

/// The default HTTP method.
pub fn default_method() -> (r: String)
    ensures
        r@ == "GET"@,
{
    String::from_str("GET")
}

/// The default content type of a raw body.
pub fn default_raw_content_type() -> (r: String)
    ensures
        r@ == "text/plain"@,
{
    String::from_str("text/plain")
}

/// The full definition of one request.
#[derive(Debug, Clone)]
pub struct RequestDef {
    pub id: String,
    pub name: String,
    pub method: String,
    pub url: String,
    pub params: Vec<KeyValueItem>,
    pub headers: Vec<KeyValueItem>,
    pub auth: AuthConfig,
    pub body: RequestBody,
}

impl View for RequestDef {
    type V = RequestView;

    open spec fn view(&self) -> RequestView {
        RequestView {
            id: self.id@,
            name: self.name@,
            method: self.method@,
            url: self.url@,
            params: kv_views(self.params@),
            headers: kv_views(self.headers@),
            auth: self.auth@,
            body: self.body@,
        }
    }
}

impl RequestDef {
    /// A new GET request with no URL, rows, authentication or body.
    pub fn new(id: String, name: String) -> (r: Self)
        ensures
            r@ == (RequestView {
                id: id@,
                name: name@,
                method: "GET"@,
                url: Seq::empty(),
                params: Seq::empty(),
                headers: Seq::empty(),
                auth: AuthView::NoAuth,
                body: BodyView::NoBody,
            }),
    {
        let r = RequestDef {
            id,
            name,
            method: default_method(),
            url: String::new(),
            params: Vec::new(),
            headers: Vec::new(),
            auth: AuthConfig::NoAuth,
            body: RequestBody::NoBody,
        };
        assert(kv_views(r.params@) == Seq::<KeyValueView>::empty());
        r
    }
}

/// A node of the request tree; `folder` is the path below `requests/`.
#[derive(Debug, Clone)]
pub struct RequestSummary {
    pub id: String,
    pub name: String,
    pub method: String,
    pub folder: Vec<String>,
}

/// A collection's own settings and collection-level variables.
#[derive(Debug, Clone)]
pub struct HttpCollectionMeta {
    pub name: String,
    pub description: Option<String>,
    pub auth: AuthConfig,
    pub variables: Vec<EnvVar>,
}

impl Default for HttpCollectionMeta {
    fn default() -> (r: Self)
        ensures
            r.name@ == Seq::<char>::empty(),
            r.description is None,
            r.auth@ == AuthView::NoAuth,
            r.variables@.len() == 0,
    {
        HttpCollectionMeta {
            name: String::new(),
            description: None,
            auth: AuthConfig::NoAuth,
            variables: Vec::new(),
        }
    }
}

/// A collection as listed.
#[derive(Debug, Clone)]
pub struct HttpCollectionSummary {
    pub slug: String,
    pub name: String,
    pub description: Option<String>,
    pub request_count: usize,
}

/// One variable of an environment, a collection or the global scope.
#[derive(Debug, Clone)]
pub struct EnvVar {
    pub key: String,
    pub value: String,
    pub secret: bool,
    pub enabled: bool,
}

impl View for EnvVar {
    type V = EnvVarView;

    open spec fn view(&self) -> EnvVarView {
        EnvVarView {
            key: self.key@,
            value: self.value@,
            secret: self.secret,
            enabled: self.enabled,
        }
    }
}

/// A named set of variables.
#[derive(Debug, Clone)]
pub struct EnvironmentDef {
    pub id: String,
    pub name: String,
    pub variables: Vec<EnvVar>,
}

impl EnvironmentDef {
    /// A new environment without variables.
    pub fn new(id: String, name: String) -> (r: Self)
        ensures
            r.id@ == id@,
            r.name@ == name@,
            r.variables@.len() == 0,
    {
        EnvironmentDef { id, name, variables: Vec::new() }
    }
}

/// What sending a request gave back.
#[derive(Debug, Clone)]
pub struct HttpExecuteResult {
    pub status: u16,
    pub status_text: String,
    pub headers: Vec<(String, String)>,
    /// The body decoded as UTF-8; empty when `body_is_text` is false, and
    /// the body is then in `body_base64`.
    pub body: String,
    pub body_is_text: bool,
    pub body_base64: Option<String>,
    pub duration_ms: u64,
    pub size_bytes: u64,
    /// The final URL after interpolation.
    pub resolved_url: String,
    pub truncated: bool,
}

/// One line of the request history.
#[derive(Debug, Clone)]
pub struct HttpRequestHistoryEntry {
    pub id: String,
    pub workspace_id: String,
    pub collection_slug: String,
    pub request_id: Option<String>,
    pub environment_id: Option<String>,
    pub method: String,
    pub url: String,
    pub status_code: Option<i64>,
    pub duration_ms: Option<i64>,
    pub response_size_bytes: Option<i64>,
    pub error_message: Option<String>,
    pub created_at: String,
}

/// The snapshots behind one history line.
#[derive(Debug, Clone)]
pub struct HttpRequestHistoryDetail {
    pub id: String,
    pub request_snapshot: String,
    pub response_snapshot: Option<String>,
}

/// An open tab of the workspace.
#[derive(Debug, Clone)]
pub struct HttpWorkspaceTab {
    pub id: String,
    pub workspace_id: String,
    pub collection_slug: String,
    pub request_id: String,
    pub title: String,
    pub sort_order: i64,
    pub updated_at: String,
}

} // verus!
