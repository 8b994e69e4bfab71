//! Protocol-neutral identifiers and classifications shared by every module.
use vstd::prelude::*;
use crate::text::hex_wide;

verus! {

/// Stable, globally unique identifier for any resource (requests,
/// collections, environments). It holds the 128 bits of a UUID.
#[derive(Debug, Clone, Copy, PartialEq, Eq, Structural, Hash)]
pub struct ResourceId(pub u128);

/// The bits of a random (version 4) UUID of the RFC 4122 variant: the
/// version field holds 4 and the two top variant bits hold `10`.
pub open spec fn random_uuid_shape(bits: u128) -> bool {
    (bits >> 76u128) & 0xfu128 == 4 && (bits >> 62u128) & 0x3u128 == 2
}

/// Draws a random version-4 UUID with `uuid::Uuid::new_v4` and returns its
/// 128 bits. The crate masks in the version (4) and the RFC 4122 variant;
/// of the other bits nothing is claimed: they are random.
#[verifier::external_body]
pub(crate) fn random_uuid_bits() -> (r: u128)
    ensures
        random_uuid_shape(r),
{
    uuid::Uuid::new_v4().as_u128()
}

/// Seconds since the Unix epoch, from `chrono::Utc::now().timestamp()`.
/// Nothing is claimed of the value: it is the time.
#[verifier::external_body]
pub(crate) fn unix_timestamp() -> i64 {
    chrono::Utc::now().timestamp()
}

/// Renders 128 bits as a hyphenated lowercase UUID with `uuid::Uuid::from_u128`
/// and `to_string`: the groups of hexadecimal digits that `uuid_text`
/// spells out; 36 characters, as the crate documents for the hyphenated form.
/// `uuid::Uuid::parse_str` reads the hyphenated form back to the same bits.
#[verifier::external_body]
pub(crate) fn uuid_string(bits: u128) -> (s: String)
    ensures
        s@ == uuid_text(bits),
        s@.len() == 36,
        uuid_parse(s@) == Some(bits),
{
    uuid::Uuid::from_u128(bits).to_string()
}

/// The hyphenated rendering of 128 bits: lowercase hexadecimal digits in
/// groups of 8, 4, 4, 4 and 12, from the most significant bits down,
/// joined by hyphens.
pub closed spec fn uuid_text(bits: u128) -> Seq<char> {
    hex_wide((bits >> 96u128) as nat, 8) + "-"@ + hex_wide(((bits >> 80u128) & 0xffffu128) as nat, 4) + "-"@
        + hex_wide(((bits >> 64u128) & 0xffffu128) as nat, 4) + "-"@ + hex_wide(
        ((bits >> 48u128) & 0xffffu128) as nat,
        4,
    ) + "-"@ + hex_wide((bits & 0xffff_ffff_ffffu128) as nat, 12)
}

/// The bits of the UUID that `uuid::Uuid::parse_str` reads in a text, if any.
pub uninterp spec fn uuid_parse(text: Seq<char>) -> Option<u128>;

#[verifier::external_type_specification]
#[verifier::external_body]
pub struct ExUuidError(uuid::Error);

/// Parses a UUID with `uuid::Uuid::parse_str`; the bits are named `uuid_parse`.
#[verifier::external_body]
fn parse_uuid(text: &str) -> (r: Result<u128, uuid::Error>)
    ensures
        match r {
            Ok(bits) => uuid_parse(text@) == Some(bits),
            Err(_) => uuid_parse(text@) is None,
        },
{
    uuid::Uuid::parse_str(text).map(|u| u.as_u128())
}

impl ResourceId {
    /// Generates a new random identifier: a version-4 UUID.
    pub fn new() -> (r: Self)
        ensures
            random_uuid_shape(r.0),
    {
        ResourceId(random_uuid_bits())
    }

    /// Creates an identifier from the 128 bits of an existing UUID.
    pub fn from_u128(bits: u128) -> (r: Self)
        ensures
            r.0 == bits,
    {
        ResourceId(bits)
    }

    /// The 128 bits of the underlying UUID.
    pub fn as_u128(&self) -> (r: u128)
        ensures
            r == self.0,
    {
        self.0
    }

    /// The hyphenated textual form of the identifier; parsing it gives the
    /// identifier back.
    pub fn to_uuid_string(&self) -> (s: String)
        ensures
            s@ == uuid_text(self.0),
            uuid_parse(s@) == Some(self.0),
    {
        uuid_string(self.0)
    }

    /// The hyphenated textual form of the identifier.
    pub fn to_string(&self) -> (s: String)
        ensures
            s@ == uuid_text(self.0),
            uuid_parse(s@) == Some(self.0),
    {
        uuid_string(self.0)
    }

    /// Reads an identifier from the textual forms of a UUID.
    pub fn parse(s: &str) -> (r: Result<Self, uuid::Error>)
        ensures
            match r {
                Ok(id) => uuid_parse(s@) == Some(id.0),
                Err(_) => uuid_parse(s@) is None,
            },
    {
        match parse_uuid(s) {
            Ok(bits) => Ok(ResourceId(bits)),
            Err(e) => Err(e),
        }
    }
}

/// Variable scope classification, from the widest scope to the narrowest,
/// plus the vault and the built-in dynamic variables.
#[derive(Debug, Clone, Copy, PartialEq, Eq, Structural, Hash)]
pub enum VariableScope {
    Global,
    Environment,
    Collection,
    Folder,
    Request,
    Iteration,
    Ephemeral,
    Vault,
    BuiltIn,
}


/// The protocol-specific part of a request.
#[derive(Debug, Clone, PartialEq)]
pub enum ProtocolRequest {
    Http(HttpRequestPayload),
    GraphQl(GraphQlRequestPayload),
    Grpc(GrpcRequestPayload),
    WebSocket(WebSocketRequestPayload),
    SocketIo(SocketIoRequestPayload),
    Mqtt(MqttRequestPayload),
    Mcp(McpRequestPayload),
    Ai(AiRequestPayload),
    Soap(SoapRequestPayload),
}

#[derive(Debug, Clone, PartialEq, Eq)]
pub struct HttpRequestPayload {
    pub method: String,
    pub url: String,
}

#[derive(Debug, Clone, PartialEq, Eq, Default)]
pub struct GraphQlRequestPayload {
    pub endpoint: String,
    pub query: String,
    pub operation_name: Option<String>,
    pub variables: Option<String>,
}

#[derive(Debug, Clone, PartialEq, Eq, Default)]
pub struct GrpcRequestPayload {
    pub service: String,
    pub method: String,
    pub payload_json: String,
}

#[derive(Debug, Clone, PartialEq, Eq, Default)]
pub struct WebSocketRequestPayload {
    pub url: String,
}

#[derive(Debug, Clone, PartialEq, Eq, Default)]
pub struct SocketIoRequestPayload {
    pub url: String,
    pub event_name: String,
}

#[derive(Debug, Clone, PartialEq, Eq, Default)]
pub struct MqttRequestPayload {
    pub broker_url: String,
    pub topic: String,
}

#[derive(Debug, Clone, PartialEq, Eq, Default)]
pub struct McpRequestPayload {
    pub server_command: String,
    pub tool_name: String,
    pub arguments_json: String,
}

#[derive(Debug, Clone, PartialEq, Eq, Default)]
pub struct AiRequestPayload {
    pub provider: String,
    pub model: String,
    pub prompt: String,
}

#[derive(Debug, Clone, PartialEq, Eq, Default)]
pub struct SoapRequestPayload {
    pub endpoint: String,
    pub soap_action: Option<String>,
    pub xml_envelope: String,
}

/// How a request authenticates; `NoAuth` sends no credentials and
/// `Inherit` takes the folder's or collection's choice.
#[derive(Debug, Clone, PartialEq, Eq, Default)]
pub enum AuthConfig {
    #[default]
    Inherit,
    NoAuth,
    Basic { username: String, password_secret_ref: Option<String> },
    Bearer { token_secret_ref: String },
    ApiKey { key: String, value_secret_ref: String, location: ApiKeyLocation },
    OAuth2 { flow: String, token_secret_ref: Option<String> },
}

#[derive(Debug, Clone, Copy, PartialEq, Eq, Structural, Default)]
pub enum ApiKeyLocation {
    #[default]
    Header,
    Query,
    Cookie,
}

#[derive(Debug, Clone, PartialEq, Eq, Default)]
pub struct RequestScripts {
    pub pre_request: Option<String>,
    pub post_response: Option<String>,
}

#[derive(Debug, Clone, Copy, PartialEq, Eq, Structural)]
pub struct RequestSettings {
    pub follow_redirects: bool,
    pub max_redirects: u32,
    pub verify_ssl: bool,
    pub timeout_ms: u64,
}

impl Default for RequestSettings {
    /// Follow up to ten redirects, verify certificates, 30 s timeout.
    fn default() -> (r: Self)
        ensures
            r == (RequestSettings {
                follow_redirects: true,
                max_redirects: 10,
                verify_ssl: true,
                timeout_ms: 30000,
            }),
    {
        RequestSettings { follow_redirects: true, max_redirects: 10, verify_ssl: true, timeout_ms: 30000 }
    }
}

#[derive(Debug, Clone, PartialEq, Eq)]
pub struct ResponseExampleRef {
    pub id: ResourceId,
    pub name: String,
    pub status_code: u16,
}

/// A variable as stored in a workspace file.
#[derive(Debug, Clone, PartialEq, Eq)]
pub struct VariableEntry {
    pub key: String,
    pub value: String,
    pub is_secret: bool,
    pub enabled: bool,
    pub value_type: VariableType,
    pub description: Option<String>,
}

impl VariableEntry {
    /// An enabled, public string variable.
    pub fn new(key: &str, value: &str) -> (r: Self)
        ensures
            r.key@ == key@,
            r.value@ == value@,
            !r.is_secret,
            r.enabled,
            r.value_type == VariableType::String,
            r.description is None,
    {
        VariableEntry {
            key: key.to_owned(),
            value: value.to_owned(),
            is_secret: false,
            enabled: true,
            value_type: VariableType::String,
            description: None,
        }
    }

    /// An enabled, secret string variable.
    pub fn secret(key: &str, value: &str) -> (r: Self)
        ensures
            r.key@ == key@,
            r.value@ == value@,
            r.is_secret,
            r.enabled,
            r.value_type == VariableType::String,
            r.description is None,
    {
        VariableEntry {
            key: key.to_owned(),
            value: value.to_owned(),
            is_secret: true,
            enabled: true,
            value_type: VariableType::String,
            description: None,
        }
    }

    pub fn copy(&self) -> (r: Self)
        ensures
            r == *self,
    {
        VariableEntry {
            key: self.key.clone(),
            value: self.value.clone(),
            is_secret: self.is_secret,
            enabled: self.enabled,
            value_type: self.value_type,
            description: copy_opt_string(&self.description),
        }
    }
}


/// The kind of value an environment variable holds.
#[derive(Debug, Clone, Copy, PartialEq, Eq, Structural, Default)]
pub enum VariableType {
    #[default]
    String,
    Number,
    Boolean,
    Json,
    SecretReference,
}

// ---------------------------------------------------------------------------
// Request documents
// ---------------------------------------------------------------------------

/// The top-level protocol-neutral document representing an executable
/// request. Times are seconds since the Unix epoch.
#[derive(Debug, Clone, PartialEq)]
pub struct RequestDocument {
    pub id: ResourceId,
    pub name: String,
    pub description: Option<String>,
    pub tags: Vec<String>,
    pub protocol: ProtocolRequest,
    pub auth: AuthConfig,
    pub scripts: RequestScripts,
    pub settings: RequestSettings,
    pub examples: Vec<ResponseExampleRef>,
    pub created_at: i64,
    pub updated_at: i64,
}

pub ghost struct RequestDocumentView {
    pub id: ResourceId,
    pub name: Seq<char>,
    pub description: Option<String>,
    pub tags: Seq<String>,
    pub protocol: ProtocolRequest,
    pub auth: AuthConfig,
    pub scripts: RequestScripts,
    pub settings: RequestSettings,
    pub examples: Seq<ResponseExampleRef>,
    pub created_at: i64,
    pub updated_at: i64,
}

impl View for RequestDocument {
    type V = RequestDocumentView;

    open spec fn view(&self) -> RequestDocumentView {
        RequestDocumentView {
            id: self.id,
            name: self.name@,
            description: self.description,
            tags: self.tags@,
            protocol: self.protocol,
            auth: self.auth,
            scripts: self.scripts,
            settings: self.settings,
            examples: self.examples@,
            created_at: self.created_at,
            updated_at: self.updated_at,
        }
    }
}

pub fn copy_opt_string(o: &Option<String>) -> (r: Option<String>)
    ensures
        r == *o,
{
    match o {
        Some(s) => Some(s.clone()),
        None => None,
    }
}

pub fn copy_strings(v: &Vec<String>) -> (r: Vec<String>)
    ensures
        r@ == v@,
{
    let mut r: Vec<String> = Vec::new();
    let mut i: usize = 0;
    while i < v.len()
        invariant
            i <= v.len(),
            r@ == v@.take(i as int),
        decreases v.len() - i,
    {
        r.push(v[i].clone());
        assert(v@.take(i + 1) =~= v@.take(i as int).push(v@[i as int]));
        i = i + 1;
    }
    assert(v@.take(i as int) =~= v@);
    r
}

impl ResponseExampleRef {
    pub fn copy(&self) -> (r: Self)
        ensures
            r == *self,
    {
        ResponseExampleRef { id: self.id, name: self.name.clone(), status_code: self.status_code }
    }
}

fn copy_examples(v: &Vec<ResponseExampleRef>) -> (r: Vec<ResponseExampleRef>)
    ensures
        r@ == v@,
{
    let mut r: Vec<ResponseExampleRef> = Vec::new();
    let mut i: usize = 0;
    while i < v.len()
        invariant
            i <= v.len(),
            r@ == v@.take(i as int),
        decreases v.len() - i,
    {
        r.push(v[i].copy());
        assert(v@.take(i + 1) =~= v@.take(i as int).push(v@[i as int]));
        i = i + 1;
    }
    assert(v@.take(i as int) =~= v@);
    r
}

impl ProtocolRequest {
    pub fn copy(&self) -> (r: Self)
        ensures
            r == *self,
    {
        match self {
            ProtocolRequest::Http(p) => ProtocolRequest::Http(
                HttpRequestPayload { method: p.method.clone(), url: p.url.clone() },
            ),
            ProtocolRequest::GraphQl(p) => ProtocolRequest::GraphQl(
                GraphQlRequestPayload {
                    endpoint: p.endpoint.clone(),
                    query: p.query.clone(),
                    operation_name: copy_opt_string(&p.operation_name),
                    variables: copy_opt_string(&p.variables),
                },
            ),
            ProtocolRequest::Grpc(p) => ProtocolRequest::Grpc(
                GrpcRequestPayload {
                    service: p.service.clone(),
                    method: p.method.clone(),
                    payload_json: p.payload_json.clone(),
                },
            ),
            ProtocolRequest::WebSocket(p) => ProtocolRequest::WebSocket(
                WebSocketRequestPayload { url: p.url.clone() },
            ),
            ProtocolRequest::SocketIo(p) => ProtocolRequest::SocketIo(
                SocketIoRequestPayload { url: p.url.clone(), event_name: p.event_name.clone() },
            ),
            ProtocolRequest::Mqtt(p) => ProtocolRequest::Mqtt(
                MqttRequestPayload { broker_url: p.broker_url.clone(), topic: p.topic.clone() },
            ),
            ProtocolRequest::Mcp(p) => ProtocolRequest::Mcp(
                McpRequestPayload {
                    server_command: p.server_command.clone(),
                    tool_name: p.tool_name.clone(),
                    arguments_json: p.arguments_json.clone(),
                },
            ),
            ProtocolRequest::Ai(p) => ProtocolRequest::Ai(
                AiRequestPayload {
                    provider: p.provider.clone(),
                    model: p.model.clone(),
                    prompt: p.prompt.clone(),
                },
            ),
            ProtocolRequest::Soap(p) => ProtocolRequest::Soap(
                SoapRequestPayload {
                    endpoint: p.endpoint.clone(),
                    soap_action: copy_opt_string(&p.soap_action),
                    xml_envelope: p.xml_envelope.clone(),
                },
            ),
        }
    }
}

impl AuthConfig {
    pub fn copy(&self) -> (r: Self)
        ensures
            r == *self,
    {
        match self {
            AuthConfig::Inherit => AuthConfig::Inherit,
            AuthConfig::NoAuth => AuthConfig::NoAuth,
            AuthConfig::Basic { username, password_secret_ref } => AuthConfig::Basic {
                username: username.clone(),
                password_secret_ref: copy_opt_string(password_secret_ref),
            },
            AuthConfig::Bearer { token_secret_ref } => AuthConfig::Bearer {
                token_secret_ref: token_secret_ref.clone(),
            },
            AuthConfig::ApiKey { key, value_secret_ref, location } => AuthConfig::ApiKey {
                key: key.clone(),
                value_secret_ref: value_secret_ref.clone(),
                location: *location,
            },
            AuthConfig::OAuth2 { flow, token_secret_ref } => AuthConfig::OAuth2 {
                flow: flow.clone(),
                token_secret_ref: copy_opt_string(token_secret_ref),
            },
        }
    }
}

impl RequestScripts {
    pub fn copy(&self) -> (r: Self)
        ensures
            r == *self,
    {
        RequestScripts {
            pre_request: copy_opt_string(&self.pre_request),
            post_response: copy_opt_string(&self.post_response),
        }
    }
}

impl RequestDocument {
    /// A new request with a fresh identifier, default auth, scripts and
    /// settings, no tags or examples, created and updated now.
    pub fn new(name: &str, protocol: ProtocolRequest) -> (r: Self)
        ensures
            r.name@ == name@,
            r.description is None,
            r.tags@.len() == 0,
            r.protocol == protocol,
            r.auth == AuthConfig::Inherit,
            r.scripts == (RequestScripts { pre_request: None, post_response: None }),
            r.settings == (RequestSettings {
                follow_redirects: true,
                max_redirects: 10,
                verify_ssl: true,
                timeout_ms: 30000,
            }),
            r.examples@.len() == 0,
            r.created_at == r.updated_at,
    {
        let now = unix_timestamp();
        RequestDocument {
            id: ResourceId::new(),
            name: name.to_owned(),
            description: None,
            tags: Vec::new(),
            protocol,
            auth: AuthConfig::Inherit,
            scripts: RequestScripts { pre_request: None, post_response: None },
            settings: RequestSettings::default(),
            examples: Vec::new(),
            created_at: now,
            updated_at: now,
        }
    }

    pub fn copy(&self) -> (r: Self)
        ensures
            r@ == self@,
    {
        RequestDocument {
            id: self.id,
            name: self.name.clone(),
            description: copy_opt_string(&self.description),
            tags: copy_strings(&self.tags),
            protocol: self.protocol.copy(),
            auth: self.auth.copy(),
            scripts: self.scripts.copy(),
            settings: self.settings,
            examples: copy_examples(&self.examples),
            created_at: self.created_at,
            updated_at: self.updated_at,
        }
    }
}

impl std::str::FromStr for ResourceId {
    type Err = uuid::Error;

    fn from_str(s: &str) -> (r: Result<Self, Self::Err>)
        ensures
            match r {
                Ok(id) => uuid_parse(s@) == Some(id.0),
                Err(_) => uuid_parse(s@) is None,
            },
    {
        ResourceId::parse(s)
    }
}

} // verus!
