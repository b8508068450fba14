//! Client of the vectorless service: its configuration, request headers
//! and endpoints, and the request and reply bodies. Sending the requests,
//! with an HTTP client built from the configured timeout and user agent,
//! is the caller's part.

use vstd::prelude::*;
use crate::text::{extend_str, str_chars, string_from};

verus! {

/// Errors of the service client.
pub enum SdkError {
    /// The HTTP request failed, with the reason.
    HttpError(String),
    /// The reply could not be read, with the reason.
    ParseError(String),
    /// The service answered with an error.
    ApiError(String),
    /// Document not found.
    DocumentNotFound(String),
    /// An argument was not accepted.
    InvalidInput(String),
    /// The service refused the credentials.
    AuthenticationFailed,
    /// The service is not available.
    ServiceUnavailable(String),
}

/// The message of a client error.
pub open spec fn sdk_error_message(e: SdkError) -> Seq<char> {
    match e {
        SdkError::HttpError(m) => "HTTP request failed: "@ + m@,
        SdkError::ParseError(m) => "Failed to parse response: "@ + m@,
        SdkError::ApiError(m) => "API error: "@ + m@,
        SdkError::DocumentNotFound(m) => "Document not found: "@ + m@,
        SdkError::InvalidInput(m) => "Invalid input: "@ + m@,
        SdkError::AuthenticationFailed => "Authentication failed"@,
        SdkError::ServiceUnavailable(m) => "Service unavailable: "@ + m@,
    }
}

impl SdkError {
    /// The error message.
    pub fn message(&self) -> (r: String)
        ensures
            r@ == sdk_error_message(*self),
    {
        let mut m: Vec<char> = Vec::new();
        match self {
            SdkError::HttpError(x) => {
                extend_str(&mut m, "HTTP request failed: ");
                extend_str(&mut m, x.as_str());
            },
            SdkError::ParseError(x) => {
                extend_str(&mut m, "Failed to parse response: ");
                extend_str(&mut m, x.as_str());
            },
            SdkError::ApiError(x) => {
                extend_str(&mut m, "API error: ");
                extend_str(&mut m, x.as_str());
            },
            SdkError::DocumentNotFound(x) => {
                extend_str(&mut m, "Document not found: ");
                extend_str(&mut m, x.as_str());
            },
            SdkError::InvalidInput(x) => {
                extend_str(&mut m, "Invalid input: ");
                extend_str(&mut m, x.as_str());
            },
            SdkError::AuthenticationFailed => extend_str(&mut m, "Authentication failed"),
            SdkError::ServiceUnavailable(x) => {
                extend_str(&mut m, "Service unavailable: ");
                extend_str(&mut m, x.as_str());
            },
        }
        assert(m@ =~= sdk_error_message(*self));
        string_from(&m)
    }
}

/// Configuration of the service client.
pub struct ClientConfig {
    /// Base URL of the service.
    pub base_url: String,
    /// API key, if any.
    pub api_key: Option<String>,
    /// Request timeout in seconds.
    pub timeout_secs: u64,
    /// User agent.
    pub user_agent: String,
}

/// Whether `c` is the default configuration: `http://localhost:8080`, no
/// key, 30 seconds, user agent `vectorless-sdk-rs/0.1.0`.
pub open spec fn is_default_client_config(c: ClientConfig) -> bool {
    &&& c.base_url@ == "http://localhost:8080"@
    &&& c.api_key is None
    &&& c.timeout_secs == 30
    &&& c.user_agent@ == "vectorless-sdk-rs/0.1.0"@
}

impl Default for ClientConfig {
    fn default() -> (r: ClientConfig)
        ensures
            is_default_client_config(r),
    {
        ClientConfig {
            base_url: string_from(&str_chars("http://localhost:8080")),
            api_key: None,
            timeout_secs: 30,
            user_agent: string_from(&str_chars("vectorless-sdk-rs/0.1.0")),
        }
    }
}

impl ClientConfig {
    /// A builder that starts from the default configuration.
    pub fn builder() -> (r: ClientConfigBuilder)
        ensures
            is_default_client_config(r.config),
    {
        ClientConfigBuilder::new()
    }
}

/// Builder of [`ClientConfig`].
pub struct ClientConfigBuilder {
    /// The configuration built so far.
    pub config: ClientConfig,
}

impl ClientConfigBuilder {
    /// A builder that starts from the default configuration.
    pub fn new() -> (r: ClientConfigBuilder)
        ensures
            is_default_client_config(r.config),
    {
        ClientConfigBuilder { config: ClientConfig::default() }
    }

    /// Sets the base URL.
    pub fn base_url(self, url: &str) -> (r: ClientConfigBuilder)
        ensures
            r.config.base_url@ == url@,
            r.config.api_key == self.config.api_key,
            r.config.timeout_secs == self.config.timeout_secs,
            r.config.user_agent == self.config.user_agent,
    {
        let mut b = self;
        b.config.base_url = string_from(&str_chars(url));
        b
    }

    /// Sets the API key.
    pub fn api_key(self, key: &str) -> (r: ClientConfigBuilder)
        ensures
            r.config.base_url == self.config.base_url,
            r.config.api_key matches Some(k) && k@ == key@,
            r.config.timeout_secs == self.config.timeout_secs,
            r.config.user_agent == self.config.user_agent,
    {
        let mut b = self;
        b.config.api_key = Some(string_from(&str_chars(key)));
        b
    }

    /// Sets the timeout in seconds.
    pub fn timeout(self, secs: u64) -> (r: ClientConfigBuilder)
        ensures
            r.config.base_url == self.config.base_url,
            r.config.api_key == self.config.api_key,
            r.config.timeout_secs == secs,
            r.config.user_agent == self.config.user_agent,
    {
        let mut b = self;
        b.config.timeout_secs = secs;
        b
    }

    /// The configuration.
    pub fn build(self) -> (r: ClientConfig)
        ensures
            r == self.config,
    {
        self.config
    }
}

/// Client of the service: where it sends requests and how it presents
/// itself.
pub struct Client {
    /// Base URL of the service.
    pub base_url: String,
    /// API key, if any.
    pub api_key: Option<String>,
    /// Request timeout in seconds.
    pub timeout_secs: u64,
    /// User agent.
    pub user_agent: String,
}

/// Whether every character may stand in an HTTP header value: visible
/// characters, spaces and tabs, no control characters.
pub open spec fn header_value_ok(s: Seq<char>) -> bool {
    forall|i: int| 0 <= i < s.len() ==> ((#[trigger] s[i]) as u32 >= 32 && s[i] != '\u{7f}') || s[i] == '\t'
}

/// The request headers as (name, value) pairs: the JSON content type, and
/// the API key under `x-api-key` when there is one that may stand in a
/// header.
pub open spec fn headers_of(api_key: Option<String>) -> Seq<(Seq<char>, Seq<char>)> {
    let base = seq![("content-type"@, "application/json"@)];
    match api_key {
        Some(k) => if header_value_ok(k@) {
            base.push(("x-api-key"@, k@))
        } else {
            base
        },
        None => base,
    }
}

/// The pairs as values.
pub open spec fn pair_views(v: Seq<(String, String)>) -> Seq<(Seq<char>, Seq<char>)> {
    v.map_values(|p: (String, String)| (p.0@, p.1@))
}

impl Client {
    /// A client for the configuration.
    pub fn new(config: ClientConfig) -> (r: Client)
        ensures
            r.base_url == config.base_url,
            r.api_key == config.api_key,
            r.timeout_secs == config.timeout_secs,
            r.user_agent == config.user_agent,
    {
        Client {
            base_url: config.base_url,
            api_key: config.api_key,
            timeout_secs: config.timeout_secs,
            user_agent: config.user_agent,
        }
    }

    /// A client for the default configuration.
    pub fn default() -> (r: Client)
        ensures
            is_default_client_config(
                ClientConfig {
                    base_url: r.base_url,
                    api_key: r.api_key,
                    timeout_secs: r.timeout_secs,
                    user_agent: r.user_agent,
                },
            ),
    {
        Client::new(ClientConfig::default())
    }

    /// The request headers (see [`headers_of`]).
    pub fn get_headers(&self) -> (r: Vec<(String, String)>)
        ensures
            pair_views(r@) == headers_of(self.api_key),
    {
        let mut out: Vec<(String, String)> = Vec::new();
        out.push((string_from(&str_chars("content-type")), string_from(&str_chars("application/json"))));
        let ghost base = pair_views(out@);
        assert(base =~= seq![("content-type"@, "application/json"@)]);
        if let Some(k) = &self.api_key {
            let v = str_chars(k.as_str());
            let mut ok = true;
            let mut i: usize = 0;
            while i < v.len()
                invariant
                    i <= v.len(),
                    ok == forall|j: int| 0 <= j < i ==> ((#[trigger] v@[j]) as u32 >= 32 && v@[j] != '\u{7f}') || v@[j] == '\t',
                decreases v.len() - i,
            {
                let c = v[i];
                if !((c as u32 >= 32 && c != '\u{7f}') || c == '\t') {
                    ok = false;
                }
                i = i + 1;
            }
            if ok {
                out.push((string_from(&str_chars("x-api-key")), k.clone()));
                assert(pair_views(out@) =~= base.push(("x-api-key"@, k@)));
            }
        }
        out
    }

    /// The URL of an endpoint: the base URL followed by `path`.
    pub fn endpoint(&self, path: &str) -> (r: String)
        ensures
            r@ == self.base_url@ + path@,
    {
        let mut m: Vec<char> = Vec::new();
        extend_str(&mut m, self.base_url.as_str());
        extend_str(&mut m, path);
        string_from(&m)
    }
}

/// Health reply.
pub struct HealthResponse {
    /// Service status, such as `"ok"`.
    pub status: String,
}

/// Request to create a document.
pub struct CreateDocumentRequest {
    /// Document title.
    pub title: String,
}

/// Request to upload a document's content.
pub struct UploadContentRequest {
    /// Content (text or base64).
    pub content: String,
}

/// Reply to an upload.
pub struct UploadContentResponse {
    /// Message.
    pub message: String,
    /// Bytes uploaded.
    pub bytes: usize,
}

/// Query request.
pub struct QueryRequest {
    /// Query text.
    pub query: String,
}

/// Reply to a deletion.
pub struct DeleteDocumentResponse {
    /// Message.
    pub message: String,
}

/// Error reply of the service.
pub struct ApiErrorResponse {
    /// Error message.
    pub error: String,
}

} // verus!
