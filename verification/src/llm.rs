//! Language-model clients as configuration: messages, roles, completions,
//! embedding options, and the endpoint, model and key of the OpenAI and
//! Z.AI clients. The HTTP exchange itself is the caller's part.

use vstd::prelude::*;
use crate::text::{extend_str, str_chars, string_from};

verus! {

/// The author of a chat message.
#[derive(Clone, Copy, Debug, PartialEq, Eq, Structural)]
pub enum Role {
    /// The user.
    User,
    /// The model.
    Assistant,
    /// The system.
    System,
}

/// The wire name of a role.
pub open spec fn role_name(r: Role) -> Seq<char> {
    match r {
        Role::User => "user"@,
        Role::Assistant => "assistant"@,
        Role::System => "system"@,
    }
}

impl Role {
    /// The wire name of the role: `"user"`, `"assistant"` or `"system"`.
    pub fn as_str(&self) -> (r: String)
        ensures
            r@ == role_name(*self),
    {
        let mut m: Vec<char> = Vec::new();
        match self {
            Role::User => extend_str(&mut m, "user"),
            Role::Assistant => extend_str(&mut m, "assistant"),
            Role::System => extend_str(&mut m, "system"),
        }
        string_from(&m)
    }
}

/// A chat message.
pub struct Message {
    /// Its author.
    pub role: Role,
    /// Its text.
    pub content: String,
}

impl Message {
    /// A message from the user.
    pub fn user(content: &str) -> (r: Message)
        ensures
            r.role == Role::User,
            r.content@ == content@,
    {
        Message { role: Role::User, content: string_from(&str_chars(content)) }
    }
}

/// A chat completion.
pub struct ChatCompletion {
    /// The text of the reply.
    pub content: String,
    /// Why the model stopped, if given.
    pub finish_reason: Option<String>,
}

/// Options of an embedding request.
pub struct EmbeddingOptions {
    /// Model, if not the default.
    pub model: Option<String>,
    /// Dimensions, if not the default.
    pub dimensions: Option<u32>,
}

impl Default for EmbeddingOptions {
    fn default() -> (r: EmbeddingOptions)
        ensures
            r.model is None,
            r.dimensions is None,
    {
        EmbeddingOptions { model: None, dimensions: None }
    }
}

/// The OpenAI API endpoint.
pub open spec fn openai_api_base() -> Seq<char> {
    "https://api.openai.com/v1"@
}

/// The Z.AI API endpoint.
pub open spec fn zai_api_base() -> Seq<char> {
    "https://api.z.ai/api/paas/v4"@
}

/// The Z.AI coding endpoint.
pub open spec fn zai_coding_base() -> Seq<char> {
    "https://api.z.ai/api/coding/paas/v4"@
}

/// Settings of an OpenAI-compatible chat client: API key, model and base
/// URL (requests time out after 120 seconds).
pub struct OpenAIClient {
    /// API key.
    pub api_key: String,
    /// Model.
    pub model: String,
    /// Base URL of the API.
    pub base_url: String,
}

impl OpenAIClient {
    /// A client for `gpt-4o` at the OpenAI endpoint.
    pub fn new(api_key: &str) -> (r: OpenAIClient)
        ensures
            r.api_key@ == api_key@,
            r.model@ == "gpt-4o"@,
            r.base_url@ == openai_api_base(),
    {
        OpenAIClient::with_options(api_key, "gpt-4o", "https://api.openai.com/v1")
    }

    /// A client for the given model at the OpenAI endpoint.
    pub fn with_model(api_key: &str, model: &str) -> (r: OpenAIClient)
        ensures
            r.api_key@ == api_key@,
            r.model@ == model@,
            r.base_url@ == openai_api_base(),
    {
        OpenAIClient::with_options(api_key, model, "https://api.openai.com/v1")
    }

    /// A client for `gpt-4o` at the given endpoint.
    pub fn with_endpoint(api_key: &str, endpoint: &str) -> (r: OpenAIClient)
        ensures
            r.api_key@ == api_key@,
            r.model@ == "gpt-4o"@,
            r.base_url@ == endpoint@,
    {
        OpenAIClient::with_options(api_key, "gpt-4o", endpoint)
    }

    /// A client with every setting given.
    pub fn with_options(api_key: &str, model: &str, endpoint: &str) -> (r: OpenAIClient)
        ensures
            r.api_key@ == api_key@,
            r.model@ == model@,
            r.base_url@ == endpoint@,
    {
        OpenAIClient {
            api_key: string_from(&str_chars(api_key)),
            model: string_from(&str_chars(model)),
            base_url: string_from(&str_chars(endpoint)),
        }
    }

    /// Sets the model.
    pub fn set_model(&mut self, model: &str)
        ensures
            final(self).model@ == model@,
            final(self).api_key == old(self).api_key,
            final(self).base_url == old(self).base_url,
    {
        self.model = string_from(&str_chars(model));
    }

    /// Sets the base URL.
    pub fn set_endpoint(&mut self, endpoint: &str)
        ensures
            final(self).base_url@ == endpoint@,
            final(self).api_key == old(self).api_key,
            final(self).model == old(self).model,
    {
        self.base_url = string_from(&str_chars(endpoint));
    }
}

/// Settings of a Z.AI chat client: API key, model and base URL.
pub struct ZaiClient {
    /// API key.
    pub api_key: String,
    /// Model.
    pub model: String,
    /// Base URL of the API.
    pub base_url: String,
}

impl ZaiClient {
    /// A client for `glm-5` at the Z.AI endpoint.
    pub fn new(api_key: &str) -> (r: ZaiClient)
        ensures
            r.api_key@ == api_key@,
            r.model@ == "glm-5"@,
            r.base_url@ == zai_api_base(),
    {
        ZaiClient::with_options(api_key, "glm-5", "https://api.z.ai/api/paas/v4")
    }

    /// A client for `glm-5` at the given endpoint.
    pub fn with_endpoint(api_key: &str, endpoint: &str) -> (r: ZaiClient)
        ensures
            r.api_key@ == api_key@,
            r.model@ == "glm-5"@,
            r.base_url@ == endpoint@,
    {
        ZaiClient::with_options(api_key, "glm-5", endpoint)
    }

    /// A client for the given model at the Z.AI endpoint.
    pub fn with_model(api_key: &str, model: &str) -> (r: ZaiClient)
        ensures
            r.api_key@ == api_key@,
            r.model@ == model@,
            r.base_url@ == zai_api_base(),
    {
        ZaiClient::with_options(api_key, model, "https://api.z.ai/api/paas/v4")
    }

    /// A client for `glm-5` at the Z.AI coding endpoint.
    pub fn for_coding(api_key: &str) -> (r: ZaiClient)
        ensures
            r.api_key@ == api_key@,
            r.model@ == "glm-5"@,
            r.base_url@ == zai_coding_base(),
    {
        ZaiClient::with_options(api_key, "glm-5", "https://api.z.ai/api/coding/paas/v4")
    }

    /// A client with every setting given.
    pub fn with_options(api_key: &str, model: &str, endpoint: &str) -> (r: ZaiClient)
        ensures
            r.api_key@ == api_key@,
            r.model@ == model@,
            r.base_url@ == endpoint@,
    {
        ZaiClient {
            api_key: string_from(&str_chars(api_key)),
            model: string_from(&str_chars(model)),
            base_url: string_from(&str_chars(endpoint)),
        }
    }

    /// Sets the model.
    pub fn set_model(&mut self, model: &str)
        ensures
            final(self).model@ == model@,
            final(self).api_key == old(self).api_key,
            final(self).base_url == old(self).base_url,
    {
        self.model = string_from(&str_chars(model));
    }

    /// Sets the base URL.
    pub fn set_endpoint(&mut self, endpoint: &str)
        ensures
            final(self).base_url@ == endpoint@,
            final(self).api_key == old(self).api_key,
            final(self).model == old(self).model,
    {
        self.base_url = string_from(&str_chars(endpoint));
    }
}


// ------------------------------------------------------------------
// Chat requests and replies
// ------------------------------------------------------------------

/// Errors of a chat request.
pub enum ChatError {
    /// The request failed, with the reason.
    RequestFailed(String),
    /// The reply could not be read, with the reason.
    InvalidResponse(String),
    /// The credentials were refused.
    AuthenticationFailed,
}

/// The message of a chat error.
pub open spec fn chat_error_message(e: ChatError) -> Seq<char> {
    match e {
        ChatError::RequestFailed(m) => "API request failed: "@ + m@,
        ChatError::InvalidResponse(m) => "Invalid response: "@ + m@,
        ChatError::AuthenticationFailed => "Authentication failed"@,
    }
}

impl ChatError {
    /// The error message.
    pub fn message(&self) -> (r: String)
        ensures
            r@ == chat_error_message(*self),
    {
        let mut m: Vec<char> = Vec::new();
        match self {
            ChatError::RequestFailed(x) => {
                extend_str(&mut m, "API request failed: ");
                extend_str(&mut m, x.as_str());
            },
            ChatError::InvalidResponse(x) => {
                extend_str(&mut m, "Invalid response: ");
                extend_str(&mut m, x.as_str());
            },
            ChatError::AuthenticationFailed => extend_str(&mut m, "Authentication failed"),
        }
        assert(m@ =~= chat_error_message(*self));
        string_from(&m)
    }
}

/// The chat completions URL under a base URL.
pub fn completions_url(base_url: &str) -> (r: String)
    ensures
        r@ == base_url@ + "/chat/completions"@,
{
    let mut m: Vec<char> = Vec::new();
    extend_str(&mut m, base_url);
    extend_str(&mut m, "/chat/completions");
    string_from(&m)
}

/// The `Authorization` header value for an API key.
pub fn bearer(api_key: &str) -> (r: String)
    ensures
        r@ == "Bearer "@ + api_key@,
{
    let mut m: Vec<char> = Vec::new();
    extend_str(&mut m, "Bearer ");
    extend_str(&mut m, api_key);
    string_from(&m)
}

/// The error of a reply whose status is not a success:
/// `"{provider} API error ({status}): {text}"`.
pub fn api_status_error(provider: &str, status: &str, text: &str) -> (r: ChatError)
    ensures
        r matches ChatError::RequestFailed(m) && m@ == provider@ + " API error ("@ + status@ + "): "@ + text@,
{
    let mut m: Vec<char> = Vec::new();
    extend_str(&mut m, provider);
    extend_str(&mut m, " API error (");
    extend_str(&mut m, status);
    extend_str(&mut m, "): ");
    extend_str(&mut m, text);
    ChatError::RequestFailed(string_from(&m))
}

/// The completion of a reply given its choices as (text, finish reason):
/// the first choice, or empty text and no reason when there is none.
pub fn completion_from_choices(choices: Vec<(String, Option<String>)>) -> (r: ChatCompletion)
    ensures
        choices@.len() == 0 ==> r.content@.len() == 0 && r.finish_reason is None,
        choices@.len() > 0 ==> r.content == choices@[0].0 && r.finish_reason == choices@[0].1,
{
    let mut choices = choices;
    if choices.len() == 0 {
        ChatCompletion { content: String::new(), finish_reason: None }
    } else {
        let (content, finish_reason) = choices.swap_remove(0);
        ChatCompletion { content, finish_reason }
    }
}

} // verus!
