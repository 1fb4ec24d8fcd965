use vstd::prelude::*;

use crate::error::GatewayError;
use crate::registry::BackendRegistry;

verus! {

#[verifier::external_type_specification]
#[verifier::external_body]
pub struct ExJsonValue(serde_json::Value);

/// One message of a chat conversation; every field is relayed untouched.
pub struct ChatMessage {
    pub role: String,
    pub content: String,
    pub name: Option<String>,
    pub tool_calls: Option<serde_json::Value>,
    pub tool_call_id: Option<String>,
}

/// A chat-completion request. The generation parameters are relayed as the
/// JSON values the client sent.
pub struct ChatRequest {
    pub model: String,
    pub messages: Vec<ChatMessage>,
    pub max_tokens: Option<u32>,
    pub temperature: Option<serde_json::Value>,
    pub top_p: Option<serde_json::Value>,
    pub presence_penalty: Option<serde_json::Value>,
    pub frequency_penalty: Option<serde_json::Value>,
    pub stop: Option<serde_json::Value>,
    pub stream: Option<bool>,
}

/// Where a request goes and what is sent there.
pub struct Forward {
    pub url: String,
    pub request: ChatRequest,
}

/// The chat-completion endpoint of the backend at `base`.
pub open spec fn completions_url(base: Seq<char>) -> Seq<char> {
    base + "/v1/chat/completions"@
}

/// `request` as it is sent upstream: streaming switched on, all else kept.
pub open spec fn streaming(request: ChatRequest) -> ChatRequest {
    ChatRequest { stream: Some(true), ..request }
}

/// Whatever streaming flag a request carries, the request sent upstream has
/// streaming switched on and carries the same model and messages.
pub proof fn forwarded_request_streams(request: ChatRequest)
    ensures
        streaming(request).stream == Some(true),
        streaming(request).model == request.model,
        streaming(request).messages == request.messages,
{
}

/// The status is in the success class 200 to 299.
pub open spec fn is_success(status: u16) -> bool {
    200 <= status && status <= 299
}

/// The response text recorded for a failed backend answer whose body could
/// (`Some`) or could not (`None`) be read.
pub open spec fn failure_text(body: Option<Seq<char>>) -> Seq<char> {
    match body {
        Some(t) => t,
        None => "No response body"@,
    }
}

/// Routes `request` by its model identifier: the backend's completion URL and
/// the request with streaming forced on, or `ModelNotFound` for a model that
/// the registry does not hold.
pub fn prepare_forward(registry: &BackendRegistry, request: ChatRequest) -> (r: Result<
    Forward,
    GatewayError,
>)
    requires
        registry.wf(),
    ensures
        registry@.contains_key(request.model@) <==> r is Ok,
        r matches Ok(f) ==> f.url@ == completions_url(registry@[request.model@]) && f.request
            == streaming(request),
        r matches Err(e) ==> e matches GatewayError::ModelNotFound(m) && m@ == request.model@,
{
    let mut request = request;
    match registry.resolve(&request.model) {
        Ok(base) => {
            let mut url = base;
            url.append("/v1/chat/completions");
            request.stream = Some(true);
            Ok(Forward { url, request })
        },
        Err(e) => Err(e),
    }
}

/// Whether a backend status counts as success (2xx).
pub fn is_success_status(status: u16) -> (r: bool)
    ensures
        r == is_success(status),
{
    200 <= status && status <= 299
}

/// The error for a backend that answered `url` with a failure status; `body`
/// is the response text where it could be read.
pub fn backend_failure(status: u16, body: Option<String>, url: String) -> (r: GatewayError)
    ensures
        r matches GatewayError::BackendError { status: s, text, url: u } && s == status && u
            == url && text@ == failure_text(
            match body {
                Some(t) => Some(t@),
                None => None,
            },
        ),
{
    let text = match body {
        Some(t) => t,
        None => String::from_str("No response body"),
    };
    GatewayError::BackendError { status, text, url }
}

} // verus!
