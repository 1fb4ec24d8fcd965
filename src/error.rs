use vstd::prelude::*;

verus! {

/// Every failure that ends a request before its event stream starts.
#[derive(Debug, PartialEq, Eq)]
pub enum GatewayError {
    /// No backend is configured for the requested model; carries the model identifier.
    ModelNotFound(String),
    /// The backend could not be reached; carries the transport error text.
    BackendUnreachable(String),
    /// The backend answered with a failure status.
    BackendError { status: u16, text: String, url: String },
}

pub const STATUS_BAD_REQUEST: u16 = 400;

pub const STATUS_BAD_GATEWAY: u16 = 502;

/// HTTP status of the response that reports `e`.
pub open spec fn status_of(e: GatewayError) -> u16 {
    match e {
        GatewayError::ModelNotFound(_) => STATUS_BAD_REQUEST,
        GatewayError::BackendUnreachable(_) => STATUS_BAD_GATEWAY,
        GatewayError::BackendError { status, .. } => status,
    }
}

/// Human-readable message of the response that reports `e`.
pub open spec fn message_of(e: GatewayError) -> Seq<char> {
    match e {
        GatewayError::ModelNotFound(m) => "Model '"@ + m@ + "' not found in gateway configuration."@,
        GatewayError::BackendUnreachable(t) => "Upstream request failed: "@ + t@,
        GatewayError::BackendError { text, .. } => "Upstream service error: "@ + text@,
    }
}

/// `needle` occurs in `hay` as a contiguous run of characters.
pub open spec fn contains_text(hay: Seq<char>, needle: Seq<char>) -> bool {
    exists|i: int|
        0 <= i && i + needle.len() <= hay.len() && #[trigger] hay.subrange(i, i + needle.len())
            == needle
}

proof fn lemma_ends_with(head: Seq<char>, t: Seq<char>, tail: Seq<char>)
    ensures
        contains_text(head + t + tail, t),
{
    let s = head + t + tail;
    assert(s.subrange(head.len() as int, (head.len() + t.len()) as int) =~= t);
}

/// An unknown model is reported with status 400 and a message that names it.
pub proof fn unknown_model_response(model: String)
    ensures
        status_of(GatewayError::ModelNotFound(model)) == 400,
        contains_text(message_of(GatewayError::ModelNotFound(model)), model@),
{
    lemma_ends_with("Model '"@, model@, "' not found in gateway configuration."@);
}

/// A backend answer with a status outside 2xx reaches the client with that
/// same status, and the message carries the backend's response text.
pub proof fn backend_status_passes_through(status: u16, text: String, url: String)
    requires
        !(200 <= status && status <= 299),
    ensures
        status_of(GatewayError::BackendError { status, text, url }) == status,
        contains_text(message_of(GatewayError::BackendError { status, text, url }), text@),
{
    lemma_ends_with("Upstream service error: "@, text@, Seq::empty());
    assert("Upstream service error: "@ + text@ + Seq::<char>::empty() =~= "Upstream service error: "@
        + text@);
}

/// An unreachable backend is reported with status 502 and a message that
/// carries the transport error's text.
pub proof fn unreachable_backend_response(transport_error: String)
    ensures
        status_of(GatewayError::BackendUnreachable(transport_error)) == 502,
        contains_text(
            message_of(GatewayError::BackendUnreachable(transport_error)),
            transport_error@,
        ),
{
    lemma_ends_with("Upstream request failed: "@, transport_error@, Seq::empty());
    assert("Upstream request failed: "@ + transport_error@ + Seq::<char>::empty()
        =~= "Upstream request failed: "@ + transport_error@);
}

/// The JSON object with the single member `error`, given that member's
/// value already encoded as a JSON string.
pub open spec fn error_body_of(quoted: Seq<char>) -> Seq<char> {
    "{\"error\":"@ + quoted + "}"@
}

/// Lowercase hexadecimal digit of `n`, for `n < 16`.
pub open spec fn hex_digit(n: u32) -> char {
    "0123456789abcdef"@[n as int]
}

/// How one character is written inside a JSON string literal: quote and
/// backslash get a backslash; backspace, tab, line feed, form feed and carriage
/// return become `\b`, `\t`, `\n`, `\f`, `\r`; any other character below
/// U+0020 becomes `\u00xx` in lowercase hex; every other character is kept.
pub open spec fn json_escaped_char(c: char) -> Seq<char> {
    let u = c as u32;
    if c == '"' {
        seq!['\\', '"']
    } else if c == '\\' {
        seq!['\\', '\\']
    } else if u == 0x08 {
        seq!['\\', 'b']
    } else if u == 0x09 {
        seq!['\\', 't']
    } else if u == 0x0a {
        seq!['\\', 'n']
    } else if u == 0x0c {
        seq!['\\', 'f']
    } else if u == 0x0d {
        seq!['\\', 'r']
    } else if u < 0x20 {
        seq!['\\', 'u', '0', '0', hex_digit(u / 16), hex_digit(u % 16)]
    } else {
        seq![c]
    }
}

/// The characters of `s`, each written as inside a JSON string literal.
pub open spec fn json_escaped(s: Seq<char>) -> Seq<char>
    decreases s.len(),
{
    if s.len() == 0 {
        Seq::empty()
    } else {
        json_escaped(s.drop_last()) + json_escaped_char(s.last())
    }
}

/// `s` written as a JSON string literal: its escaped characters between quotes.
pub open spec fn json_string_of(s: Seq<char>) -> Seq<char> {
    seq!['"'] + json_escaped(s) + seq!['"']
}

/// Relies on serde_json::to_string applied to a string slice: it writes the
/// text as a JSON string literal into a byte vector, which cannot fail.
#[verifier::external_body]
fn json_string(s: &str) -> (r: String)
    ensures
        r@ == json_string_of(s@),
{
    serde_json::to_string(s).unwrap_or_default()
}

/// Frames an already encoded JSON string as the error body `{"error":<quoted>}`.
pub fn error_body(quoted: &str) -> (r: String)
    ensures
        r@ == error_body_of(quoted@),
{
    let mut r = String::from_str("{\"error\":");
    r.append(quoted);
    r.append("}");
    r
}

impl GatewayError {
    /// The status code of the response for this error: 400 for an unknown
    /// model, 502 for an unreachable backend, the backend's own status otherwise.
    pub fn status(&self) -> (r: u16)
        ensures
            r == status_of(*self),
    {
        match self {
            GatewayError::ModelNotFound(_) => STATUS_BAD_REQUEST,
            GatewayError::BackendUnreachable(_) => STATUS_BAD_GATEWAY,
            GatewayError::BackendError { status, .. } => *status,
        }
    }

    /// The message carried in the body of the response for this error.
    pub fn message(&self) -> (r: String)
        ensures
            r@ == message_of(*self),
    {
        match self {
            GatewayError::ModelNotFound(m) => {
                let mut r = String::from_str("Model '");
                r.append(m.as_str());
                r.append("' not found in gateway configuration.");
                r
            },
            GatewayError::BackendUnreachable(t) => {
                let mut r = String::from_str("Upstream request failed: ");
                r.append(t.as_str());
                r
            },
            GatewayError::BackendError { text, .. } => {
                let mut r = String::from_str("Upstream service error: ");
                r.append(text.as_str());
                r
            },
        }
    }

    /// The JSON body `{"error":"<message>"}` of the response for this error.
    pub fn body(&self) -> (r: String)
        ensures
            r@ == error_body_of(json_string_of(message_of(*self))),
    {
        let msg = self.message();
        let quoted = json_string(msg.as_str());
        error_body(quoted.as_str())
    }
}

} // verus!
