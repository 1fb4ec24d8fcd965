use llm_gateway::dispatch::{backend_failure, is_success_status, prepare_forward, ChatMessage, ChatRequest};
use llm_gateway::error::{error_body, GatewayError};
use llm_gateway::registry::{BackendRegistry, ConfigError};
use llm_gateway::translate::{events_of_text, is_white_space_char, translate_chunk};

fn registry() -> BackendRegistry {
    BackendRegistry::from_entries(vec![("modelA".to_string(), "http://host1".to_string())]).unwrap()
}

fn request(model: &str, stream: Option<bool>) -> ChatRequest {
    ChatRequest {
        model: model.to_string(),
        messages: vec![ChatMessage {
            role: "user".to_string(),
            content: "hi".to_string(),
            name: None,
            tool_calls: None,
            tool_call_id: None,
        }],
        max_tokens: None,
        temperature: None,
        top_p: None,
        presence_penalty: None,
        frequency_penalty: None,
        stop: None,
        stream,
    }
}

fn chunk(s: &str) -> Result<Vec<u8>, String> {
    Ok(s.as_bytes().to_vec())
}

#[test]
fn routes_known_model_and_relays_two_events() {
    let f = prepare_forward(&registry(), request("modelA", None)).ok().unwrap();
    assert_eq!(f.url, "http://host1/v1/chat/completions");
    assert_eq!(f.request.stream, Some(true));
    assert_eq!(f.request.model, "modelA");
    assert_eq!(f.request.messages.len(), 1);
    assert_eq!(f.request.messages[0].role, "user");
    assert_eq!(f.request.messages[0].content, "hi");
    let mut events = translate_chunk(chunk("data: hello\n\n"));
    events.extend(translate_chunk(chunk("data: world\n\n")));
    assert_eq!(events, vec!["hello".to_string(), "world".to_string()]);
}

#[test]
fn unknown_model_gives_400_and_message() {
    let e = prepare_forward(&registry(), request("unknown", None)).err().unwrap();
    assert_eq!(e, GatewayError::ModelNotFound("unknown".to_string()));
    assert_eq!(e.status(), 400);
    assert_eq!(e.message(), "Model 'unknown' not found in gateway configuration.");
    assert_eq!(
        e.body(),
        "{\"error\":\"Model 'unknown' not found in gateway configuration.\"}"
    );
}

#[test]
fn model_lookup_is_case_sensitive() {
    let e = prepare_forward(&registry(), request("modela", None)).err().unwrap();
    assert_eq!(e, GatewayError::ModelNotFound("modela".to_string()));
}

#[test]
fn stream_flag_forced_on() {
    for s in [None, Some(false), Some(true)] {
        let f = prepare_forward(&registry(), request("modelA", s)).ok().unwrap();
        assert_eq!(f.request.stream, Some(true));
    }
}

#[test]
fn generation_parameters_are_kept() {
    let mut r = request("modelA", Some(false));
    r.max_tokens = Some(64);
    r.temperature = Some(serde_json::Value::from(0.5));
    r.stop = Some(serde_json::Value::from("END"));
    let f = prepare_forward(&registry(), r).ok().unwrap();
    assert_eq!(f.request.max_tokens, Some(64));
    assert_eq!(f.request.temperature, Some(serde_json::Value::from(0.5)));
    assert_eq!(f.request.stop, Some(serde_json::Value::from("END")));
}

#[test]
fn resolve_picks_the_right_backend() {
    let reg = BackendRegistry::from_entries(vec![
        ("a".to_string(), "http://one".to_string()),
        ("b".to_string(), "http://two".to_string()),
    ])
    .unwrap();
    assert_eq!(reg.resolve(&"b".to_string()).ok().unwrap(), "http://two");
    assert_eq!(reg.resolve(&"a".to_string()).ok().unwrap(), "http://one");
    assert_eq!(
        reg.resolve(&"c".to_string()).err().unwrap(),
        GatewayError::ModelNotFound("c".to_string())
    );
}

#[test]
fn registry_rejects_empty_model_id() {
    let r = BackendRegistry::from_entries(vec![("".to_string(), "http://x".to_string())]);
    assert_eq!(r.err().unwrap(), ConfigError::EmptyModelId);
}

#[test]
fn registry_rejects_duplicate_model_id() {
    let r = BackendRegistry::from_entries(vec![
        ("m".to_string(), "http://x".to_string()),
        ("n".to_string(), "http://y".to_string()),
        ("m".to_string(), "http://z".to_string()),
    ]);
    assert_eq!(r.err().unwrap(), ConfigError::DuplicateModelId("m".to_string()));
}

#[test]
fn empty_registry_knows_no_model() {
    let reg = BackendRegistry::from_entries(vec![]).unwrap();
    assert!(reg.resolve(&"modelA".to_string()).is_err());
}

#[test]
fn backend_failure_passes_status_and_text() {
    let e = backend_failure(503, Some("overloaded".to_string()), "http://h/v1/chat/completions".to_string());
    assert_eq!(e.status(), 503);
    assert_eq!(e.message(), "Upstream service error: overloaded");
    assert!(e.message().contains("overloaded"));
    assert_eq!(e.body(), "{\"error\":\"Upstream service error: overloaded\"}");
}

#[test]
fn backend_failure_without_body_uses_placeholder() {
    let e = backend_failure(404, None, "u".to_string());
    assert_eq!(
        e,
        GatewayError::BackendError { status: 404, text: "No response body".to_string(), url: "u".to_string() }
    );
    assert_eq!(e.message(), "Upstream service error: No response body");
}

#[test]
fn unreachable_backend_gives_502() {
    let e = GatewayError::BackendUnreachable("connection refused".to_string());
    assert_eq!(e.status(), 502);
    assert_eq!(e.message(), "Upstream request failed: connection refused");
}

#[test]
fn success_class_is_2xx() {
    assert!(is_success_status(200));
    assert!(is_success_status(204));
    assert!(is_success_status(299));
    assert!(!is_success_status(199));
    assert!(!is_success_status(300));
    assert!(!is_success_status(500));
}

#[test]
fn body_escapes_the_message() {
    let e = GatewayError::ModelNotFound("a\"b\\c".to_string());
    assert_eq!(
        e.body(),
        "{\"error\":\"Model 'a\\\"b\\\\c' not found in gateway configuration.\"}"
    );
}

#[test]
fn error_body_frames_quoted_text() {
    assert_eq!(error_body("\"x\""), "{\"error\":\"x\"}");
}

#[test]
fn line_split_across_chunks_is_read_per_chunk() {
    let first = translate_chunk(chunk("data: {\"a\":"));
    let second = translate_chunk(chunk("1}\n\n"));
    assert_eq!(first, vec!["{\"a\":".to_string()]);
    assert!(second.is_empty());
    let a = translate_chunk(chunk("da"));
    let b = translate_chunk(chunk("ta: {\"a\":1}\n\n"));
    assert!(a.is_empty());
    assert!(b.is_empty());
    assert_eq!(translate_chunk(chunk("data: {\"a\":1}\n\n")), vec!["{\"a\":1}".to_string()]);
}

#[test]
fn non_data_lines_are_dropped() {
    let text = "\n: keep-alive\nevent: message\nid: 7\nretry: 10\ndata:nospace\n  data: indented\n\n";
    assert!(translate_chunk(chunk(text)).is_empty());
    assert!(events_of_text("").is_empty());
    assert!(events_of_text("\n\n\n").is_empty());
}

#[test]
fn several_lines_keep_their_order() {
    let text = "data: one\n: note\ndata: two\r\ndata:   three  \n";
    assert_eq!(
        events_of_text(text),
        vec!["one".to_string(), "two".to_string(), "three".to_string()]
    );
}

#[test]
fn last_line_without_line_feed_counts() {
    assert_eq!(events_of_text("data: tail"), vec!["tail".to_string()]);
    assert_eq!(events_of_text("data: "), vec!["".to_string()]);
}

#[test]
fn payload_is_trimmed_of_unicode_whitespace() {
    assert_eq!(events_of_text("data: \u{3000}x y\u{a0}\t\n"), vec!["x y".to_string()]);
    assert_eq!(events_of_text("data: [DONE]\n\n"), vec!["[DONE]".to_string()]);
    assert_eq!(events_of_text("data: h\u{e9}llo\n"), vec!["h\u{e9}llo".to_string()]);
}

#[test]
fn whitespace_set_matches_std() {
    for u in 0u32..0x3100 {
        if let Some(c) = char::from_u32(u) {
            assert_eq!(is_white_space_char(c), c.is_whitespace(), "{:x}", u);
        }
    }
}

#[test]
fn read_error_becomes_a_notice() {
    assert_eq!(
        translate_chunk(Err("boom".to_string())),
        vec!["[Gateway Error: Could not read chunk from backend: boom]".to_string()]
    );
}

#[test]
fn invalid_utf8_becomes_a_notice() {
    let events = translate_chunk(Ok(vec![b'd', 0xff, b'\n']));
    assert_eq!(events.len(), 1);
    let expected_detail = String::from_utf8(vec![b'd', 0xff, b'\n']).unwrap_err().to_string();
    assert_eq!(events[0], format!("[Gateway Error: Non-UTF8 data received: {}]", expected_detail));
}

#[test]
fn empty_chunk_yields_nothing() {
    assert!(translate_chunk(Ok(vec![])).is_empty());
}

#[test]
fn body_escapes_control_characters() {
    let e = GatewayError::BackendUnreachable("a\tb\nc\u{1}d\u{1f}\u{7f}\u{e9}".to_string());
    assert_eq!(
        e.body(),
        "{\"error\":\"Upstream request failed: a\\tb\\nc\\u0001d\\u001f\u{7f}\u{e9}\"}"
    );
}
