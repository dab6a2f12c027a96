use llm_relay::config::{Config, ProviderConfig};
use llm_relay::error::RelayError;
use llm_relay::proxy::{
    authorize_request, build_target_url, check_admission, client_request_id,
    connection_header_tokens, forward_headers, generated_request_id, plan_forward, proxy_step,
    redacted_proxy_uri, response_headers, should_drop_header, Header, ProxyAction, ProxyEvent,
    ProxyRequest, ProxyState, UpstreamRequest,
};

/// Runs the handling steps for a request; `slot_free` answers admission. Returns the outcome
/// and the actions taken.
fn handle(
    config: &Config,
    key: &str,
    request: &ProxyRequest,
    slot_free: bool,
) -> (Result<UpstreamRequest, RelayError>, Vec<&'static str>) {
    let mut state = ProxyState::Received;
    let mut event = ProxyEvent::Arrived;
    let mut actions = Vec::new();
    loop {
        let (next, action) = proxy_step(config, key, request, state, event);
        state = next;
        event = match action {
            ProxyAction::AcquireSlot => {
                actions.push("acquire");
                ProxyEvent::SlotResult(slot_free)
            }
            ProxyAction::MakeRequestId => {
                actions.push("request-id");
                ProxyEvent::RequestId("req-test".to_string())
            }
            ProxyAction::Forward(plan) => return (Ok(plan), actions),
            ProxyAction::Reject(error) => return (Err(error), actions),
        };
    }
}

fn proxy_request(key: &str, provider: &str, path: &str) -> ProxyRequest {
    ProxyRequest {
        api_key: key.to_string(),
        provider: provider.to_string(),
        path: path.to_string(),
        query: None,
        headers: Vec::new(),
    }
}

fn h(name: &str, value: &str) -> Header {
    (name.to_string(), value.as_bytes().to_vec())
}

fn names(headers: &[Header]) -> Vec<&str> {
    headers.iter().map(|(n, _)| n.as_str()).collect()
}

fn test_config(base_url: &str) -> Config {
    let mut config = Config::default();
    config.providers.insert(
        "openai".to_string(),
        ProviderConfig {
            base_url: base_url.to_string(),
            allow_private: true,
        },
    );
    config
}

#[test]
fn handling_steps_check_the_key_first() {
    let config = test_config("http://127.0.0.1:1");
    let (outcome, actions) = handle(
        &config,
        "test-relay-key",
        &proxy_request("wrong", "missing", ""),
        false,
    );
    assert!(matches!(outcome, Err(RelayError::Unauthorized)));
    assert!(actions.is_empty());

    let (outcome, actions) = handle(
        &config,
        "test-relay-key",
        &proxy_request("test-relay-key", "openai", "v1/chat/completions"),
        false,
    );
    assert!(matches!(
        outcome,
        Err(RelayError::TooManyRequests {
            retry_after_seconds: 1
        })
    ));
    assert_eq!(actions, vec!["acquire"]);

    let (outcome, actions) = handle(
        &config,
        "test-relay-key",
        &proxy_request("test-relay-key", "missing", "v1/chat/completions"),
        true,
    );
    assert!(matches!(outcome, Err(RelayError::UnknownProvider(_))));
    assert_eq!(actions, vec!["acquire", "request-id"]);

    let (outcome, _) = handle(
        &config,
        "test-relay-key",
        &proxy_request("test-relay-key", "openai", "v1/chat/completions"),
        true,
    );
    let plan = outcome.ok().unwrap();
    assert_eq!(plan.url, "http://127.0.0.1:1/v1/chat/completions");
    assert_eq!(names(&plan.headers), vec!["x-request-id"]);
}

#[test]
fn rejects_missing_or_invalid_api_key_before_forwarding() {
    assert!(matches!(
        authorize_request("openai", "test-relay-key"),
        Err(RelayError::Unauthorized)
    ));
    assert!(matches!(
        authorize_request("wrong", "test-relay-key"),
        Err(RelayError::Unauthorized)
    ));
    assert!(authorize_request("test-relay-key", "test-relay-key").is_ok());
    assert_eq!(RelayError::Unauthorized.status_code(), 401);
}

#[test]
fn rejects_unknown_provider() {
    let config = test_config("http://127.0.0.1:1");
    let e = plan_forward(&config, "missing", "v1/chat/completions", None, &[], "req")
        .err()
        .unwrap();
    assert!(matches!(&e, RelayError::UnknownProvider(p) if p == "missing"));
    assert_eq!(e.status_code(), 403);
}

#[test]
fn rejects_when_concurrency_limit_is_full() {
    let e = check_admission(false, 1).unwrap_err();
    assert_eq!(e.status_code(), 503);
    let response = e.error_response();
    assert_eq!(response.retry_after.as_deref(), Some("1"));
    assert_eq!(response.error, "too_many_requests");
    assert!(check_admission(true, 1).is_ok());
}

#[test]
fn forwards_request_headers_and_target() {
    let config = test_config("http://127.0.0.1:4000/");
    let headers = vec![
        h("authorization", "Bearer test"),
        h("x-api-key", "do-not-forward"),
        h("x-relay-api-key", "do-not-forward"),
        h("content-type", "application/json"),
        h("x-request-id", "req-test"),
        h("host", "relay.example"),
        h("content-length", "15"),
    ];
    let upstream = plan_forward(
        &config,
        "openai",
        "v1/chat/completions",
        Some("trace=1"),
        &headers,
        "req-test",
    )
    .ok()
    .unwrap();
    assert_eq!(upstream.url, "http://127.0.0.1:4000/v1/chat/completions?trace=1");
    assert_eq!(
        names(&upstream.headers),
        vec!["authorization", "content-type", "x-request-id"]
    );
    assert_eq!(upstream.headers[0].1, b"Bearer test".to_vec());
    assert_eq!(upstream.headers[2].1, b"req-test".to_vec());
}

#[test]
fn request_id_is_added_when_absent() {
    let out = forward_headers(&[h("accept", "*/*")], Some("req_1"));
    assert_eq!(names(&out), vec!["accept", "x-request-id"]);
    assert_eq!(out[1].1, b"req_1".to_vec());
    let out = forward_headers(&[h("accept", "*/*")], Some("bad\nid"));
    assert_eq!(names(&out), vec!["accept"]);
}

#[test]
fn connection_listed_headers_are_dropped() {
    let headers = vec![
        h("connection", "keep-alive, X-Custom , ,bad token"),
        h("x-custom", "1"),
        h("keep-alive", "timeout=5"),
        h("te", "trailers"),
        h("accept", "text/event-stream"),
    ];
    let tokens = connection_header_tokens(&headers);
    assert_eq!(tokens, vec!["keep-alive".to_string(), "x-custom".to_string()]);
    assert!(should_drop_header("x-custom", &tokens));
    assert!(should_drop_header("upgrade", &tokens));
    assert!(!should_drop_header("accept", &tokens));
    let out = forward_headers(&headers, None);
    assert_eq!(names(&out), vec!["accept"]);
}

#[test]
fn non_text_connection_values_list_nothing() {
    let headers = vec![(String::from("connection"), vec![b'x', 0x01])];
    assert!(connection_header_tokens(&headers).is_empty());
}

#[test]
fn target_urls() {
    let p = ProviderConfig {
        base_url: "https://api.openai.com//".to_string(),
        allow_private: false,
    };
    assert_eq!(
        build_target_url(&p, "//v1/models", None).ok().unwrap(),
        "https://api.openai.com/v1/models"
    );
    assert!(matches!(
        build_target_url(&p, "///", None),
        Err(RelayError::InvalidPath)
    ));
    let broken = ProviderConfig {
        base_url: "https://bad host".to_string(),
        allow_private: false,
    };
    let e = build_target_url(&broken, "v1", None).err().unwrap();
    assert!(matches!(e, RelayError::InvalidTargetUrl(_)));
    assert_eq!(e.status_code(), 400);
}

#[test]
fn blank_paths_are_refused_first() {
    let config = test_config("http://127.0.0.1:1");
    let e = plan_forward(&config, "missing", "   ", None, &[], "r").err().unwrap();
    assert!(matches!(e, RelayError::InvalidPath));
    let e = plan_forward(&config, "openai", "/", None, &[], "r").err().unwrap();
    assert!(matches!(e, RelayError::InvalidPath));
}

#[test]
fn request_ids() {
    assert_eq!(
        client_request_id(&[h("x-request-id", "  abc  "), h("x-request-id", "def")]).unwrap(),
        "abc"
    );
    assert!(client_request_id(&[h("x-request-id", "   ")]).is_none());
    assert!(client_request_id(&[h("accept", "x")]).is_none());
    assert_eq!(generated_request_id(0x1f, 0), "req_1f_0");
    assert_eq!(generated_request_id(255, 4096), "req_ff_1000");
}

#[test]
fn response_headers_carry_the_request_id() {
    let upstream = vec![
        h("content-type", "text/event-stream"),
        h("x-request-id", "upstream-1"),
        h("transfer-encoding", "chunked"),
        h("x-request-id", "upstream-2"),
        h("x-seen", "1"),
    ];
    let out = response_headers(&upstream, "req-test");
    assert_eq!(names(&out), vec!["content-type", "x-request-id", "x-seen"]);
    assert_eq!(out[1].1, b"req-test".to_vec());
    let out = response_headers(&[h("a", "1")], "req-test");
    assert_eq!(names(&out), vec!["a", "x-request-id"]);
}

#[test]
fn redacted_uri_hides_the_key() {
    assert_eq!(
        redacted_proxy_uri("openai", "v1/chat", Some("a=1")),
        "/proxy/[redacted]/openai/v1/chat?a=1"
    );
    assert_eq!(redacted_proxy_uri("openai", "v1", None), "/proxy/[redacted]/openai/v1");
}

#[test]
fn relay_error_responses() {
    let cases: Vec<(RelayError, u16, &str, &str)> = vec![
        (
            RelayError::Unauthorized,
            401,
            "unauthorized",
            "missing or invalid relay API key in the proxy URL",
        ),
        (
            RelayError::UnknownProvider("x".into()),
            403,
            "unknown_provider",
            "provider is not allowed: x",
        ),
        (RelayError::InvalidPath, 400, "invalid_path", "proxy path is missing"),
        (
            RelayError::InvalidTargetUrl("e".into()),
            400,
            "invalid_target_url",
            "failed to build upstream URL: e",
        ),
        (
            RelayError::Upstream {
                timed_out: true,
                message: "t".into(),
            },
            504,
            "upstream_timeout",
            "upstream request failed: t",
        ),
        (
            RelayError::Upstream {
                timed_out: false,
                message: "c".into(),
            },
            502,
            "upstream_request_failed",
            "upstream request failed: c",
        ),
        (
            RelayError::ResponseBuild("b".into()),
            502,
            "response_build_failed",
            "failed to build response: b",
        ),
        (
            RelayError::TooManyRequests {
                retry_after_seconds: 30,
            },
            503,
            "too_many_requests",
            "too many in-flight requests",
        ),
    ];
    for (e, status, code, text) in cases {
        let r = e.error_response();
        assert_eq!(r.status, status);
        assert_eq!(r.error, code);
        assert_eq!(r.message, text);
        assert_eq!(e.error_code(), code);
        assert_eq!(e.to_string(), text);
        if status == 503 {
            assert_eq!(r.retry_after.as_deref(), Some("30"));
        } else {
            assert!(r.retry_after.is_none());
        }
    }
}
