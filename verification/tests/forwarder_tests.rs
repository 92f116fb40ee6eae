use transparent_proxy::ProxyConfig;
use transparent_proxy::TransparentProxyService;
use transparent_proxy::forwarder::ForwardDecision;
use transparent_proxy::forwarder::HttpMethod;
use transparent_proxy::forwarder::InboundRequest;
use transparent_proxy::forwarder::ResponseMode;
use transparent_proxy::forwarder::SseRelay;
use transparent_proxy::forwarder::authenticate;
use transparent_proxy::forwarder::build_target_url;
use transparent_proxy::forwarder::classify_response;
use transparent_proxy::forwarder::failure_response;
use transparent_proxy::forwarder::forward_all;
use transparent_proxy::forwarder::plan_request;
use transparent_proxy::forwarder::response_for_rejection;
use transparent_proxy::forwarder::rewrite_headers;

fn config() -> ProxyConfig {
    ProxyConfig {
        target_api_key: "real-key".to_string(),
        target_base_url: "https://api.example.com/".to_string(),
        local_api_key: "local-key".to_string(),
    }
}

fn request(headers: Vec<(&str, &str)>, method: HttpMethod, body: &[u8]) -> InboundRequest {
    InboundRequest {
        method,
        path: "/v1/chat".to_string(),
        query: Some("x=1".to_string()),
        headers: headers
            .into_iter()
            .map(|(k, v)| (k.to_string(), v.to_string()))
            .collect(),
        body: body.to_vec(),
    }
}

#[test]
fn unauthorized_request_is_rejected_without_upstream() {
    // a wrong local credential: 401 and no outbound request exists at all
    let cfg = Some(config());
    let req = request(
        vec![("authorization", "Bearer wrong-key")],
        HttpMethod::Post,
        b"{}",
    );
    let d = plan_request(&cfg, &req);
    assert!(matches!(d, ForwardDecision::Unauthorized));
    let resp = response_for_rejection(&d).unwrap();
    assert_eq!(resp.0, 401);
    assert_eq!(resp.1, "Unauthorized: Invalid API Key");
}

#[test]
fn missing_credential_is_rejected() {
    let cfg = Some(config());
    let req = request(vec![("accept", "text/plain")], HttpMethod::Get, b"");
    let d = plan_request(&cfg, &req);
    assert!(matches!(d, ForwardDecision::Unauthorized));
}

#[test]
fn unconfigured_proxy_rejects_everything() {
    let req = request(
        vec![("authorization", "Bearer local-key")],
        HttpMethod::Get,
        b"",
    );
    let d = plan_request(&None, &req);
    assert!(matches!(d, ForwardDecision::NotConfigured));
    let resp = response_for_rejection(&d).unwrap();
    assert_eq!(resp.0, 503);
    assert_eq!(resp.1, "proxy not configured");
}

#[test]
fn authorized_request_carries_the_real_bearer() {
    // whatever credential came in, upstream sees exactly the real key
    let cfg = Some(config());
    let req = request(
        vec![
            ("Host", "127.0.0.1:8080"),
            ("x-api-key", "local-key"),
            ("accept", "text/event-stream"),
        ],
        HttpMethod::Post,
        b"{\"q\":1}",
    );
    let d = plan_request(&cfg, &req);
    let out = match d {
        ForwardDecision::Forward(o) => o,
        _ => panic!("expected a forward decision"),
    };
    let auth: Vec<&(String, String)> = out
        .headers
        .iter()
        .filter(|h| h.0.eq_ignore_ascii_case("authorization"))
        .collect();
    assert_eq!(auth.len(), 1);
    assert_eq!(auth[0].1, "Bearer real-key");
    assert!(!out.headers.iter().any(|h| h.0.eq_ignore_ascii_case("x-api-key")));
    assert!(!out.headers.iter().any(|h| h.0.eq_ignore_ascii_case("host")));
    assert!(out
        .headers
        .iter()
        .any(|h| h.0 == "accept" && h.1 == "text/event-stream"));
    assert_eq!(out.body.as_deref(), Some(&b"{\"q\":1}"[..]));
}

#[test]
fn bearer_injected_when_no_credential_header_came_in() {
    // empty local key: a request without credentials presents the empty
    // token, and the rewritten headers still gain the real bearer
    let cfg = ProxyConfig {
        target_api_key: "real-key".to_string(),
        target_base_url: "http://up".to_string(),
        local_api_key: "".to_string(),
    };
    let req = request(vec![("accept", "*/*")], HttpMethod::Get, b"");
    let d = plan_request(&Some(cfg), &req);
    let out = match d {
        ForwardDecision::Forward(o) => o,
        _ => panic!("expected a forward decision"),
    };
    assert!(out
        .headers
        .iter()
        .any(|h| h.0 == "authorization" && h.1 == "Bearer real-key"));
}

#[test]
fn target_url_has_no_double_slash() {
    // base with a trailing slash, path and query passed through verbatim
    let url = build_target_url(
        "https://api.example.com/",
        "/v1/chat",
        &Some("x=1".to_string()),
    );
    assert_eq!(url, "https://api.example.com/v1/chat?x=1");
}

#[test]
fn target_url_without_query() {
    let url = build_target_url("http://up", "/health", &None);
    assert_eq!(url, "http://up/health");
}

#[test]
fn token_extraction_strips_known_prefixes() {
    let local = "tok";
    let bearer = vec![("authorization".to_string(), "Bearer tok".to_string())];
    let xprefix = vec![("authorization".to_string(), "x-api-key tok".to_string())];
    let raw = vec![("x-api-key".to_string(), "tok".to_string())];
    assert!(authenticate(&bearer, local));
    assert!(authenticate(&xprefix, local));
    assert!(authenticate(&raw, local));
    let wrong = vec![("authorization".to_string(), "Bearer tokx".to_string())];
    assert!(!authenticate(&wrong, local));
}

#[test]
fn authorization_takes_precedence_over_x_api_key() {
    let headers = vec![
        ("x-api-key".to_string(), "tok".to_string()),
        ("Authorization".to_string(), "Bearer other".to_string()),
    ];
    // the authorization header wins even though x-api-key matches
    assert!(!authenticate(&headers, "tok"));
    assert!(authenticate(&headers, "other"));
}

#[test]
fn get_and_head_forward_no_body() {
    let cfg = Some(config());
    let get = plan_request(&cfg, &request(vec![("x-api-key", "local-key")], HttpMethod::Get, b"ignored"));
    match get {
        ForwardDecision::Forward(o) => assert!(o.body.is_none()),
        _ => panic!("expected a forward decision"),
    }
    let head = plan_request(&cfg, &request(vec![("x-api-key", "local-key")], HttpMethod::Head, b""));
    match head {
        ForwardDecision::Forward(o) => assert!(o.body.is_none()),
        _ => panic!("expected a forward decision"),
    }
    let empty_post = plan_request(&cfg, &request(vec![("x-api-key", "local-key")], HttpMethod::Post, b""));
    match empty_post {
        ForwardDecision::Forward(o) => assert!(o.body.is_none()),
        _ => panic!("expected a forward decision"),
    }
}

#[test]
fn sse_classification_is_by_content_type() {
    let sse = vec![(
        "Content-Type".to_string(),
        "text/event-stream; charset=utf-8".to_string(),
    )];
    assert_eq!(classify_response(&sse), ResponseMode::Streaming);
    let json = vec![("content-type".to_string(), "application/json".to_string())];
    assert_eq!(classify_response(&json), ResponseMode::Buffered);
    let none: Vec<(String, String)> = vec![];
    assert_eq!(classify_response(&none), ResponseMode::Buffered);
}

#[test]
fn sse_chunks_pass_through_one_to_one() {
    // N chunks in, exactly N frames out, same order and content
    let chunks: Vec<Vec<u8>> = vec![
        b"data: one\n\n".to_vec(),
        b"data: two\n\n".to_vec(),
        b"data: three\n\n".to_vec(),
    ];
    let frames = forward_all(&chunks);
    assert_eq!(frames.len(), 3);
    assert_eq!(frames, chunks);

    let mut relay = SseRelay::new();
    let frame = relay.forward_chunk(b"data: x\n\n".to_vec());
    assert_eq!(frame, b"data: x\n\n".to_vec());
}

#[test]
fn upstream_failure_maps_to_500() {
    let (status, body) = failure_response("connect timed out");
    assert_eq!(status, 500);
    assert_eq!(body, "proxy error: connect timed out");
}

#[test]
fn rewrite_keeps_order_and_other_headers() {
    let headers = vec![
        ("accept".to_string(), "*/*".to_string()),
        ("authorization".to_string(), "Bearer l".to_string()),
        ("x-request-id".to_string(), "42".to_string()),
    ];
    let out = rewrite_headers(&headers, "real");
    assert_eq!(
        out,
        vec![
            ("accept".to_string(), "*/*".to_string()),
            ("authorization".to_string(), "Bearer real".to_string()),
            ("x-request-id".to_string(), "42".to_string()),
        ]
    );
}

#[test]
fn server_lifecycle_guards_the_accept_loop() {
    let mut svc = TransparentProxyService::new(8080);
    assert!(!svc.is_running());
    assert!(svc.start(config()).is_ok());
    svc.confirm_started();
    assert!(svc.is_running());
    // a second start while running is refused, never a silent restart
    assert!(svc.start(config()).is_err());
    assert!(svc.stop().is_ok());
    assert!(!svc.is_running());
    assert!(svc.config_snapshot().is_none());
    // stop with nothing running is safe
    assert!(svc.stop().is_ok());
}

#[test]
fn update_config_mid_stream_keeps_old_snapshot() {
    // a request planned from the snapshot it captured at start keeps using
    // config A; a request that starts after the update sees config B
    let mut svc = TransparentProxyService::new(8080);
    let a = ProxyConfig {
        target_api_key: "key-a".to_string(),
        target_base_url: "http://a".to_string(),
        local_api_key: "local".to_string(),
    };
    let b = ProxyConfig {
        target_api_key: "key-b".to_string(),
        target_base_url: "http://b".to_string(),
        local_api_key: "local".to_string(),
    };
    svc.start(a).unwrap();
    svc.confirm_started();
    let snapshot_a = svc.config_snapshot();
    svc.update_config(b).unwrap();
    let snapshot_b = svc.config_snapshot();

    let req = request(vec![("x-api-key", "local")], HttpMethod::Post, b"{}");
    let in_flight = plan_request(&snapshot_a, &req);
    match in_flight {
        ForwardDecision::Forward(o) => {
            assert_eq!(o.url, "http://a/v1/chat?x=1");
            assert!(o.headers.iter().any(|h| h.1 == "Bearer key-a"));
        }
        _ => panic!("expected a forward decision"),
    }
    let fresh = plan_request(&snapshot_b, &req);
    match fresh {
        ForwardDecision::Forward(o) => {
            assert_eq!(o.url, "http://b/v1/chat?x=1");
            assert!(o.headers.iter().any(|h| h.1 == "Bearer key-b"));
        }
        _ => panic!("expected a forward decision"),
    }
}
