use ideal_harness::network_proxy::{
    parse_request_head, route_request, ConnectRequest, ProxyPolicy, ProxyRoute, RequestHead,
    RequestKind, FORBIDDEN_RESPONSE, MAX_HEADER_BYTES,
};
use ideal_harness::protocol::Event;

fn request(head: &str) -> Result<ConnectRequest, String> {
    parse_request_head(&head.as_bytes().to_vec())
}

#[test]
fn default_denies_and_provider_policy_is_exact_case_insensitive() {
    assert!(!ProxyPolicy::deny_all().allows("api.openai.com"));
    let policy = ProxyPolicy::for_provider("API.OpenAI.COM").unwrap();
    assert!(policy.allows("api.openai.com"));
    assert!(!policy.allows("evil.api.openai.com"));
}

#[test]
fn wildcard_url_and_host_port_entries_are_rejected() {
    for invalid in ["*.example.com", "https://example.com", "example.com:443", ""] {
        assert!(ProxyPolicy::for_provider(invalid).is_err());
    }
}

#[test]
fn an_added_host_changes_nothing_for_the_others() {
    let mut policy = ProxyPolicy::for_provider("one.example").unwrap();
    policy.allow_host("Two.Example").unwrap();
    assert!(policy.allows("ONE.example"));
    assert!(policy.allows("two.example"));
    assert!(!policy.allows("three.example"));
    assert!(policy.allow_host("a b").is_err());
}

#[test]
fn deny_all_rejects_and_records_stable_audit_event() {
    let found =
        request("CONNECT blocked.example:443 HTTP/1.1\r\nHost: blocked.example\r\n\r\n").unwrap();
    match route_request(&ProxyPolicy::deny_all(), found) {
        ProxyRoute::Denied { event } => assert_eq!(
            event,
            Event::NetworkAccessDenied {
                host: "blocked.example".into(),
                port: 443,
                reason: "host_not_allowlisted".into(),
            }
        ),
        other => panic!("expected a denial, got {other:?}"),
    }
    assert!(FORBIDDEN_RESPONSE.starts_with("HTTP/1.1 403 Forbidden"));
}

#[test]
fn plain_http_get_to_allowlisted_host_is_forwarded() {
    let policy = ProxyPolicy::for_provider("127.0.0.1").unwrap();
    let found = request("GET http://127.0.0.1:8080/guide HTTP/1.1\r\n\r\n").unwrap();
    match route_request(&policy, found) {
        ProxyRoute::Open { request } => {
            assert_eq!(request.kind, RequestKind::PlainHttp);
            assert_eq!(request.host, "127.0.0.1");
            assert_eq!(request.port, 8080);
        }
        other => panic!("expected an open route, got {other:?}"),
    }
}

#[test]
fn plain_http_get_to_unlisted_host_is_denied_with_audit() {
    let policy = ProxyPolicy::for_provider("provider.example").unwrap();
    let found =
        request("GET http://unlisted.example/x HTTP/1.1\r\nHost: unlisted.example\r\n\r\n")
            .unwrap();
    assert_eq!(found.port, 80);
    assert!(matches!(route_request(&policy, found), ProxyRoute::Denied { .. }));
}

#[test]
fn non_get_connect_methods_are_rejected_without_upstream() {
    assert!(request("POST http://127.0.0.1/x HTTP/1.1\r\nContent-Length: 0\r\n\r\n").is_err());
}

#[test]
fn malformed_requests_are_refused() {
    for head in [
        "",
        "CONNECT\r\n\r\n",
        "CONNECT host HTTP/1.1\r\n\r\n",
        "CONNECT host:0 HTTP/1.1\r\n\r\n",
        "CONNECT host:70000 HTTP/1.1\r\n\r\n",
        "CONNECT host:443 HTTP/1.1 extra\r\n\r\n",
        "CONNECT user@host:443 HTTP/1.1\r\n\r\n",
        "GET http://user@host/x HTTP/1.1\r\n\r\n",
        "GET /x HTTP/1.1\r\n\r\n",
    ] {
        assert!(request(head).is_err(), "head={head:?}");
    }
    assert!(parse_request_head(&vec![b'G', 0xff, b'\r', b'\n']).is_err());
}

#[test]
fn a_head_is_read_up_to_its_empty_line() {
    let mut head = RequestHead::new();
    let bytes = b"CONNECT a.example:1 HTTP/1.1\r\n\r\n";
    for byte in bytes {
        assert!(head.wants_more());
        head.push(*byte);
    }
    assert!(!head.wants_more());
    assert_eq!(head.finish().unwrap(), bytes.to_vec());
}

#[test]
fn an_overlong_head_is_refused() {
    let mut head = RequestHead::new();
    while head.wants_more() {
        head.push(b'a');
    }
    assert!(head.finish().is_err());
    assert_eq!(MAX_HEADER_BYTES, 8192);
}
