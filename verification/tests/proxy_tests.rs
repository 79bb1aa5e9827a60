use http::header::{HeaderMap, HeaderValue};
use statiker::config::{Proxy, TimeSpan};
use statiker::proxy::{
    client_ip, first_listed, forward_parsed, proxy_forward, proxy_reply, proxy_route_path,
    strip_hop_by_hop, substitute_client_ip, template_client_ip, upstream_uri, ForwardError,
    ProxyState, UpstreamOutcome,
};

#[test]
fn test_proxy_state_new() {
    let proxy = Proxy {
        url: "https://example.com/".to_string(),
        timeout: TimeSpan::from_secs(10),
        add_headers: Vec::new(),
    };
    let state = ProxyState::new(proxy);
    assert_eq!(state.target, "https://example.com");
    assert_eq!(state.timeout, TimeSpan::from_secs(10));
}

#[test]
fn test_proxy_state_default_timeout() {
    let proxy = Proxy {
        url: "https://example.com".to_string(),
        timeout: TimeSpan::zero(),
        add_headers: Vec::new(),
    };
    let state = ProxyState::new(proxy);
    assert_eq!(state.timeout, TimeSpan::from_secs(5));
}

#[test]
fn test_proxy_state_trim_url() {
    let proxy = Proxy {
        url: "https://example.com/".to_string(),
        timeout: TimeSpan::from_secs(5),
        add_headers: Vec::new(),
    };
    let state = ProxyState::new(proxy);
    assert_eq!(state.target, "https://example.com");
}

#[test]
fn test_proxy_state_add_headers() {
    let mut headers = Vec::new();
    headers.push(("X-Custom-Header".to_string(), "value".to_string()));
    let proxy = Proxy {
        url: "https://example.com".to_string(),
        timeout: TimeSpan::from_secs(5),
        add_headers: headers,
    };
    let state = ProxyState::new(proxy);
    assert_eq!(state.add_headers.len(), 1);
}

#[test]
fn test_strip_hop_by_hop() {
    let mut headers = HeaderMap::new();
    headers.insert("connection", HeaderValue::from_static("keep-alive"));
    headers.insert("proxy-connection", HeaderValue::from_static("close"));
    headers.insert("content-type", HeaderValue::from_static("text/html"));
    headers.insert("transfer-encoding", HeaderValue::from_static("chunked"));
    strip_hop_by_hop(&mut headers);
    assert!(!headers.contains_key("connection"));
    assert!(!headers.contains_key("proxy-connection"));
    assert!(!headers.contains_key("transfer-encoding"));
    assert!(headers.contains_key("content-type"));
}

#[test]
fn test_client_ip_from_x_forwarded_for() {
    let mut headers = HeaderMap::new();
    headers.insert("x-forwarded-for", HeaderValue::from_static("192.168.1.1"));
    let ip = client_ip(&headers, None);
    assert_eq!(ip, Some("192.168.1.1".to_string()));
}

#[test]
fn test_client_ip_from_x_forwarded_for_multiple() {
    // client_ip returns the first address of the list
    let mut headers = HeaderMap::new();
    headers.insert("x-forwarded-for", HeaderValue::from_static("192.168.1.1, 10.0.0.1"));
    let ip = client_ip(&headers, None);
    assert_eq!(ip, Some("192.168.1.1".to_string()));
}

#[test]
fn test_client_ip_from_extensions() {
    let headers = HeaderMap::new();
    let ip = client_ip(&headers, Some("127.0.0.1"));
    assert_eq!(ip, Some("127.0.0.1".to_string()));
}

#[test]
fn test_client_ip_none() {
    let headers = HeaderMap::new();
    let ip = client_ip(&headers, None);
    assert_eq!(ip, None);
}

#[test]
fn client_ip_prefers_the_header_and_gives_up_on_unreadable_text() {
    let mut headers = HeaderMap::new();
    headers.insert("X-Forwarded-For", HeaderValue::from_static("1.2.3.4"));
    assert_eq!(client_ip(&headers, Some("9.9.9.9")), Some("1.2.3.4".to_string()));
    let mut odd = HeaderMap::new();
    odd.insert("x-forwarded-for", HeaderValue::from_bytes(b"caf\xc3\xa9").unwrap());
    assert_eq!(client_ip(&odd, Some("9.9.9.9")), None);
    assert_eq!(template_client_ip(&odd, Some("9.9.9.9")), "unknown");
    let mut two = HeaderMap::new();
    two.append("x-forwarded-for", HeaderValue::from_static("5.5.5.5"));
    two.append("x-forwarded-for", HeaderValue::from_static("6.6.6.6"));
    assert_eq!(client_ip(&two, None), Some("5.5.5.5".to_string()));
}

#[test]
fn strip_removes_all_seven_and_nothing_else() {
    let mut headers = HeaderMap::new();
    for name in ["Connection", "Proxy-Connection", "Keep-Alive", "Transfer-Encoding", "Upgrade", "TE", "Trailers"] {
        headers.append(name, HeaderValue::from_static("x"));
        headers.append(name, HeaderValue::from_static("y"));
    }
    headers.insert("host", HeaderValue::from_static("example.com"));
    headers.append("accept", HeaderValue::from_static("a"));
    headers.append("accept", HeaderValue::from_static("b"));
    headers.insert("trailer", HeaderValue::from_static("kept"));
    strip_hop_by_hop(&mut headers);
    for name in ["connection", "proxy-connection", "keep-alive", "transfer-encoding", "upgrade", "te", "trailers"] {
        assert!(!headers.contains_key(name), "{} is still there", name);
    }
    assert_eq!(headers.keys_len(), 3);
    assert_eq!(headers.get("host").unwrap(), "example.com");
    assert_eq!(headers.get_all("accept").iter().count(), 2);
    assert_eq!(headers.get("trailer").unwrap(), "kept");
}

#[test]
fn first_listed_address_is_trimmed() {
    assert_eq!(first_listed("203.0.113.5, 10.0.0.1"), "203.0.113.5");
    assert_eq!(first_listed("  203.0.113.5\t,10.0.0.1"), "203.0.113.5");
    assert_eq!(first_listed("203.0.113.5"), "203.0.113.5");
    assert_eq!(first_listed(""), "");
    assert_eq!(first_listed(",1.1.1.1"), "");
}

#[test]
fn template_ip_is_first_address_then_peer_then_unknown() {
    let mut headers = HeaderMap::new();
    headers.insert("x-forwarded-for", HeaderValue::from_static("203.0.113.5, 10.0.0.1"));
    assert_eq!(template_client_ip(&headers, Some("127.0.0.1")), "203.0.113.5");
    let empty = HeaderMap::new();
    assert_eq!(template_client_ip(&empty, Some("127.0.0.1")), "127.0.0.1");
    assert_eq!(template_client_ip(&empty, None), "unknown");
}

#[test]
fn substitution_replaces_every_placeholder() {
    assert_eq!(substitute_client_ip("{client_ip}", "1.2.3.4"), "1.2.3.4");
    assert_eq!(substitute_client_ip("for={client_ip};by={client_ip}", "::1"), "for=::1;by=::1");
    assert_eq!(substitute_client_ip("static", "1.2.3.4"), "static");
    assert_eq!(substitute_client_ip("{client_ip", "1.2.3.4"), "{client_ip");
    assert_eq!(substitute_client_ip("{{client_ip}}", "x"), "{x}");
    assert_eq!(substitute_client_ip("", "x"), "");
    for (t, ip) in [("a{client_ip}b", "{client_ip}"), ("{client_ip}{client_ip}", ""), ("{client_i{client_ip}", "z")] {
        assert_eq!(substitute_client_ip(t, ip), t.replace("{client_ip}", ip));
    }
}

#[test]
fn upstream_uri_joins_target_tail_and_query() {
    assert_eq!(upstream_uri("http://up:9000", "reports/", None), "http://up:9000/reports/");
    assert_eq!(upstream_uri("http://up:9000", "a/b", Some("x=1&y=2")), "http://up:9000/a/b?x=1&y=2");
    assert_eq!(upstream_uri("http://up", "", Some("")), "http://up/?");
}

#[test]
fn proxy_route_pattern_takes_the_rest_of_the_path() {
    assert_eq!(proxy_route_path("/api/"), "/api/*tail");
    assert_eq!(proxy_route_path("/api/*"), "/api/*tail");
    assert_eq!(proxy_route_path("/api/**"), "/api/*tail");
    assert_eq!(proxy_route_path("/"), "/*tail");
}

fn sample_state() -> ProxyState {
    ProxyState::new(Proxy {
        url: "http://upstream.test:9000/".to_string(),
        timeout: TimeSpan { secs: 2, nanos: 500 },
        add_headers: vec![
            ("X-Real-IP".to_string(), "{client_ip}".to_string()),
            ("bad name".to_string(), "dropped".to_string()),
            ("X-Bad-Value".to_string(), "line\nbreak".to_string()),
            ("Connection".to_string(), "upgrade".to_string()),
            ("X-Via".to_string(), "edge for {client_ip}".to_string()),
        ],
    })
}

#[test]
fn proxy_state_keeps_valid_names_in_lower_case() {
    let state = sample_state();
    assert_eq!(state.target, "http://upstream.test:9000");
    assert_eq!(state.timeout, TimeSpan { secs: 2, nanos: 500 });
    let names: Vec<&str> = state.add_headers.iter().map(|p| p.0.as_str()).collect();
    assert_eq!(names, vec!["x-real-ip", "x-bad-value", "connection", "x-via"]);
    assert_eq!(state.add_headers[3].1, "edge for {client_ip}");
}

#[test]
fn forward_sets_headers_and_strips_hop_by_hop() {
    let state = sample_state();
    let mut headers = HeaderMap::new();
    headers.insert("x-forwarded-for", HeaderValue::from_static("203.0.113.5, 10.0.0.1"));
    headers.insert("connection", HeaderValue::from_static("keep-alive"));
    headers.insert("keep-alive", HeaderValue::from_static("timeout=5"));
    headers.insert("te", HeaderValue::from_static("trailers"));
    headers.insert("x-real-ip", HeaderValue::from_static("spoofed"));
    headers.insert("accept", HeaderValue::from_static("*/*"));
    let plan = proxy_forward(&state, "reports/", Some("page=2"), &mut headers, Some("198.51.100.7")).unwrap();
    assert_eq!(plan.uri, "http://upstream.test:9000/reports/?page=2");
    assert_eq!(plan.timeout, TimeSpan { secs: 2, nanos: 500 });
    assert!(plan.complete);
    assert_eq!(headers.get("x-real-ip").unwrap(), "203.0.113.5");
    assert_eq!(headers.get_all("x-real-ip").iter().count(), 1);
    assert_eq!(headers.get("x-via").unwrap(), "edge for 203.0.113.5");
    assert!(!headers.contains_key("x-bad-value"));
    assert!(!headers.contains_key("connection"));
    assert!(!headers.contains_key("keep-alive"));
    assert!(!headers.contains_key("te"));
    assert_eq!(headers.get("accept").unwrap(), "*/*");
    assert_eq!(headers.get("x-forwarded-for").unwrap(), "203.0.113.5, 10.0.0.1");
}

#[test]
fn forward_uses_peer_or_unknown_without_forwarding_header() {
    let state = sample_state();
    let mut headers = HeaderMap::new();
    proxy_forward(&state, "", None, &mut headers, Some("198.51.100.7")).unwrap();
    assert_eq!(headers.get("x-real-ip").unwrap(), "198.51.100.7");
    let mut headers = HeaderMap::new();
    proxy_forward(&state, "", None, &mut headers, None).unwrap();
    assert_eq!(headers.get("x-real-ip").unwrap(), "unknown");
}

#[test]
fn forward_refuses_a_malformed_uri_and_leaves_headers_alone() {
    let state = ProxyState::new(Proxy {
        url: "http://bad host".to_string(),
        timeout: TimeSpan::zero(),
        add_headers: vec![("x-a".to_string(), "b".to_string())],
    });
    let mut headers = HeaderMap::new();
    headers.insert("connection", HeaderValue::from_static("close"));
    let r = proxy_forward(&state, "x", None, &mut headers, None);
    assert_eq!(r.err(), Some(ForwardError::MalformedUri));
    assert_eq!(ForwardError::MalformedUri.status(), 502);
    assert_eq!(headers.keys_len(), 1);
    assert!(headers.contains_key("connection"));
    assert!(!headers.contains_key("x-a"));
}

#[test]
fn forward_parsed_goes_by_the_verdict_it_is_given() {
    let state = sample_state();
    let mut headers = HeaderMap::new();
    let r = forward_parsed(&state, "anything".to_string(), false, &mut headers, None);
    assert_eq!(r.err(), Some(ForwardError::MalformedUri));
    assert!(headers.is_empty());
    let r = forward_parsed(&state, "anything".to_string(), true, &mut headers, None).unwrap();
    assert_eq!(r.uri, "anything");
    assert_eq!(headers.get("x-via").unwrap(), "edge for unknown");
}

fn filled(n: usize) -> HeaderMap {
    let mut headers = HeaderMap::new();
    for i in 0..n {
        headers.insert(
            http::header::HeaderName::from_bytes(format!("x-fill-{}", i).as_bytes()).unwrap(),
            HeaderValue::from_static("v"),
        );
    }
    headers
}

#[test]
fn forward_is_complete_while_the_map_has_room() {
    let state = sample_state();
    let mut headers = filled(6550);
    headers.insert("te", HeaderValue::from_static("trailers"));
    let plan = proxy_forward(&state, "x", None, &mut headers, None).unwrap();
    assert!(plan.complete);
    assert_eq!(headers.get("x-real-ip").unwrap(), "unknown");
    assert_eq!(headers.get("x-via").unwrap(), "edge for unknown");
    assert!(!headers.contains_key("te"));
    assert_eq!(headers.keys_len(), 6552);
}

#[test]
fn forward_goes_on_when_the_map_takes_no_more() {
    let state = sample_state();
    let mut headers = filled(24575);
    headers.insert("connection", HeaderValue::from_static("close"));
    assert_eq!(headers.keys_len(), 24576);
    let plan = proxy_forward(&state, "x", Some("q=1"), &mut headers, Some("198.51.100.7")).unwrap();
    assert_eq!(plan.uri, "http://upstream.test:9000/x?q=1");
    assert!(!plan.complete);
    assert!(!headers.contains_key("x-real-ip"));
    assert!(!headers.contains_key("x-via"));
    assert!(!headers.contains_key("connection"));
    assert_eq!(headers.keys_len(), 24575);
    assert_eq!(headers.get("x-fill-0").unwrap(), "v");
}

#[test]
fn reply_passes_the_answer_on_and_turns_failures_into_502() {
    let mut headers = HeaderMap::new();
    headers.insert("content-type", HeaderValue::from_static("text/plain"));
    headers.insert("transfer-encoding", HeaderValue::from_static("chunked"));
    headers.insert("upgrade", HeaderValue::from_static("h2c"));
    assert_eq!(proxy_reply(UpstreamOutcome::Answered(404), &mut headers), 404);
    assert!(headers.contains_key("content-type"));
    assert!(!headers.contains_key("transfer-encoding"));
    assert!(!headers.contains_key("upgrade"));
    let mut none = HeaderMap::new();
    assert_eq!(proxy_reply(UpstreamOutcome::TimedOut, &mut none), 502);
    assert_eq!(proxy_reply(UpstreamOutcome::Failed, &mut none), 502);
    assert_eq!(proxy_reply(UpstreamOutcome::Answered(200), &mut none), 200);
}
