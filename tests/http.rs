use media_graph::http::{build_http_response, handle_command_http_request, parse_http_request, route_http_request, HttpRoute};
use media_graph::runtime::{command_endpoint_bind, command_probe_addr};

fn route(method: &str, path: &str) -> HttpRoute {
    route_http_request(&method.as_bytes().to_vec(), &path.as_bytes().to_vec())
}

#[test]
fn command_http_request_routes_to_command_handler() {
    let r = route("POST", "/command");
    assert_eq!(r, HttpRoute::Command);
    let (status, content_type, body) = handle_command_http_request(r, b"{\"id\":null,\"result\":\"success\"}".to_vec());
    assert_eq!(status, "200 OK");
    assert_eq!(content_type, "application/json");
    assert!(String::from_utf8(body).unwrap().contains("\"result\""));
}

#[test]
fn command_http_request_reports_404_for_unknown_path() {
    let (status, _, _) = handle_command_http_request(route("POST", "/unknown"), Vec::new());
    assert_eq!(status, "404 Not Found");
}

#[test]
fn command_http_request_supports_health_and_method_checks() {
    let (status, content_type, body) = handle_command_http_request(route("GET", "/health"), Vec::new());
    assert_eq!(status, "200 OK");
    assert_eq!(content_type, "application/json");
    assert_eq!(body, br#"{"status":"ok"}"#.to_vec());

    let (status, _, body) = handle_command_http_request(route("PUT", "/command"), Vec::new());
    assert_eq!(status, "405 Method Not Allowed");
    assert_eq!(body, br#"{"error":"method not allowed"}"#.to_vec());
}

#[test]
fn command_endpoint_bind_env_trims_and_filters_empty_values() {
    assert_eq!(command_endpoint_bind(None), None);
    assert_eq!(command_endpoint_bind(Some("   ".to_string())), None);
    assert_eq!(command_endpoint_bind(Some(" 127.0.0.1:8999 ".to_string())), Some("127.0.0.1:8999".to_string()));
}

#[test]
fn parse_http_request_parses_method_path_and_body() {
    let wire = b"POST /command HTTP/1.1\r\nHost: localhost\r\nContent-Length: 7\r\n\r\n{\"a\":1}".to_vec();
    let request = parse_http_request(&wire).unwrap();
    assert_eq!(request.method, b"POST".to_vec());
    assert_eq!(request.path, b"/command".to_vec());
    assert_eq!(request.body, b"{\"a\":1}".to_vec());
}

#[test]
fn parse_http_request_rejects_missing_header_terminator() {
    let wire = b"POST /command HTTP/1.1\r\nHost: localhost\r\nContent-Length: 2\r\n{}".to_vec();
    let err = parse_http_request(&wire).unwrap_err();
    assert!(err.contains("missing header terminator"));
}

#[test]
fn parse_http_request_rejects_oversized_content_length() {
    let wire = format!("POST /command HTTP/1.1\r\nHost: localhost\r\nContent-Length: {}\r\n\r\n", 1024 * 1024 + 1).into_bytes();
    let err = parse_http_request(&wire).unwrap_err();
    assert!(err.contains("body is too large"));
}

#[test]
fn content_length_name_is_case_insensitive_and_body_is_cut() {
    let wire = b"GET /health HTTP/1.1\r\ncOnTeNt-LeNgTh:  3 \r\n\r\nabcdef".to_vec();
    let request = parse_http_request(&wire).unwrap();
    assert_eq!(request.method, b"GET".to_vec());
    assert_eq!(request.body, b"abc".to_vec());
}

#[test]
fn missing_content_length_gives_empty_body() {
    let wire = b"GET /health HTTP/1.1\r\nHost: x\r\n\r\nrest".to_vec();
    assert!(parse_http_request(&wire).unwrap().body.is_empty());
}

#[test]
fn missing_path_is_rejected() {
    let wire = b"POST\r\n\r\n".to_vec();
    assert!(parse_http_request(&wire).unwrap_err().contains("missing path"));
}

#[test]
fn response_framing_carries_length() {
    let bytes = build_http_response("200 OK", "application/json", &b"{}".to_vec());
    assert_eq!(
        String::from_utf8(bytes).unwrap(),
        "HTTP/1.1 200 OK\r\nContent-Type: application/json\r\nContent-Length: 2\r\nConnection: close\r\n\r\n{}"
    );
}

#[test]
fn probe_address_maps_wildcards_to_loopback() {
    assert_eq!(command_probe_addr("0.0.0.0:8080"), "127.0.0.1:8080");
    assert_eq!(command_probe_addr("[::]:9000"), "[::1]:9000");
    assert_eq!(command_probe_addr("10.0.0.2:80"), "10.0.0.2:80");
}

#[test]
fn head_that_is_not_utf8_is_rejected() {
    let mut wire = b"POST /command HTTP/1.1\r\nX-Bad: ".to_vec();
    wire.push(0xff);
    wire.extend_from_slice(b"\r\n\r\n");
    assert!(parse_http_request(&wire).unwrap_err().contains("invalid UTF-8 headers"));
}

#[test]
fn empty_head_and_blank_request_line_are_rejected() {
    assert!(parse_http_request(&b"\r\n\r\n".to_vec()).unwrap_err().contains("missing request line"));
    assert!(parse_http_request(&b"   \r\nHost: x\r\n\r\n".to_vec()).unwrap_err().contains("missing method"));
}

#[test]
fn trimming_matches_std_on_unicode_white_space() {
    for text in ["\u{3000} a b\u{85}\t", "\u{a0}\u{2009}x\u{2028}", "   ", "", "plain", "\u{200b}kept\u{200b}"] {
        assert_eq!(media_graph::runtime::trim_text(text), text.trim());
    }
}

#[test]
fn head_validity_matches_std_utf8() {
    let samples: Vec<Vec<u8>> = vec![
        "é".as_bytes().to_vec(),
        "€".as_bytes().to_vec(),
        "😀".as_bytes().to_vec(),
        vec![0xc0, 0x80],
        vec![0xe0, 0x80, 0x80],
        vec![0xed, 0xa0, 0x80],
        vec![0xf4, 0x90, 0x80, 0x80],
        vec![0xf5, 0x80, 0x80, 0x80],
        vec![0xe2, 0x82],
        vec![0x80],
    ];
    for sample in samples {
        let mut wire = b"GET /health HTTP/1.1\r\nX: ".to_vec();
        wire.extend_from_slice(&sample);
        wire.extend_from_slice(b"\r\n\r\n");
        let head_ok = std::str::from_utf8(&wire).is_ok();
        assert_eq!(parse_http_request(&wire).is_ok(), head_ok, "sample {sample:?}");
    }
}
