use ipecho::headers::Headers;
use ipecho::ip::IpAddress;
use ipecho::resolve::AppState;
use ipecho::response::{handle, home, index_page, raw, HtmlOrRaw, HttpResponse};

fn peer() -> IpAddress {
    IpAddress::V4(203, 0, 113, 5)
}

fn has(resp: &HttpResponse, name: &str, value: &str) -> bool {
    resp.headers.iter().any(|h| h.0 == name && h.1 == value)
}

#[test]
fn raw_route_returns_ip_line() {
    let state = AppState::new(None);
    let headers = Headers::new();
    let resp = handle(&state, peer(), &headers, b"/raw");
    assert_eq!(resp.status, 200);
    assert_eq!(resp.body, "203.0.113.5\n");
    assert!(has(&resp, "content-type", "text/plain; charset=utf-8"));
    assert!(has(&resp, "cache-control", "no-store"));
}

#[test]
fn raw_route_ignores_html_preference() {
    let state = AppState::new(None);
    let mut headers = Headers::new();
    headers.add(b"Accept".to_vec(), b"text/html".to_vec());
    let resp = handle(&state, peer(), &headers, b"/raw");
    assert_eq!(resp.status, 200);
    assert_eq!(resp.body, "203.0.113.5\n");
    assert!(has(&resp, "content-type", "text/plain; charset=utf-8"));
    assert!(!has(&resp, "content-type", "text/html; charset=utf-8"));
}

#[test]
fn root_route_negotiates_html() {
    let state = AppState::new(Some("X-Client-IP".to_string()));
    let mut headers = Headers::new();
    headers.add(b"X-Client-IP".to_vec(), b"2001:db8::1".to_vec());
    headers.add(b"Accept".to_vec(), b"text/html".to_vec());
    let resp = handle(&state, peer(), &headers, b"/");
    assert_eq!(resp.status, 200);
    assert_eq!(resp.body, index_page());
    assert!(has(&resp, "content-type", "text/html; charset=utf-8"));
}

#[test]
fn root_route_defaults_to_plain_text() {
    let state = AppState::new(None);
    let headers = Headers::new();
    let resp = handle(&state, peer(), &headers, b"/");
    assert_eq!(resp.status, 200);
    assert_eq!(resp.body, "203.0.113.5\n");
    assert!(has(&resp, "content-type", "text/plain; charset=utf-8"));
    assert!(has(&resp, "cache-control", "no-store"));
}

#[test]
fn root_route_plain_when_accept_is_plain() {
    let state = AppState::new(None);
    let mut headers = Headers::new();
    headers.add(b"Accept".to_vec(), b"text/plain".to_vec());
    let resp = handle(&state, peer(), &headers, b"/");
    assert_eq!(resp.status, 200);
    assert_eq!(resp.body, "203.0.113.5\n");
}

#[test]
fn missing_trusted_header_yields_server_error() {
    let state = AppState::new(Some("X-Client-IP".to_string()));
    let headers = Headers::new();
    let resp = handle(&state, peer(), &headers, b"/");
    assert_eq!(resp.status, 500);
    assert_eq!(resp.body, "No header found");
}

#[test]
fn bad_ip_in_trusted_header_yields_server_error() {
    let state = AppState::new(Some("X-Client-IP".to_string()));
    let mut headers = Headers::new();
    headers.add(b"X-Client-IP".to_vec(), b"not-an-ip".to_vec());
    let resp = handle(&state, peer(), &headers, b"/raw");
    assert_eq!(resp.status, 500);
    assert_eq!(resp.body, "Could not convert supplied header to IP address");
}

#[test]
fn every_response_carries_robots_and_cors_headers() {
    let trusting = AppState::new(Some("X-Client-IP".to_string()));
    let open = AppState::new(None);
    let mut html_headers = Headers::new();
    html_headers.add(b"Accept".to_vec(), b"text/html".to_vec());
    let plain_headers = Headers::new();
    let responses = vec![
        handle(&open, peer(), &plain_headers, b"/raw"),
        handle(&open, peer(), &html_headers, b"/"),
        handle(&trusting, peer(), &plain_headers, b"/"),
        handle(&open, peer(), &plain_headers, b"/nowhere"),
    ];
    for resp in &responses {
        assert!(has(resp, "x-robots-tag", "noindex"));
        assert!(has(resp, "access-control-allow-origin", "*"));
    }
}

#[test]
fn unknown_path_is_not_found() {
    let state = AppState::new(None);
    let headers = Headers::new();
    let resp = handle(&state, peer(), &headers, b"/nowhere");
    assert_eq!(resp.status, 404);
    assert_eq!(resp.body, "");
}

#[test]
fn home_returns_html_variant_for_html_accept() {
    let state = AppState::new(None);
    let mut headers = Headers::new();
    headers.add(b"Accept".to_vec(), b"text/html,application/xhtml+xml".to_vec());
    match home(peer(), &headers, &state) {
        Ok(HtmlOrRaw::Html(p)) => assert_eq!(p, index_page()),
        _ => panic!("expected the HTML page"),
    }
}

#[test]
fn home_returns_raw_variant_otherwise() {
    let state = AppState::new(None);
    let headers = Headers::new();
    match home(peer(), &headers, &state) {
        Ok(HtmlOrRaw::Raw(s)) => assert_eq!(s, "203.0.113.5\n"),
        _ => panic!("expected the plain line"),
    }
}

#[test]
fn home_treats_unreadable_accept_as_plain() {
    let state = AppState::new(None);
    let mut headers = Headers::new();
    headers.add(b"Accept".to_vec(), vec![0xffu8, 0x00]);
    match home(peer(), &headers, &state) {
        Ok(HtmlOrRaw::Raw(s)) => assert_eq!(s, "203.0.113.5\n"),
        _ => panic!("expected the plain line"),
    }
}

#[test]
fn raw_function_returns_line_or_error() {
    let state = AppState::new(None);
    let headers = Headers::new();
    assert_eq!(raw(peer(), &headers, &state), Ok("203.0.113.5\n".to_string()));
}

#[test]
fn success_responses_render_with_cache_directive() {
    let resp = HtmlOrRaw::Raw("198.51.100.7\n".to_string()).into_response();
    assert_eq!(resp.status, 200);
    assert_eq!(resp.body, "198.51.100.7\n");
    assert!(has(&resp, "cache-control", "no-store"));
    let resp = HtmlOrRaw::Html(index_page()).into_response();
    assert_eq!(resp.status, 200);
    assert_eq!(resp.body, index_page());
    assert!(!has(&resp, "cache-control", "no-store"));
}
