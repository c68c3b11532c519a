use skyengine::http::{
    inspect_http_request, is_http_token, parse_http_authority, valid_http_request_line,
    HttpAuthority, HttpRequestInspection,
};

fn authority(host: &str, port: Option<u16>) -> HttpAuthority {
    HttpAuthority {
        host: host.as_bytes().to_vec(),
        port,
    }
}

#[test]
fn tokens_are_non_empty_runs_of_token_characters() {
    assert!(is_http_token("GET"));
    assert!(is_http_token("X-Custom_Header.1!#$%&'*+^`|~"));
    assert!(!is_http_token(""));
    assert!(!is_http_token("Host:"));
    assert!(!is_http_token("two words"));
    assert!(!is_http_token("caf\u{e9}"));
}

#[test]
fn request_lines_have_three_parts_and_a_known_version() {
    assert!(valid_http_request_line("GET / HTTP/1.1"));
    assert!(valid_http_request_line("POST /upload?x=1 HTTP/1.0"));
    assert!(!valid_http_request_line("GET / HTTP/2"));
    assert!(!valid_http_request_line("GET  / HTTP/1.1"));
    assert!(!valid_http_request_line("GET / HTTP/1.1 extra"));
    assert!(!valid_http_request_line("GET /\u{7f} HTTP/1.1"));
    assert!(!valid_http_request_line("G\u{e9}T / HTTP/1.1"));
    assert!(!valid_http_request_line("GET /"));
}

#[test]
fn authorities_are_lower_cased_and_may_carry_a_port() {
    assert_eq!(
        parse_http_authority("Example.COM"),
        Some(authority("example.com", None))
    );
    assert_eq!(
        parse_http_authority("spd.skymobiapp.com.:8080"),
        Some(authority("spd.skymobiapp.com", Some(8080)))
    );
    assert_eq!(parse_http_authority("[::1]:80"), None);
    assert_eq!(parse_http_authority("a:b:c"), None);
    assert_eq!(parse_http_authority("host:99999"), None);
    assert_eq!(parse_http_authority("..."), None);
    assert_eq!(parse_http_authority("user@host"), None);
    assert_eq!(parse_http_authority("h\u{e9}st"), None);
    assert_eq!(parse_http_authority(""), None);
}

#[test]
fn complete_requests_are_routed_by_their_host_header() {
    let request = b"GET /index HTTP/1.1\r\nhOsT: \tExample.com:81 \r\nAccept: */*\r\n\r\nbody";
    assert_eq!(
        inspect_http_request(request),
        HttpRequestInspection::Routed(authority("example.com", Some(81)))
    );
}

#[test]
fn partial_and_unusual_requests_are_classified() {
    assert_eq!(
        inspect_http_request(b"GET / HTTP/1.1\r\nHost: a"),
        HttpRequestInspection::Incomplete
    );
    assert_eq!(
        inspect_http_request(b"GET / HTTP/1.1"),
        HttpRequestInspection::Direct
    );
    assert_eq!(
        inspect_http_request(b"\x16\x03\x01 TLS\r\n"),
        HttpRequestInspection::Direct
    );
    assert_eq!(
        inspect_http_request(b"GET / HTTP/1.1\r\n\r\n"),
        HttpRequestInspection::Direct
    );
    assert_eq!(
        inspect_http_request(b"GET / HTTP/1.1\r\nAccept: x\r\n\r\n"),
        HttpRequestInspection::Direct
    );
    assert_eq!(
        inspect_http_request(b"GET / HTTP/1.1\r\nHost: a\r\nHost: b\r\n\r\n"),
        HttpRequestInspection::Direct
    );
    assert_eq!(
        inspect_http_request(b"GET / HTTP/1.1\r\nBad Header: x\r\nHost: a\r\n\r\n"),
        HttpRequestInspection::Direct
    );
    assert_eq!(
        inspect_http_request(b"GET / HTTP/1.1\r\nHost: a\r\nX: \xff\r\n\r\n"),
        HttpRequestInspection::Direct
    );
    assert_eq!(
        inspect_http_request(b"GET / HTTP/1.1\r\nHost: a\r\nX: \xc3\xa9\r\n\r\n"),
        HttpRequestInspection::Routed(authority("a", None))
    );
}
