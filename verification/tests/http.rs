use expresso::request::Request;
use expresso::response::{decimal_string, Response};

#[test]
fn parses_request_line_headers_and_body() {
    let raw = b"POST /submit HTTP/1.1\r\nHost: example\r\nContent-Type: text/plain\r\n\r\nhello there";
    let req = Request::from_raw(raw).expect("well-formed request");
    assert_eq!(req.method, "POST");
    assert_eq!(req.path, "/submit");
    assert_eq!(req.version, "HTTP/1.1");
    assert_eq!(req.header("Host").unwrap().as_str(), "example");
    assert_eq!(req.header("Content-Type").unwrap().as_str(), "text/plain");
    assert!(req.header("Accept").is_none());
    assert_eq!(req.body.as_deref(), Some("hello there"));
}

#[test]
fn empty_input_fails_to_parse() {
    assert!(Request::from_raw(b"").is_none());
}

#[test]
fn short_request_line_fails_to_parse() {
    assert!(Request::from_raw(b"GET /x\r\n\r\n").is_none());
    assert!(Request::from_raw(b"GET\r\n\r\n").is_none());
    assert!(Request::from_raw(b"   \r\n\r\n").is_none());
}

#[test]
fn extra_request_line_tokens_are_ignored() {
    let req = Request::from_raw(b"GET / HTTP/1.1 extra junk\r\n\r\n").unwrap();
    assert_eq!(req.method, "GET");
    assert_eq!(req.path, "/");
    assert_eq!(req.version, "HTTP/1.1");
}

#[test]
fn malformed_header_lines_are_skipped() {
    let req = Request::from_raw(b"GET / HTTP/1.1\r\nnocolon\r\nGood: yes\r\n\r\n").unwrap();
    assert!(req.header("nocolon").is_none());
    assert_eq!(req.header("Good").unwrap().as_str(), "yes");
}

#[test]
fn repeated_header_keeps_the_last_value() {
    let req = Request::from_raw(b"GET / HTTP/1.1\r\nK: one\r\nK: two\r\n\r\n").unwrap();
    assert_eq!(req.header("K").unwrap().as_str(), "two");
}

#[test]
fn missing_blank_line_means_no_body() {
    let req = Request::from_raw(b"GET / HTTP/1.1\r\nHost: x\r\n").unwrap();
    assert_eq!(req.body, None);
}

#[test]
fn body_keeps_inner_line_breaks() {
    let req = Request::from_raw(b"GET / HTTP/1.1\r\n\r\nline one\r\nline two").unwrap();
    assert_eq!(req.body.as_deref(), Some("line one\r\nline two"));
}

#[test]
fn invalid_utf8_is_decoded_with_replacement() {
    // the decoder really decodes: a stray 0xFF byte becomes U+FFFD
    let req = Request::from_raw(b"GET /caf\xFF HTTP/1.1\r\n\r\n").unwrap();
    assert_eq!(req.path, "/caf\u{FFFD}");
}

#[test]
fn builds_the_exact_wire_form() {
    let res = Response::new().status(200).send("Hello, World!");
    assert_eq!(
        res.build(),
        "HTTP/1.1 200 OK\r\nContent-Length: 13\r\n\r\nHello, World!"
    );
}

#[test]
fn build_lists_headers_between_length_and_body() {
    let res = Response::new()
        .status(201)
        .set_header("Content-Type", "text/plain")
        .send("x");
    assert_eq!(
        res.build(),
        "HTTP/1.1 201 Created\r\nContent-Length: 1\r\nContent-Type: text/plain\r\n\r\nx"
    );
}

#[test]
fn content_length_counts_bytes_not_characters() {
    let res = Response::new().status(200).send("héllo");
    assert_eq!(
        res.build(),
        "HTTP/1.1 200 OK\r\nContent-Length: 6\r\n\r\nhéllo"
    );
}

#[test]
fn status_reason_phrases_come_from_the_fixed_table() {
    let cases: [(u16, &str); 9] = [
        (200, "OK"),
        (201, "Created"),
        (204, "No Content"),
        (400, "Bad Request"),
        (401, "Unauthorized"),
        (403, "Forbidden"),
        (404, "Not Found"),
        (500, "Internal Server Error"),
        (299, "Unknown"),
    ];
    for (code, text) in cases {
        let res = Response::new().status(code);
        assert_eq!(res.status_code, code);
        assert_eq!(res.status_text, text);
    }
}

#[test]
fn set_header_replaces_in_place() {
    let res = Response::new()
        .set_header("A", "1")
        .set_header("B", "2")
        .set_header("A", "3");
    assert_eq!(res.headers.get("A").unwrap().as_str(), "3");
    assert_eq!(res.headers.get("B").unwrap().as_str(), "2");
    assert_eq!(res.headers.len(), 2);
    assert_eq!(
        res.build(),
        "HTTP/1.1 200 OK\r\nContent-Length: 0\r\nA: 3\r\nB: 2\r\n\r\n"
    );
}

#[test]
fn json_sets_content_type_and_body() {
    let res = Response::new().status(201).json("{\"ok\":true}");
    assert_eq!(
        res.headers.get("Content-Type").unwrap().as_str(),
        "application/json"
    );
    assert_eq!(res.body.as_deref(), Some("{\"ok\":true}"));
}

#[test]
fn decimal_rendering_is_exact() {
    assert_eq!(decimal_string(0), "0");
    assert_eq!(decimal_string(7), "7");
    assert_eq!(decimal_string(10), "10");
    assert_eq!(decimal_string(1024), "1024");
    assert_eq!(decimal_string(65535), "65535");
    assert_eq!(decimal_string(18446744073709551615), "18446744073709551615");
}
