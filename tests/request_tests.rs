use feather_core::connection::ConnectionState;
use feather_core::request::{ParseError, Request};

fn text(b: &[u8]) -> String {
    String::from_utf8(b.to_vec()).unwrap()
}

#[test]
fn test_parse_simple_get_request() {
    let raw = b"GET /test HTTP/1.1\r\nHost: example.com\r\n\r\n";
    let request = Request::parse(raw, Vec::new()).unwrap();
    assert_eq!(text(&request.method), "GET");
    assert_eq!(text(&request.path()), "/test");
    assert_eq!(request.headers.len(), 1);
}

#[test]
fn test_parse_request_with_body() {
    let headers_raw = b"POST /submit HTTP/1.1\r\nHost: example.com\r\nContent-Length: 11\r\n\r\n";
    let body = b"Hello World";
    let request = Request::parse(headers_raw, body.to_vec()).unwrap();
    assert_eq!(text(&request.method), "POST");
    assert_eq!(text(&request.path()), "/submit");
    assert_eq!(request.body, b"Hello World".to_vec());
}

#[test]
fn test_parse_request_with_query_params() {
    let raw = b"GET /search?q=test&page=1 HTTP/1.1\r\nHost: example.com\r\n\r\n";
    let request = Request::parse(raw, Vec::new()).unwrap();
    let params = request.query().unwrap();
    assert_eq!(params.get(b"q").unwrap(), b"test");
    assert_eq!(params.get(b"page").unwrap(), b"1");
}

#[test]
fn test_parse_request_with_headers() {
    let raw = b"GET / HTTP/1.1\r\nHost: example.com\r\nUser-Agent: test\r\nAccept: */*\r\n\r\n";
    let request = Request::parse(raw, Vec::new()).unwrap();
    assert_eq!(request.headers.len(), 3);
    assert_eq!(request.header("user-agent").unwrap(), b"test");
    assert_eq!(request.header("accept").unwrap(), b"*/*");
}

#[test]
fn test_parse_invalid_method() {
    let raw = b"INVALID / HTTP/1.1\r\nHost: example.com\r\n\r\n";
    let req = Request::parse(raw, Vec::new()).expect("should parse custom method");
    assert_eq!(text(&req.method), "INVALID");
}

#[test]
fn test_parse_empty_method() {
    let raw = b" / HTTP/1.1\r\nHost: example.com\r\n\r\n";
    assert!(Request::parse(raw, Vec::new()).is_err());
}

#[test]
fn test_parse_missing_method() {
    let raw = b"/test HTTP/1.1\r\nHost: example.com\r\n\r\n";
    assert!(Request::parse(raw, Vec::new()).is_err());
}

#[test]
fn test_valid_http_methods() {
    let valid_methods = ["GET", "POST", "PUT", "DELETE", "HEAD", "OPTIONS", "PATCH"];
    for method in valid_methods.iter() {
        let raw = format!("{} /test HTTP/1.1\r\nHost: example.com\r\n\r\n", method);
        let request = Request::parse(raw.as_bytes(), Vec::new()).unwrap();
        assert_eq!(text(&request.method), *method);
    }
}

#[test]
fn query_of_search_scenario() {
    let raw = b"GET /search?q=test&page=1 HTTP/1.1\r\nHost: x\r\n\r\n";
    let request = Request::parse(raw, Vec::new()).unwrap();
    let params = request.query().unwrap();
    assert_eq!(params.len(), 2);
    assert_eq!(params.get(b"q"), Some(&b"test"[..]));
    assert_eq!(params.get(b"page"), Some(&b"1"[..]));
}

#[test]
fn query_repeated_name_keeps_last_value() {
    let raw = b"GET /s?a=1&a=2&b=%20x HTTP/1.1\r\n\r\n";
    let request = Request::parse(raw, Vec::new()).unwrap();
    let params = request.query().unwrap();
    assert_eq!(params.len(), 2);
    assert_eq!(params.get(b"a"), Some(&b"2"[..]));
    assert_eq!(params.get(b"b"), Some(&b" x"[..]));
}

#[test]
fn query_absent_is_empty() {
    let request = Request::parse(b"GET /plain HTTP/1.1\r\n\r\n", Vec::new()).unwrap();
    assert_eq!(request.query().unwrap().len(), 0);
}

#[test]
fn path_is_percent_decoded() {
    let request = Request::parse(b"GET /a%20b/c HTTP/1.1\r\n\r\n", Vec::new()).unwrap();
    assert_eq!(request.path(), b"/a b/c".to_vec());
    assert_eq!(request.raw_path, b"/a%20b/c".to_vec());
}

#[test]
fn malformed_escapes_are_kept() {
    let request = Request::parse(b"GET /%41%4G/x%2 HTTP/1.1\r\n\r\n", Vec::new()).unwrap();
    assert_eq!(request.path(), b"/A%4G/x%2".to_vec());
}

#[test]
fn target_keeps_path_and_query_apart() {
    let request = Request::parse(b"GET /x/y?k=v HTTP/1.0\r\n\r\n", Vec::new()).unwrap();
    assert_eq!(request.raw_path, b"/x/y".to_vec());
    assert_eq!(request.raw_query, Some(b"k=v".to_vec()));
    assert_eq!(request.minor_version, 0);
}

#[test]
fn invalid_uri_is_reported() {
    let r = Request::parse(b"GET http:// HTTP/1.1\r\n\r\n", Vec::new());
    assert!(matches!(r, Err(ParseError::InvalidUri)));
}

#[test]
fn header_names_fold_case_and_last_value_wins() {
    let raw = b"GET / HTTP/1.1\r\nX-A: one\r\nx-a: two\r\n\r\n";
    let request = Request::parse(raw, Vec::new()).unwrap();
    assert_eq!(request.headers.len(), 1);
    assert_eq!(request.header("X-A").unwrap(), b"two");
}

#[test]
fn connection_header_is_read() {
    let request = Request::parse(b"GET / HTTP/1.1\r\nConnection: Close\r\n\r\n", Vec::new()).unwrap();
    assert_eq!(request.connection, Some(ConnectionState::Close));
    let request = Request::parse(b"GET / HTTP/1.0\r\nConnection: keep-alive\r\n\r\n", Vec::new()).unwrap();
    assert_eq!(request.connection, Some(ConnectionState::KeepAlive));
}
