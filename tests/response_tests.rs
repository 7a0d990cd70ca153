use feather_core::response::{HeaderError, Response};

fn lossy(raw: &[u8]) -> String {
    String::from_utf8_lossy(raw).to_string()
}

#[test]
fn test_response_creation() {
    let mut response = Response::default();
    response.set_status(200);
    response.send_text("Hello World");
    let raw = response.to_raw();
    let raw_str = lossy(&raw);
    let raw_lower = raw_str.to_lowercase();
    assert!(raw_str.contains("HTTP/1.1 200 OK"));
    assert!(raw_lower.contains("content-type: text/plain"));
    assert!(raw_lower.contains("content-length: 11"));
    assert!(raw_str.contains("Hello World"));
}

#[test]
fn test_response_with_custom_headers() {
    let mut response = Response::default();
    response.set_status(201);
    response.add_header("X-Custom", "test").unwrap();
    response.send_text("Created");
    let raw = response.to_raw();
    let raw_str = lossy(&raw);
    let raw_lower = raw_str.to_lowercase();
    assert!(raw_str.contains("HTTP/1.1 201 Created"));
    assert!(raw_lower.contains("x-custom: test"));
}

#[test]
fn test_json_response() {
    let mut response = Response::default();
    response.set_status(200);
    let mut data = serde_json::Map::new();
    data.insert("message".to_string(), serde_json::Value::String("test".to_string()));
    let json = serde_json::to_vec(&serde_json::Value::Object(data)).unwrap();
    response.send_json_bytes(json);
    let raw = response.to_raw();
    let raw_str = lossy(&raw);
    let raw_lower = raw_str.to_lowercase();
    assert!(raw_lower.contains("content-type: application/json"));
    assert!(raw_str.contains(r#"{"message":"test"}"#));
}

#[test]
fn test_error_response() {
    let mut response = Response::default();
    response.set_status(404);
    response.send_text("Not Found");
    let raw = response.to_raw();
    assert!(lossy(&raw).contains("HTTP/1.1 404 Not Found"));
}

#[test]
fn test_response_headers_case_insensitivity() {
    let mut response = Response::default();
    response.add_header("Content-Type", "text/plain").unwrap();
    response.add_header("CONTENT-LENGTH", "5").unwrap();
    let raw = response.to_raw();
    let raw_lower = lossy(&raw).to_lowercase();
    assert!(raw_lower.contains("content-type: text/plain"));
    assert!(raw_lower.contains("content-length: 5"));
}

#[test]
fn serialization_is_byte_exact() {
    let mut response = Response::default();
    response.set_status(404);
    response.add_header("X-A", "1").unwrap();
    response.add_header("Date", "Thu, 01 Jan 1970").unwrap();
    response.send_text("nope");
    let raw = response.to_raw_at(b"unused");
    assert_eq!(
        lossy(&raw),
        "HTTP/1.1 404 Not Found\r\nx-a: 1\r\ndate: Thu, 01 Jan 1970\r\ncontent-type: text/plain\r\ncontent-length: 4\r\n\r\nnope"
    );
}

#[test]
fn serialization_adds_missing_length_and_date() {
    let mut response = Response::default();
    response.body = Some(b"abc".to_vec());
    assert_eq!(
        lossy(&response.to_raw_at(b"D")),
        "HTTP/1.1 200 OK\r\ncontent-length: 3\r\ndate: D\r\n\r\nabc"
    );
}

#[test]
fn body_setters_add_a_date() {
    let mut response = Response::default();
    response.send_text("hi");
    let date = response.headers.get_bytes(b"Date").unwrap().to_vec();
    assert!(!date.is_empty());
    let mut kept = Response::default();
    kept.add_header("Date", "yesterday").unwrap();
    kept.send_bytes(b"x".to_vec());
    assert_eq!(kept.headers.get_bytes(b"date"), Some(&b"yesterday"[..]));
}

#[test]
fn no_body_means_no_injected_headers() {
    let response = Response::default();
    assert_eq!(lossy(&response.to_raw_at(b"D")), "HTTP/1.1 200 OK\r\n\r\n");
}

#[test]
fn date_is_added_when_missing() {
    let mut response = Response::default();
    response.send_bytes(b"x".to_vec());
    let raw = lossy(&response.to_raw());
    let line = raw.lines().find(|l| l.starts_with("date: ")).unwrap();
    assert!(line.len() > "date: ".len());
}

#[test]
fn unknown_status_code_has_unknown_reason() {
    let mut response = Response::default();
    response.set_status(599);
    assert!(lossy(&response.to_raw_at(b"D")).starts_with("HTTP/1.1 599 Unknown\r\n"));
}

#[test]
fn out_of_range_status_becomes_500() {
    let mut response = Response::default();
    response.set_status(1000);
    assert_eq!(response.status, 500);
    response.set_status(99);
    assert_eq!(response.status, 500);
    response.set_status(100);
    assert_eq!(response.status, 100);
}

#[test]
fn invalid_headers_are_refused() {
    let mut response = Response::default();
    assert_eq!(response.add_header("Bad Name", "v"), Err(HeaderError::InvalidHeaderName));
    assert_eq!(response.add_header("", "v"), Err(HeaderError::InvalidHeaderName));
    assert_eq!(response.add_header("X-Ok", "line\nbreak"), Err(HeaderError::InvalidHeaderValue));
    assert_eq!(response.headers.len(), 0);
}

#[test]
fn setting_body_twice_keeps_one_matching_length() {
    let mut response = Response::default();
    response.send_text("first body");
    let first_date = response.headers.get_bytes(b"date").unwrap().to_vec();
    response.send_text("second");
    assert_eq!(response.headers.get_bytes(b"date"), Some(&first_date[..]));
    assert_eq!(response.body, Some(b"second".to_vec()));
    assert_eq!(response.headers.len(), 3);
    assert_eq!(response.headers.get_bytes(b"Content-Length"), Some(&b"6"[..]));
    let raw = lossy(&response.to_raw_at(b"D"));
    assert_eq!(raw.matches("content-length").count(), 1);
}

#[test]
fn content_type_already_set_is_kept() {
    let mut response = Response::default();
    response.add_header("Content-Type", "text/csv").unwrap();
    response.send_html("<p>");
    assert_eq!(response.headers.get_bytes(b"content-type"), Some(&b"text/csv"[..]));
    let mut other = Response::default();
    other.send_html("<p>");
    assert_eq!(other.headers.get_bytes(b"content-type"), Some(&b"text/html"[..]));
}

#[test]
fn serialization_failure_answers_500() {
    let mut response = Response::default();
    response.send_internal_error();
    assert_eq!(response.status, 500);
    assert_eq!(response.body, Some(b"Internal Server Error".to_vec()));
}

#[test]
fn status_and_headers_read_back() {
    let mut response = Response::default();
    response.set_status(201);
    response.add_header("X-Trace", "abc").unwrap();
    response.send_text("ok");
    let raw = lossy(&response.to_raw_at(b"D"));
    let mut lines = raw.split("\r\n");
    let status_line = lines.next().unwrap();
    let code: u16 = status_line.split(' ').nth(1).unwrap().parse().unwrap();
    assert_eq!(code, response.status);
    for i in 0..response.headers.len() {
        let (n, v) = response.headers.entry(i);
        let line = lines.next().unwrap();
        let (rn, rv) = line.split_once(": ").unwrap();
        assert!(rn.eq_ignore_ascii_case(std::str::from_utf8(n).unwrap()));
        assert_eq!(rv.as_bytes(), v);
    }
}
