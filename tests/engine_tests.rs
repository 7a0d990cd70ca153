use feather_core::connection::{keep_alive, ConnectionState};
use feather_core::framing::{ConnectionReader, ReadEvent};
use feather_core::response::Response;
use feather_core::session::{after_service, rejection, stays_open, ConnectionStep, ServiceResult};

fn lossy(raw: &[u8]) -> String {
    String::from_utf8_lossy(raw).to_string()
}

fn ready(ev: ReadEvent) -> feather_core::request::Request {
    match ev {
        ReadEvent::Ready(r) => r,
        ReadEvent::NeedMore => panic!("needs more"),
        ReadEvent::Reject(s) => panic!("rejected with {}", s),
    }
}

fn echo(body: &[u8]) -> Response {
    let mut response = Response::new();
    response.set_status(200);
    let text = format!("Echo: {}", String::from_utf8_lossy(body));
    response.send_text(&text);
    response
}

fn test_request(method: &str, path: &str, body: &[u8]) -> Vec<u8> {
    let mut request = Vec::new();
    request.extend_from_slice(format!("{} {} HTTP/1.1\r\n", method, path).as_bytes());
    request.extend_from_slice(b"Host: localhost\r\n");
    if !body.is_empty() {
        request.extend_from_slice(format!("Content-Length: {}\r\n", body.len()).as_bytes());
    }
    request.extend_from_slice(b"\r\n");
    request.extend_from_slice(body);
    request
}

#[test]
fn test_conn_sim_single_request_with_cursor() {
    let buf = test_request("GET", "/cursor", b"HelloCursor");
    let mut reader = ConnectionReader::new(8192);
    let req = ready(reader.push(&buf));
    assert_eq!(req.body, b"HelloCursor".to_vec());
    let response = echo(&req.body);
    let raw = lossy(&response.to_raw());
    assert!(raw.contains("HTTP/1.1 200"));
    assert!(raw.contains("Echo: HelloCursor"));
}

#[test]
fn body_split_over_three_reads() {
    let mut reader = ConnectionReader::new(8192);
    let head = b"POST /p HTTP/1.1\r\nContent-Length: 11\r\n\r\n";
    assert!(matches!(reader.push(head), ReadEvent::NeedMore));
    assert!(matches!(reader.push(b"Hell"), ReadEvent::NeedMore));
    assert!(matches!(reader.push(b"o Wo"), ReadEvent::NeedMore));
    let req = ready(reader.push(b"rld"));
    assert_eq!(req.body, b"Hello World".to_vec());
    assert_eq!(reader.buffer.len(), 0);
}

#[test]
fn body_is_the_same_for_every_split() {
    let stream = b"POST /p HTTP/1.1\r\nContent-Length: 5\r\n\r\nabcdeXYZ".to_vec();
    for cut in 0..stream.len() {
        let mut reader = ConnectionReader::new(8192);
        let mut got = None;
        for part in [&stream[..cut], &stream[cut..]] {
            if let ReadEvent::Ready(r) = reader.push(part) {
                got = Some(r);
                break;
            }
        }
        let req = got.expect("complete");
        assert_eq!(req.body, b"abcde".to_vec());
    }
}

#[test]
fn body_is_the_same_for_every_three_way_split() {
    let stream = b"POST /p HTTP/1.1\r\nContent-Length: 4\r\n\r\nwxyzREST".to_vec();
    for a in 0..stream.len() {
        for b in a..stream.len() {
            let mut reader = ConnectionReader::new(8192);
            let mut got = None;
            for part in [&stream[..a], &stream[a..b], &stream[b..]] {
                if let ReadEvent::Ready(r) = reader.push(part) {
                    got = Some(r);
                    break;
                }
            }
            assert_eq!(got.expect("complete").body, b"wxyz".to_vec());
        }
    }
}

#[test]
fn bytes_after_a_request_stay_for_the_next() {
    let mut reader = ConnectionReader::new(8192);
    let two = b"GET /a HTTP/1.1\r\n\r\nGET /b HTTP/1.1\r\n\r\n";
    let first = ready(reader.push(two));
    assert_eq!(first.raw_path, b"/a".to_vec());
    let second = ready(reader.push(b""));
    assert_eq!(second.raw_path, b"/b".to_vec());
}

#[test]
fn malformed_request_line_is_400_and_closes() {
    let mut reader = ConnectionReader::new(8192);
    let ev = reader.push(b"/test HTTP/1.1\r\nHost: x\r\n\r\n");
    assert!(matches!(ev, ReadEvent::Reject(400)));
    let r = rejection(400);
    let raw = lossy(&r.to_raw_at(b"D"));
    assert!(raw.starts_with("HTTP/1.1 400 Bad Request\r\n"));
    assert!(raw.contains("connection: close"));
    let step = after_service(true, ServiceResult::Response(r));
    assert!(matches!(step, ConnectionStep::Respond { close: true, .. }));
}

#[test]
fn chunked_request_is_501_and_closes() {
    let mut reader = ConnectionReader::new(8192);
    let ev = reader.push(b"POST / HTTP/1.1\r\nTransfer-Encoding: Chunked\r\n\r\n5\r\nhello\r\n0\r\n\r\n");
    assert!(matches!(ev, ReadEvent::Reject(501)));
    assert_eq!(reader.buffer.len(), 0);
    let r = rejection(501);
    assert_eq!(r.status, 501);
    assert!(lossy(&r.to_raw_at(b"D")).contains("connection: close"));
}

#[test]
fn oversized_head_is_413() {
    let mut reader = ConnectionReader::new(16);
    let ev = reader.push(b"GET /0123456789abcdef HTTP/1.1\r\n");
    assert!(matches!(ev, ReadEvent::Reject(413)));
}

#[test]
fn oversized_head_in_one_read_is_413() {
    let mut reader = ConnectionReader::new(20);
    let ev = reader.push(b"GET /0123456789abcdef HTTP/1.1\r\n\r\n");
    assert!(matches!(ev, ReadEvent::Reject(413)));
    assert_eq!(reader.buffer.len(), 0);
    let mut roomy = ConnectionReader::new(36);
    assert!(matches!(roomy.push(b"GET /0123456789abcdef HTTP/1.1\r\n\r\n"), ReadEvent::Ready(_)));
}

#[test]
fn oversized_body_is_413() {
    let mut reader = ConnectionReader::new(100);
    let ev = reader.push(b"POST / HTTP/1.1\r\nContent-Length: 101\r\n\r\n");
    assert!(matches!(ev, ReadEvent::Reject(413)));
    let mut reader = ConnectionReader::new(100);
    let ev = reader.push(b"POST / HTTP/1.1\r\nContent-Length: 99999999999999999999999\r\n\r\n");
    assert!(matches!(ev, ReadEvent::Reject(413)));
}

#[test]
fn bad_content_length_is_400() {
    let mut reader = ConnectionReader::new(100);
    let ev = reader.push(b"POST / HTTP/1.1\r\nContent-Length: 1x\r\n\r\n");
    assert!(matches!(ev, ReadEvent::Reject(400)));
}

#[test]
fn connection_close_ends_after_one_response() {
    let mut reader = ConnectionReader::new(8192);
    let req = ready(reader.push(b"GET / HTTP/1.1\r\nConnection: close\r\n\r\n"));
    let response = echo(b"");
    assert!(!stays_open(&req, &response));
    let step = after_service(stays_open(&req, &response), ServiceResult::Response(response));
    assert!(matches!(step, ConnectionStep::Respond { close: true, .. }));
}

#[test]
fn http11_keeps_alive_by_default() {
    let mut reader = ConnectionReader::new(8192);
    let req = ready(reader.push(b"GET / HTTP/1.1\r\n\r\n"));
    assert!(stays_open(&req, &echo(b"")));
    let mut closing = echo(b"");
    closing.add_header("Connection", "close").unwrap();
    assert!(!stays_open(&req, &closing));
}

#[test]
fn keep_alive_policy() {
    assert!(keep_alive(1, None));
    assert!(!keep_alive(1, Some(b"CLOSE")));
    assert!(keep_alive(1, Some(b"keep-alive")));
    assert!(!keep_alive(0, None));
    assert!(keep_alive(0, Some(b"Keep-Alive")));
    assert!(!keep_alive(0, Some(b"close")));
}

#[test]
fn connection_state_parse() {
    assert_eq!(ConnectionState::parse("close"), Some(ConnectionState::Close));
    assert_eq!(ConnectionState::parse("KEEP-ALIVE"), Some(ConnectionState::KeepAlive));
    assert_eq!(ConnectionState::parse("upgrade"), None);
    assert_eq!(ConnectionState::Close.as_bytes(), b"close".to_vec());
}

#[test]
fn consumed_connection_is_left_alone() {
    assert!(matches!(after_service(true, ServiceResult::Consumed), ConnectionStep::Stop));
}
