use feather_core::builtins::{Cors, FileProblem, ServeStatic};
use feather_core::config::{Error, IoFailure};
use feather_core::jwt::{ClaimError, JwtManager, SimpleClaims};
use feather_core::pool::{PoolConfig, PoolState};
use feather_core::queue::{Popped, Queue};
use feather_core::request::ParseError;
use feather_core::response::Response;

#[test]
fn queue_is_first_in_first_out() {
    let mut q: Queue<u32> = Queue::with_capacity(4);
    for i in 0..10 {
        q.push(i);
    }
    for i in 0..10 {
        assert!(matches!(q.pop(), Popped::Item(v) if v == i));
    }
    assert!(matches!(q.pop(), Popped::Empty));
}

#[test]
fn unblock_releases_one_consumer() {
    let mut q: Queue<u32> = Queue::with_capacity(1);
    q.push(1);
    q.unblock();
    q.unblock();
    assert!(matches!(q.pop(), Popped::Item(1)));
    assert!(matches!(q.pop(), Popped::Released));
    assert!(matches!(q.pop(), Popped::Released));
    assert!(matches!(q.pop(), Popped::Empty));
}

#[test]
fn pool_grows_to_the_ceiling_only() {
    let cfg = PoolConfig { max_workers: 3, min_workers: 1, timeout_ms: 10 };
    let mut s = PoolState::start(cfg);
    assert_eq!(s.active, 1);
    s.on_job_started();
    assert!(s.on_job_queued());
    s.on_job_started();
    assert!(s.on_job_queued());
    s.on_job_started();
    assert!(!s.on_job_queued());
    assert_eq!(s.active, 3);
    assert_eq!(s.stop_signals(), 3);
}

#[test]
fn idle_pool_shrinks_to_the_floor() {
    let cfg = PoolConfig { max_workers: 5, min_workers: 2, timeout_ms: 10 };
    let mut s = PoolState { config: cfg, active: 5, idle: 5 };
    let mut retired = 0;
    for _ in 0..10 {
        if s.idle > 0 && s.on_idle_timeout() {
            retired += 1;
        }
    }
    assert_eq!(retired, 3);
    assert_eq!(s.active, 2);
    assert_eq!(PoolConfig::standard().max_workers, 60);
}

#[test]
fn busy_pool_with_idle_worker_does_not_grow() {
    let cfg = PoolConfig { max_workers: 5, min_workers: 2, timeout_ms: 10 };
    let mut s = PoolState::start(cfg);
    assert!(!s.on_job_queued());
    s.on_job_started();
    s.on_job_finished();
    assert_eq!(s.idle, 2);
}

#[test]
fn content_types_by_extension() {
    assert_eq!(ServeStatic::guess_content_type("a/index.html"), "text/html; charset=utf-8");
    assert_eq!(ServeStatic::guess_content_type("x.htm"), "text/html; charset=utf-8");
    assert_eq!(ServeStatic::guess_content_type("s.css"), "text/css; charset=utf-8");
    assert_eq!(ServeStatic::guess_content_type("app.js"), "application/javascript; charset=utf-8");
    assert_eq!(ServeStatic::guess_content_type("d.json"), "application/json");
    assert_eq!(ServeStatic::guess_content_type("p.jpeg"), "image/jpeg");
    assert_eq!(ServeStatic::guess_content_type("t.tar.txt"), "text/plain; charset=utf-8");
    assert_eq!(ServeStatic::guess_content_type(".png"), "application/octet-stream");
    assert_eq!(ServeStatic::guess_content_type("dir.png/file"), "application/octet-stream");
    assert_eq!(ServeStatic::guess_content_type("README"), "application/octet-stream");
    assert_eq!(ServeStatic::guess_content_type("a/b.txt/"), "text/plain; charset=utf-8");
    assert_eq!(ServeStatic::guess_content_type("a/b.gif//"), "image/gif");
    assert_eq!(ServeStatic::guess_content_type("foo.txt/."), "text/plain; charset=utf-8");
    assert_eq!(ServeStatic::guess_content_type("foo.txt/.//./"), "text/plain; charset=utf-8");
    assert_eq!(ServeStatic::guess_content_type("foo.txt/.."), "application/octet-stream");
    assert_eq!(ServeStatic::guess_content_type("."), "application/octet-stream");
    assert_eq!(ServeStatic::guess_content_type("dir/.css"), "application/octet-stream");
}

#[test]
fn containment_is_by_component() {
    assert!(ServeStatic::lies_within("/srv/site/a.html", "/srv/site"));
    assert!(ServeStatic::lies_within("/srv/site", "/srv/site/"));
    assert!(!ServeStatic::lies_within("/srv/siteX/a.html", "/srv/site"));
    assert!(!ServeStatic::lies_within("/srv", "/srv/site"));
    assert!(ServeStatic::lies_within("/etc/passwd", "/"));
}

#[test]
fn unc_prefix_is_removed() {
    assert_eq!(ServeStatic::strip_unc(r"\\?\C:\site"), r"C:\site");
    assert_eq!(ServeStatic::strip_unc("/srv/site"), "/srv/site");
}

#[test]
fn parent_directory_is_refused() {
    assert!(ServeStatic::climbs_up(b"a/../b"));
    assert!(!ServeStatic::climbs_up(b"a/./b.c"));
    let mut r = Response::new();
    ServeStatic::respond_forbidden(&mut r);
    assert_eq!(r.status, 403);
    let mut r = Response::new();
    ServeStatic::respond_file_problem(FileProblem::Other, &mut r);
    assert_eq!(r.status, 500);
    assert_eq!(r.body, Some(b"500 Internal Server Error".to_vec()));
    assert_eq!(ServeStatic::new("./public".to_string()).base_path, "./public");
}

#[test]
fn cors_sets_allowed_origin() {
    let mut r = Response::new();
    Cors::any().apply(&mut r).unwrap();
    assert_eq!(r.headers.get_bytes(b"Access-Control-Allow-Origin"), Some(&b"*"[..]));
    Cors::new("https://example.com".to_string()).apply(&mut r).unwrap();
    assert_eq!(r.headers.get_bytes(b"access-control-allow-origin"), Some(&b"https://example.com"[..]));
    assert_eq!(r.headers.len(), 1);
}

#[test]
fn claims_are_checked() {
    let _ = JwtManager::new("k".to_string());
    assert_eq!(SimpleClaims::new(String::new(), 10).validate_at(5), Err(ClaimError::InvalidToken));
    assert_eq!(SimpleClaims::new("u".to_string(), 4).validate_at(5), Err(ClaimError::ExpiredSignature));
    assert_eq!(SimpleClaims::new("u".to_string(), 5).validate_at(5), Ok(()));
}

#[test]
fn error_statuses() {
    assert_eq!(Error::Parse(ParseError::Malformed).status(), Some(400));
    assert_eq!(Error::PayloadTooLarge.status(), Some(413));
    assert_eq!(Error::UnsupportedTransferEncoding.status(), Some(501));
    assert_eq!(Error::Handler.status(), Some(500));
    assert_eq!(Error::Io(IoFailure::BrokenPipe).status(), None);
    assert_eq!(Error::PoolPanic.status(), None);
}
