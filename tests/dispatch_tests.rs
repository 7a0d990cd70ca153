use feather_core::dispatch::{respond_not_found, DispatchStep, Dispatcher, MiddlewareResult, StepOutcome};
use feather_core::response::Response;
use feather_core::routing::match_route;

#[test]
fn route_parameter_is_bound() {
    let p = match_route("/user/:id", b"/user/42").unwrap();
    assert_eq!(p.get(b"id"), Some(&b"42"[..]));
}

#[test]
fn two_user_routes_bind_id() {
    let mut d = Dispatcher::new(0);
    d.add_route("GET", "/user/:id");
    d.add_route("GET", "/user/:id");
    match d.start(b"GET", b"/user/42") {
        DispatchStep::Route(0, p) => assert_eq!(p.get(b"id"), Some(&b"42"[..])),
        _ => panic!("expected first route"),
    }
}

#[test]
fn route_matching_rules() {
    assert!(match_route("/a/b", b"/a/b/").is_some());
    assert!(match_route("a/b", b"/a/b").is_some());
    assert!(match_route("/a/b", b"/a/c").is_none());
    assert!(match_route("/a", b"/a/b").is_none());
    assert!(match_route("/", b"/").is_some());
    let p = match_route("/:x/:x", b"/1/2").unwrap();
    assert_eq!(p.len(), 1);
    assert_eq!(p.get(b"x"), Some(&b"2"[..]));
}

#[test]
fn declining_route_falls_through_to_the_next() {
    let mut d = Dispatcher::new(0);
    d.add_route("GET", "/x");
    d.add_route("GET", "/x");
    let first = d.start(b"GET", b"/x");
    assert!(matches!(first, DispatchStep::Route(0, _)));
    let next = d.after_route(0, StepOutcome::Done(MiddlewareResult::NextRoute), b"GET", b"/x");
    assert!(matches!(next, DispatchStep::Route(1, _)));
    let done = d.after_route(1, StepOutcome::Done(MiddlewareResult::Next), b"GET", b"/x");
    assert!(matches!(done, DispatchStep::Respond));
}

#[test]
fn accepting_route_ends_the_scan() {
    let mut d = Dispatcher::new(0);
    d.add_route("GET", "/x");
    d.add_route("GET", "/x");
    d.add_route("GET", "/x");
    let next = d.after_route(0, StepOutcome::Done(MiddlewareResult::NextRoute), b"GET", b"/x");
    assert!(matches!(next, DispatchStep::Route(1, _)));
    let done = d.after_route(1, StepOutcome::Done(MiddlewareResult::End), b"GET", b"/x");
    assert!(matches!(done, DispatchStep::Respond));
}

#[test]
fn last_route_declining_gives_404() {
    let mut d = Dispatcher::new(0);
    d.add_route("GET", "/x");
    let next = d.after_route(0, StepOutcome::Done(MiddlewareResult::NextRoute), b"GET", b"/x");
    assert!(matches!(next, DispatchStep::NotFound));
    let mut res = Response::new();
    respond_not_found(&mut res);
    assert_eq!(res.status, 404);
    assert_eq!(res.body, Some(b"404 Not Found".to_vec()));
}

#[test]
fn method_must_match() {
    let mut d = Dispatcher::new(0);
    d.add_route("POST", "/x");
    d.add_route("GET", "/x");
    assert!(matches!(d.start(b"GET", b"/x"), DispatchStep::Route(1, _)));
    assert!(matches!(d.start(b"PUT", b"/x"), DispatchStep::NotFound));
}

#[test]
fn global_phase_runs_in_order() {
    let mut d = Dispatcher::new(2);
    d.add_route("GET", "/");
    assert!(matches!(d.start(b"GET", b"/"), DispatchStep::Global(0)));
    let s = d.after_global(0, StepOutcome::Done(MiddlewareResult::Next), b"GET", b"/");
    assert!(matches!(s, DispatchStep::Global(1)));
    let s = d.after_global(1, StepOutcome::Done(MiddlewareResult::Next), b"GET", b"/");
    assert!(matches!(s, DispatchStep::Route(0, _)));
    let s = d.after_global(0, StepOutcome::Done(MiddlewareResult::NextRoute), b"GET", b"/");
    assert!(matches!(s, DispatchStep::Route(0, _)));
    let s = d.after_global(0, StepOutcome::Done(MiddlewareResult::End), b"GET", b"/");
    assert!(matches!(s, DispatchStep::Respond));
    let s = d.after_global(1, StepOutcome::Failed, b"GET", b"/");
    assert!(matches!(s, DispatchStep::Failed));
}
