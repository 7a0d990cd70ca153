//! The dispatch algorithm: global middleware in registration order, then the
//! routes whose method and pattern fit the request. A route that declines
//! (`NextRoute`) hands the request to the next fitting route.
use vstd::prelude::*;
use vstd::string::StringSliceAdditionalSpecFns;
use crate::headers::{HeaderSeq, pairs_view};
use crate::params::Params;
use crate::response::{Response, date_added, typed_headers};
use crate::routing::{match_pattern, route_match};
use crate::text::{bytes_equal, copy_bytes};
use crate::wire::{internal_error_text, not_found_text, text_plain};

verus! {

/// What a middleware step decides.
#[derive(Debug, Clone, Copy, PartialEq, Eq, Structural)]
pub enum MiddlewareResult {
    /// Go on with the next step.
    Next,
    /// Leave this chain: in the global phase, go to route matching; on a
    /// route, let the next fitting route have the request.
    NextRoute,
    /// Stop and send the response as it is.
    End,
}

/// How a middleware step came out: a decision, or an error whose value the caller keeps.
#[derive(Debug, Clone, Copy, PartialEq, Eq, Structural)]
pub enum StepOutcome {
    Done(MiddlewareResult),
    Failed,
}

/// What the dispatcher wants done next.
pub enum DispatchStep {
    /// Run the global middleware at this index.
    Global(usize),
    /// Run the route at this index, with these parameters on the request.
    Route(usize, Params),
    /// Send the response as it stands.
    Respond,
    /// No route took the request: answer 404.
    NotFound,
    /// A step failed: hand the error to the error hook, or answer 500.
    Failed,
}

/// Route `i` has the request's method and its pattern matches the path.
pub open spec fn fits(routes: HeaderSeq, i: int, method: Seq<u8>, path: Seq<u8>) -> bool {
    0 <= i < routes.len() && routes[i].0 == method && route_match(routes[i].1, path) is Some
}

/// The first route at or after `from` that fits the request.
pub open spec fn first_fit(routes: HeaderSeq, from: int, method: Seq<u8>, path: Seq<u8>) -> Option<int>
    decreases routes.len() - from,
{
    if from < 0 || from >= routes.len() {
        None
    } else if fits(routes, from, method, path) {
        Some(from)
    } else {
        first_fit(routes, from + 1, method, path)
    }
}

/// The configured steps of an application: how many global middlewares,
/// and each route's method and path pattern, in registration order.
pub struct Dispatcher {
    pub globals: usize,
    /// Each route's method and path pattern.
    pub routes: Vec<(Vec<u8>, Vec<u8>)>,
}

impl View for Dispatcher {
    type V = HeaderSeq;

    open spec fn view(&self) -> HeaderSeq {
        pairs_view(self.routes@)
    }
}

/// The step that `scan` gives for the routes from `from` on.
pub open spec fn scan_step(d: Dispatcher, from: int, method: Seq<u8>, path: Seq<u8>, r: DispatchStep) -> bool {
    match first_fit(d@, from, method, path) {
        Some(j) => r is Route && r->Route_0 == j && Some(r->Route_1@) == route_match(d@[j].1, path) && r->Route_1.wf(),
        None => r is NotFound,
    }
}

impl Dispatcher {
    pub fn new(globals: usize) -> (r: Dispatcher)
        ensures
            r.globals == globals,
            r@.len() == 0,
    {
        let r = Dispatcher { globals, routes: Vec::new() };
        assert(r@ =~= Seq::<(Seq<u8>, Seq<u8>)>::empty());
        r
    }

    /// Adds a route after the existing ones.
    pub fn add_route(&mut self, method: &str, pattern: &str)
        ensures
            final(self).globals == old(self).globals,
            final(self)@ == old(self)@.push((method.spec_bytes(), pattern.spec_bytes())),
    {
        let m = copy_bytes(method.as_bytes());
        let p = copy_bytes(pattern.as_bytes());
        self.routes.push((m, p));
        assert(self@ =~= old(self)@.push((method.spec_bytes(), pattern.spec_bytes())));
    }

    pub fn route_count(&self) -> (r: usize)
        ensures
            r == self@.len(),
    {
        self.routes.len()
    }

    /// The first route at or after `from` that fits the request.
    pub fn scan(&self, from: usize, method: &[u8], path: &[u8]) -> (r: DispatchStep)
        ensures
            scan_step(*self, from as int, method@, path@, r),
    {
        let mut i: usize = from;
        while i < self.routes.len()
            invariant
                from <= i,
                first_fit(self@, from as int, method@, path@) == first_fit(self@, i as int, method@, path@),
            decreases self.routes.len() - i,
        {
            if bytes_equal(self.routes[i].0.as_slice(), method) {
                match match_pattern(self.routes[i].1.as_slice(), path) {
                    Some(params) => {
                        return DispatchStep::Route(i, params);
                    },
                    None => {},
                }
            }
            i += 1;
        }
        DispatchStep::NotFound
    }

    /// The first step for a request.
    pub fn start(&self, method: &[u8], path: &[u8]) -> (r: DispatchStep)
        ensures
            self.globals > 0 ==> r is Global && r->Global_0 == 0,
            self.globals == 0 ==> scan_step(*self, 0, method@, path@, r),
    {
        if self.globals > 0 {
            DispatchStep::Global(0)
        } else {
            self.scan(0, method, path)
        }
    }

    /// The step after global middleware `i` came out with `outcome`.
    pub fn after_global(&self, i: usize, outcome: StepOutcome, method: &[u8], path: &[u8]) -> (r: DispatchStep)
        requires
            i < self.globals,
        ensures
            match outcome {
                StepOutcome::Done(MiddlewareResult::Next) => if i + 1 < self.globals {
                    r is Global && r->Global_0 == i + 1
                } else {
                    scan_step(*self, 0, method@, path@, r)
                },
                StepOutcome::Done(MiddlewareResult::NextRoute) => scan_step(*self, 0, method@, path@, r),
                StepOutcome::Done(MiddlewareResult::End) => r is Respond,
                StepOutcome::Failed => r is Failed,
            },
    {
        match outcome {
            StepOutcome::Done(MiddlewareResult::Next) => {
                if i + 1 < self.globals {
                    DispatchStep::Global(i + 1)
                } else {
                    self.scan(0, method, path)
                }
            },
            StepOutcome::Done(MiddlewareResult::NextRoute) => self.scan(0, method, path),
            StepOutcome::Done(MiddlewareResult::End) => DispatchStep::Respond,
            StepOutcome::Failed => DispatchStep::Failed,
        }
    }

    /// The step after route `i` came out with `outcome`: a declining route
    /// passes the request on to the next fitting route.
    pub fn after_route(&self, i: usize, outcome: StepOutcome, method: &[u8], path: &[u8]) -> (r: DispatchStep)
        requires
            i < self@.len(),
        ensures
            match outcome {
                StepOutcome::Done(MiddlewareResult::NextRoute) => scan_step(*self, i + 1, method@, path@, r),
                StepOutcome::Done(_) => r is Respond,
                StepOutcome::Failed => r is Failed,
            },
    {
        let route_count = self.routes.len();
        assert(i < route_count);
        match outcome {
            StepOutcome::Done(MiddlewareResult::NextRoute) => self.scan(i + 1, method, path),
            StepOutcome::Done(_) => DispatchStep::Respond,
            StepOutcome::Failed => DispatchStep::Failed,
        }
    }
}

/// Answers that no route took the request.
pub fn respond_not_found(res: &mut Response)
    requires
        old(res).wf(),
    ensures
        final(res).wf(),
        final(res).status == 404,
        final(res).body is Some && final(res).body->0@ == not_found_text(),
        date_added(typed_headers(old(res).headers@, not_found_text().len(), text_plain()), final(res).headers@),
{
    res.set_status(404);
    let body = crate::wire::not_found_text_bytes();
    let kind = crate::wire::text_plain_bytes();
    res.send_typed(body, kind.as_slice());
}

/// Answers that a step failed and no error hook took over.
pub fn respond_failed(res: &mut Response)
    requires
        old(res).wf(),
    ensures
        final(res).wf(),
        final(res).status == 500,
        final(res).body is Some && final(res).body->0@ == internal_error_text(),
        date_added(typed_headers(old(res).headers@, internal_error_text().len(), text_plain()), final(res).headers@),
{
    res.send_internal_error();
}

/// Of two fitting routes, the first to accept the request wins: when route
/// `i` declines, the next route to run is the first fitting one after it.
pub proof fn lemma_declined_route_falls_through(routes: HeaderSeq, i: int, j: int, method: Seq<u8>, path: Seq<u8>)
    requires
        0 <= i < j < routes.len(),
        fits(routes, j, method, path),
        forall|k: int| i < k < j ==> !fits(routes, k, method, path),
    ensures
        first_fit(routes, i + 1, method, path) == Some(j),
    decreases j - i,
{
    if i + 1 < j {
        assert(!fits(routes, i + 1, method, path));
        lemma_declined_route_falls_through(routes, i + 1, j, method, path);
    }
}

/// Two routes with the same method and the request's path as their pattern:
/// the scan starts with the first, and when it declines the second runs.
pub proof fn lemma_two_equal_routes(routes: HeaderSeq, method: Seq<u8>, path: Seq<u8>)
    requires
        routes.len() == 2,
        routes[0] == (method, path),
        routes[1] == (method, path),
    ensures
        first_fit(routes, 0, method, path) == Some(0int),
        first_fit(routes, 1, method, path) == Some(1int),
        first_fit(routes, 2, method, path) is None,
{
    crate::routing::lemma_matches_itself(path);
    assert(fits(routes, 0, method, path));
    assert(fits(routes, 1, method, path));
}

/// A route that fits is never skipped: the scan from `from` stops at the first fitting route.
pub proof fn lemma_first_fit_is_first(routes: HeaderSeq, from: int, method: Seq<u8>, path: Seq<u8>)
    requires
        0 <= from,
    ensures
        match first_fit(routes, from, method, path) {
            Some(j) => from <= j && fits(routes, j, method, path)
                && forall|k: int| from <= k < j ==> !fits(routes, k, method, path),
            None => forall|k: int| from <= k < routes.len() ==> !fits(routes, k, method, path),
        },
    decreases routes.len() - from,
{
    if from < routes.len() && !fits(routes, from, method, path) {
        lemma_first_fit_is_first(routes, from + 1, method, path);
    }
}

} // verus!
