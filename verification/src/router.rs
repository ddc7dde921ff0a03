//! The route table: an explicitly constructed, immutable mapping from
//! (method, path) to handler, built once at startup, and the dispatcher that
//! resolves each request through it.
use vstd::prelude::*;

use crate::http::Error;
use crate::http::Method;
use crate::http::Request;
use crate::http::RequestModel;
use crate::http::Response;
use crate::http::ResponseModel;
use crate::http::error_model;
use crate::http::ok_model;
use crate::http::error_response;
use crate::routes::Handler;
use crate::routes::handler_model;
use crate::routes::run_handler;
use crate::form::login_form;

verus! {

/// One route entry: a (method, path) pair bound to a handler.
#[derive(Debug)]
pub struct Route {
    pub method: Method,
    pub path: String,
    pub handler: Handler,
}

/// The mathematical value of a `Route`.
pub struct RouteModel {
    pub method: Method,
    pub path: Seq<char>,
    pub handler: Handler,
}

impl View for Route {
    type V = RouteModel;

    open spec fn view(&self) -> RouteModel {
        RouteModel { method: self.method, path: self.path@, handler: self.handler }
    }
}

/// Whether two routes claim the same (method, path) pair.
pub open spec fn routes_conflict(a: RouteModel, b: RouteModel) -> bool {
    a.method == b.method && a.path == b.path
}

/// The route table invariant: no two entries share a (method, path) pair.
pub open spec fn no_conflicts(routes: Seq<RouteModel>) -> bool {
    forall|i: int, j: int|
        0 <= i < j < routes.len() ==> !routes_conflict(
            #[trigger] routes[i],
            #[trigger] routes[j],
        )
}

/// Whether a route serves a request: method and path must agree; query
/// string, headers and body play no part in matching.
pub open spec fn route_matches(r: RouteModel, req: RequestModel) -> bool {
    r.method == req.method && r.path == req.path
}

/// What dispatch returns: the first matching route's handler result, with a
/// handler failure recovered into its client-visible response, or the
/// not-found response when no route matches.
pub open spec fn dispatch_model(routes: Seq<RouteModel>, req: RequestModel) -> ResponseModel
    decreases routes.len(),
{
    if routes.len() == 0 {
        error_model(Error::RouteNotFound)
    } else if route_matches(routes[0], req) {
        match handler_model(routes[0].handler, req) {
            Ok(m) => m,
            Err(e) => error_model(e),
        }
    } else {
        dispatch_model(routes.skip(1), req)
    }
}

/// A failure at table construction: the only way registration can be refused.
#[derive(Clone, Copy, PartialEq, Eq, Structural, Debug)]
pub enum RegisterError {
    /// A route for the same (method, path) pair is already registered.
    Conflict,
}

/// The route table. Built once at startup; dispatch never changes it.
#[derive(Debug)]
pub struct RouteTable {
    routes: Vec<Route>,
}

impl View for RouteTable {
    type V = Seq<RouteModel>;

    closed spec fn view(&self) -> Seq<RouteModel> {
        self.routes@.map_values(|r: Route| r@)
    }
}

impl RouteTable {
    /// The invariant every table this module hands out satisfies.
    pub open spec fn wf(&self) -> bool {
        no_conflicts(self@)
    }

    /// An empty table.
    pub fn new() -> (t: RouteTable)
        ensures
            t@ == Seq::<RouteModel>::empty(),
            t.wf(),
    {
        let t = RouteTable { routes: Vec::new() };
        assert(t@ =~= Seq::<RouteModel>::empty());
        t
    }

    /// Registers a route. A route whose (method, path) pair is already taken
    /// is rejected, and the table is left unchanged; any other route is
    /// appended. A well-formed table stays well-formed either way.
    pub fn register(&mut self, route: Route) -> (r: Result<(), RegisterError>)
        ensures
            (exists|i: int|
                0 <= i < old(self)@.len() && routes_conflict(
                    #[trigger] old(self)@[i],
                    route@,
                )) ==> (r matches Err(e) && e == RegisterError::Conflict && final(self)@ == old(
                self,
            )@),
            (forall|i: int|
                0 <= i < old(self)@.len() ==> !routes_conflict(#[trigger] old(self)@[i], route@))
                ==> (r is Ok && final(self)@ == old(self)@.push(route@)),
            old(self).wf() ==> final(self).wf(),
    {
        let ghost prev = self@;
        let mut i: usize = 0;
        while i < self.routes.len()
            invariant
                i <= self.routes.len(),
                self@ == prev,
                forall|k: int| 0 <= k < i ==> !routes_conflict(#[trigger] prev[k], route@),
            decreases self.routes.len() - i,
        {
            let same_method = self.routes[i].method == route.method;
            let same_path = self.routes[i].path == route.path;
            if same_method && same_path {
                assert(routes_conflict(prev[i as int], route@));
                return Err(RegisterError::Conflict);
            }
            i = i + 1;
        }
        self.routes.push(route);
        assert(self@ =~= prev.push(route@));
        proof {
            if no_conflicts(prev) {
                assert forall|a: int, b: int| 0 <= a < b < self@.len() implies !routes_conflict(
                    self@[a],
                    self@[b],
                ) by {
                    if b < prev.len() {
                        assert(!routes_conflict(prev[a], prev[b]));
                    } else {
                        assert(!routes_conflict(prev[a], route@));
                    }
                }
            }
        }
        Ok(())
    }

    /// Resolves a request through the table: the first matching route's
    /// handler answers, a handler failure becomes its client-visible
    /// response, and an unmatched (method, path) pair becomes the not-found
    /// response.
    pub fn dispatch(&self, req: &Request) -> (r: Response)
        ensures
            r@ == dispatch_model(self@, req@),
    {
        let ghost full = self@;
        let mut i: usize = 0;
        proof {
            assert(full.skip(0) =~= full);
        }
        while i < self.routes.len()
            invariant
                i <= self.routes.len(),
                full == self@,
                dispatch_model(full, req@) == dispatch_model(full.skip(i as int), req@),
            decreases self.routes.len() - i,
        {
            let ghost tail = full.skip(i as int);
            assert(tail[0] == full[i as int]);
            let same_method = self.routes[i].method == req.method;
            let same_path = self.routes[i].path == req.path;
            if same_method && same_path {
                assert(route_matches(tail[0], req@));
                let outcome = run_handler(self.routes[i].handler, req);
                match outcome {
                    Ok(resp) => {
                        return resp;
                    },
                    Err(e) => {
                        return error_response(e);
                    },
                }
            }
            assert(!route_matches(tail[0], req@));
            i = i + 1;
            assert(tail.skip(1) =~= full.skip(i as int));
        }
        assert(full.skip(i as int) =~= Seq::<RouteModel>::empty());
        error_response(Error::RouteNotFound)
    }
}

/// The route bound to the liveness probe.
pub open spec fn health_route_model() -> RouteModel {
    RouteModel { method: Method::Get, path: "/health_check"@, handler: Handler::HealthCheck }
}

/// The route bound to the login form stub.
pub open spec fn login_route_model() -> RouteModel {
    RouteModel { method: Method::Post, path: "/login"@, handler: Handler::Login }
}

/// The table the service runs with: the liveness probe and the login stub.
pub open spec fn default_table_model() -> Seq<RouteModel> {
    seq![health_route_model(), login_route_model()]
}

/// Builds the table the service runs with.
pub fn default_routes() -> (t: RouteTable)
    ensures
        t@ == default_table_model(),
        t.wf(),
{
    let mut t = RouteTable::new();
    let health = Route {
        method: Method::Get,
        path: "/health_check".to_owned(),
        handler: Handler::HealthCheck,
    };
    let _ = t.register(health);
    assert(t@ =~= seq![health_route_model()]);
    let login = Route { method: Method::Post, path: "/login".to_owned(), handler: Handler::Login };
    assert(forall|i: int| 0 <= i < t@.len() ==> #[trigger] t@[i].method == Method::Get);
    let _ = t.register(login);
    assert(t@ =~= default_table_model());
    t
}

/// The liveness probe law: a GET of the probe path is answered with the
/// fixed success response, whatever the query string, headers and body hold.
pub proof fn lemma_health_check_always_ok(req: RequestModel)
    requires
        req.method == Method::Get,
        req.path == "/health_check"@,
    ensures
        dispatch_model(default_table_model(), req) == ok_model(),
{
    assert(route_matches(default_table_model()[0], req));
}

/// The login law: a POST of the login path is answered with the fixed
/// success response exactly when the body spells a valid login form, and
/// with the malformed-request response otherwise.
pub proof fn lemma_login_dispatch(req: RequestModel)
    requires
        req.method == Method::Post,
        req.path == "/login"@,
    ensures
        login_form(req.body) is Some ==> dispatch_model(default_table_model(), req) == ok_model(),
        login_form(req.body) is None ==> dispatch_model(default_table_model(), req) == error_model(
            Error::MalformedRequest,
        ),
{
    let routes = default_table_model();
    let rest = routes.skip(1);
    assert(routes.len() == 2);
    assert(!route_matches(routes[0], req));
    assert(dispatch_model(routes, req) == dispatch_model(rest, req));
    assert(rest.len() == 1);
    assert(rest[0] == routes[1]);
    assert(route_matches(rest[0], req));
    assert(rest[0].handler == Handler::Login);
    if login_form(req.body) is Some {
        assert(handler_model(Handler::Login, req) == Ok::<ResponseModel, Error>(ok_model()));
        assert(dispatch_model(rest, req) == ok_model());
    } else {
        assert(handler_model(Handler::Login, req) == Err::<ResponseModel, Error>(
            Error::MalformedRequest,
        ));
        assert(dispatch_model(rest, req) == error_model(Error::MalformedRequest));
    }
}

/// Dispatch reads nothing but the request's method, path and body: two
/// requests that agree on those three get the same response, whatever their
/// query strings and headers.
pub proof fn lemma_dispatch_ignores_query_and_headers(
    routes: Seq<RouteModel>,
    r1: RequestModel,
    r2: RequestModel,
)
    requires
        r1.method == r2.method,
        r1.path == r2.path,
        r1.body == r2.body,
    ensures
        dispatch_model(routes, r1) == dispatch_model(routes, r2),
    decreases routes.len(),
{
    if routes.len() == 0 {
    } else if route_matches(routes[0], r1) {
    } else {
        lemma_dispatch_ignores_query_and_headers(routes.skip(1), r1, r2);
    }
}

/// Dispatch is idempotent: no state accumulates between requests, so issuing
/// the same request twice yields the same status and body both times.
pub proof fn lemma_dispatch_idempotent(
    routes: Seq<RouteModel>,
    req: RequestModel,
    first: ResponseModel,
    second: ResponseModel,
)
    requires
        first == dispatch_model(routes, req),
        second == dispatch_model(routes, req),
    ensures
        first == second,
{
}

/// Dispatch over a well-formed table is deterministic: at most one route can
/// match a request, so "the first match" is "the match".
pub proof fn lemma_wf_unique_match(routes: Seq<RouteModel>, req: RequestModel, i: int, j: int)
    requires
        no_conflicts(routes),
        0 <= i < routes.len(),
        0 <= j < routes.len(),
        route_matches(routes[i], req),
        route_matches(routes[j], req),
    ensures
        i == j,
{
    if i < j {
        assert(!routes_conflict(routes[i], routes[j]));
    }
    if j < i {
        assert(!routes_conflict(routes[j], routes[i]));
    }
}

/// A request no route matches is answered with the not-found response; the
/// router itself never invents another outcome.
pub proof fn lemma_unmatched_is_not_found(routes: Seq<RouteModel>, req: RequestModel)
    requires
        forall|i: int| 0 <= i < routes.len() ==> !route_matches(#[trigger] routes[i], req),
    ensures
        dispatch_model(routes, req) == error_model(Error::RouteNotFound),
    decreases routes.len(),
{
    if routes.len() > 0 {
        assert forall|i: int| 0 <= i < routes.skip(1).len() implies !route_matches(
            #[trigger] routes.skip(1)[i],
            req,
        ) by {
            assert(routes.skip(1)[i] == routes[i + 1]);
        }
        lemma_unmatched_is_not_found(routes.skip(1), req);
    }
}

} // verus!

