//! The server value: an ordered route table, a default response, and the
//! per-request dispatch decision. The embedding application owns the
//! listening socket and the accept loop; it hands each connection's bytes
//! to `dispatch`, invokes the selected handler itself, and writes the
//! serialized result back.

use vstd::prelude::*;

use crate::HttpError;
use crate::http_route::HttpMethod;
use crate::http_route::HttpRoute;
use crate::http_route::MethodV;
use crate::http_route::method_eq;
use crate::request::Request;
use crate::request::ReqView;
use crate::request::parse_request;
use crate::request::parse_request_spec;
use crate::response::Response;
use crate::response::bad_request_response;
use crate::response::bad_request_view;
use crate::response::not_found_response;
use crate::response::not_found_view;
use crate::wire::bytes_eq;
use vstd::string::StrSliceExecFns;
use vstd::string::StringSliceAdditionalSpecFns;

verus! {

broadcast use vstd::group_vstd_default;

/// A server: routes in registration order (the match-priority order) and
/// the response returned when no route matches.
pub struct HttpServer<H> {
    pub routes: Vec<HttpRoute<H>>,
    pub default_response: Response,
}

/// Whether a registered route answers a request: its path equals the
/// request path exactly, and its method is the request method or `ANY`.
pub open spec fn route_matches<H>(r: HttpRoute<H>, m: MethodV, p: Seq<u8>) -> bool {
    r.path@ == p && (r.method@ == m || r.method@ is ANY)
}

/// What `dispatch` decided for one request's bytes.
pub enum Dispatched {
    /// The bytes did not parse; write this stock `400`.
    BadRequest(Response),
    /// The request parsed but no route matches; write this copy of the
    /// server's default response.
    NoRoute(Response),
    /// The request parsed and the route at this index is the first match;
    /// invoke its handler on the request.
    Route(usize, Request),
}

impl<H> HttpServer<H> {
    /// A server with no routes and the stock `404` default response.
    pub fn new() -> (s: Self)
        ensures
            s.routes@.len() == 0,
            s.default_response@ == not_found_view(),
    {
        HttpServer { routes: Vec::new(), default_response: not_found_response() }
    }

    /// Registers a route; later lookups prefer earlier registrations.
    pub fn route(self, method: HttpMethod, path: &str, handler: H) -> (r: Self)
        requires
            path@.len() > 0,
        ensures
            r.routes@.len() == self.routes@.len() + 1,
            forall|k: int| 0 <= k < self.routes@.len() ==> r.routes@[k] == self.routes@[k],
            r.routes@.last().method@ == method@,
            r.routes@.last().path@ == path.spec_bytes(),
            r.routes@.last().handler == handler,
            r.default_response == self.default_response,
    {
        let mut s = self;
        s.routes.push(HttpRoute { method, path: path.as_bytes_vec(), handler });
        s
    }

    /// Registers a `GET` route.
    pub fn get(self, path: &str, handler: H) -> (r: Self)
        requires
            path@.len() > 0,
        ensures
            r.routes@.len() == self.routes@.len() + 1,
            forall|k: int| 0 <= k < self.routes@.len() ==> r.routes@[k] == self.routes@[k],
            r.routes@.last().method@ == MethodV::GET,
            r.routes@.last().path@ == path.spec_bytes(),
            r.routes@.last().handler == handler,
            r.default_response == self.default_response,
    {
        self.route(HttpMethod::GET, path, handler)
    }

    /// Registers a `POST` route.
    pub fn post(self, path: &str, handler: H) -> (r: Self)
        requires
            path@.len() > 0,
        ensures
            r.routes@.len() == self.routes@.len() + 1,
            forall|k: int| 0 <= k < self.routes@.len() ==> r.routes@[k] == self.routes@[k],
            r.routes@.last().method@ == MethodV::POST,
            r.routes@.last().path@ == path.spec_bytes(),
            r.routes@.last().handler == handler,
            r.default_response == self.default_response,
    {
        self.route(HttpMethod::POST, path, handler)
    }

    /// Registers a `PUT` route.
    pub fn put(self, path: &str, handler: H) -> (r: Self)
        requires
            path@.len() > 0,
        ensures
            r.routes@.len() == self.routes@.len() + 1,
            forall|k: int| 0 <= k < self.routes@.len() ==> r.routes@[k] == self.routes@[k],
            r.routes@.last().method@ == MethodV::PUT,
            r.routes@.last().path@ == path.spec_bytes(),
            r.routes@.last().handler == handler,
            r.default_response == self.default_response,
    {
        self.route(HttpMethod::PUT, path, handler)
    }

    /// Registers a `DELETE` route.
    pub fn delete(self, path: &str, handler: H) -> (r: Self)
        requires
            path@.len() > 0,
        ensures
            r.routes@.len() == self.routes@.len() + 1,
            forall|k: int| 0 <= k < self.routes@.len() ==> r.routes@[k] == self.routes@[k],
            r.routes@.last().method@ == MethodV::DELETE,
            r.routes@.last().path@ == path.spec_bytes(),
            r.routes@.last().handler == handler,
            r.default_response == self.default_response,
    {
        self.route(HttpMethod::DELETE, path, handler)
    }

    /// Registers a route that matches every method.
    pub fn any(self, path: &str, handler: H) -> (r: Self)
        requires
            path@.len() > 0,
        ensures
            r.routes@.len() == self.routes@.len() + 1,
            forall|k: int| 0 <= k < self.routes@.len() ==> r.routes@[k] == self.routes@[k],
            r.routes@.last().method@ == MethodV::ANY,
            r.routes@.last().path@ == path.spec_bytes(),
            r.routes@.last().handler == handler,
            r.default_response == self.default_response,
    {
        self.route(HttpMethod::ANY, path, handler)
    }

    /// Index of the first route, in registration order, whose path equals
    /// the query path and whose method equals the query method or is
    /// `ANY`; `None` when no route matches.
    pub fn match_route(&self, method: &HttpMethod, path: &[u8]) -> (r: Option<usize>)
        ensures
            match r {
                Some(i) => i < self.routes@.len() && route_matches(
                    self.routes@[i as int],
                    method@,
                    path@,
                ) && forall|j: int|
                    0 <= j < i ==> !route_matches(self.routes@[j], method@, path@),
                None => forall|j: int|
                    0 <= j < self.routes@.len() ==> !route_matches(
                        self.routes@[j],
                        method@,
                        path@,
                    ),
            },
    {
        let mut i: usize = 0;
        while i < self.routes.len()
            invariant
                i <= self.routes@.len(),
                forall|j: int| 0 <= j < i ==> !route_matches(self.routes@[j], method@, path@),
            decreases self.routes@.len() - i,
        {
            let entry = &self.routes[i];
            let path_hit = bytes_eq(entry.path.as_slice(), path);
            let method_hit = match &entry.method {
                HttpMethod::ANY => true,
                _ => method_eq(&entry.method, method),
            };
            if path_hit && method_hit {
                return Some(i);
            }
            i = i + 1;
        }
        None
    }

    /// The per-connection decision: parse the bytes, then either turn a
    /// parse failure into the stock `400`, fall back to a copy of the
    /// default response when no route matches, or name the first matching
    /// route so the caller can invoke its handler.
    pub fn dispatch(&self, input: &[u8]) -> (d: Dispatched)
        ensures
            match d {
                Dispatched::BadRequest(resp) => parse_request_spec(input@) is Err && resp@
                    == bad_request_view(),
                Dispatched::NoRoute(resp) => {
                    &&& parse_request_spec(input@) is Ok
                    &&& forall|j: int|
                        0 <= j < self.routes@.len() ==> !route_matches(
                            self.routes@[j],
                            parse_request_spec(input@)->Ok_0.method,
                            parse_request_spec(input@)->Ok_0.path,
                        )
                    &&& resp@ == self.default_response@
                },
                Dispatched::Route(i, req) => {
                    &&& parse_request_spec(input@) == Ok::<ReqView, HttpError>(req@)
                    &&& i < self.routes@.len()
                    &&& route_matches(self.routes@[i as int], req@.method, req@.path)
                    &&& forall|j: int|
                        0 <= j < i ==> !route_matches(self.routes@[j], req@.method, req@.path)
                },
            },
    {
        match parse_request(input) {
            Err(_) => Dispatched::BadRequest(bad_request_response()),
            Ok(req) => match self.match_route(&req.method, req.path.as_slice()) {
                None => Dispatched::NoRoute(self.default_response.clone()),
                Some(i) => Dispatched::Route(i, req),
            },
        }
    }
}

} // verus!
