//! Plain request/response values and the error taxonomy of the service.
use vstd::prelude::*;

verus! {

/// The request methods the route table distinguishes. `Other` stands for any
/// method outside the closed set the routes use; no route is registered for
/// it, so such requests fall through to the not-found response.
#[derive(Clone, Copy, PartialEq, Eq, Structural, Debug)]
pub enum Method {
    Get,
    Post,
    Other,
}

/// A failure on the request path. Every variant is recovered at the framework
/// boundary into a client-visible status; nothing is retried.
#[derive(Clone, Copy, PartialEq, Eq, Structural, Debug)]
pub enum Error {
    /// The request body did not satisfy a handler's required-field contract.
    MalformedRequest,
    /// No route is registered for the request's (method, path) pair.
    RouteNotFound,
}

/// One inbound HTTP request, reduced to the values the core reads: request
/// method, URL path (without the query string), query string, header pairs,
/// and raw body bytes.
#[derive(Debug)]
pub struct Request {
    pub method: Method,
    pub path: String,
    pub query: String,
    pub headers: Vec<(String, String)>,
    pub body: Vec<u8>,
}

/// The mathematical value of a `Request`.
pub struct RequestModel {
    pub method: Method,
    pub path: Seq<char>,
    pub query: Seq<char>,
    pub headers: Seq<(Seq<char>, Seq<char>)>,
    pub body: Seq<u8>,
}

impl View for Request {
    type V = RequestModel;

    open spec fn view(&self) -> RequestModel {
        RequestModel {
            method: self.method,
            path: self.path@,
            query: self.query@,
            headers: self.headers@.map_values(|h: (String, String)| (h.0@, h.1@)),
            body: self.body@,
        }
    }
}

/// One outbound HTTP response: a status code and raw body bytes.
#[derive(Debug)]
pub struct Response {
    pub status: u16,
    pub body: Vec<u8>,
}

/// The mathematical value of a `Response`.
pub struct ResponseModel {
    pub status: u16,
    pub body: Seq<u8>,
}

impl View for Response {
    type V = ResponseModel;

    open spec fn view(&self) -> ResponseModel {
        ResponseModel { status: self.status, body: self.body@ }
    }
}

/// The fixed success response: status 200 with an empty body.
pub open spec fn ok_model() -> ResponseModel {
    ResponseModel { status: 200, body: Seq::empty() }
}

/// The response a request-path error is recovered into: 400 for a malformed
/// body, 404 for an unmatched (method, path) pair. Bodies are empty; only the
/// status carries the outcome.
pub open spec fn error_model(e: Error) -> ResponseModel {
    match e {
        Error::MalformedRequest => ResponseModel { status: 400, body: Seq::empty() },
        Error::RouteNotFound => ResponseModel { status: 404, body: Seq::empty() },
    }
}

/// Builds the fixed success response.
pub fn ok_response() -> (r: Response)
    ensures
        r@ == ok_model(),
{
    let r = Response { status: 200, body: Vec::new() };
    assert(r@.body =~= ok_model().body);
    r
}

/// Recovers a request-path error into its client-visible response.
pub fn error_response(e: Error) -> (r: Response)
    ensures
        r@ == error_model(e),
{
    let status: u16 = match e {
        Error::MalformedRequest => 400,
        Error::RouteNotFound => 404,
    };
    let r = Response { status, body: Vec::new() };
    assert(r@.body =~= error_model(e).body);
    r
}

} // verus!
