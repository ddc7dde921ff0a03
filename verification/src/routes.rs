//! The closed set of handlers the route table can bind, and the handlers
//! themselves: the liveness probe and the login form stub.
use vstd::prelude::*;

use crate::form::login_form;
use crate::form::parse_login_form;
use crate::http::Error;
use crate::http::Request;
use crate::http::RequestModel;
use crate::http::Response;
use crate::http::ResponseModel;
use crate::http::ok_model;
use crate::http::ok_response;

verus! {

/// The handlers a route can be bound to. The set is closed: dispatch resolves
/// a route to one of these variants once, at table construction, not through
/// per-request reflection.
#[derive(Clone, Copy, PartialEq, Eq, Structural, Debug)]
pub enum Handler {
    HealthCheck,
    Login,
}

/// What a handler returns for a request: the health probe always succeeds
/// with the fixed success response; the login stub succeeds exactly when the
/// body spells a valid login form and otherwise fails as a malformed request.
pub open spec fn handler_model(h: Handler, req: RequestModel) -> Result<ResponseModel, Error> {
    match h {
        Handler::HealthCheck => Ok(ok_model()),
        Handler::Login => if login_form(req.body) is Some {
            Ok(ok_model())
        } else {
            Err(Error::MalformedRequest)
        },
    }
}

/// The liveness probe: no input, no side effects, no failure modes; always
/// the fixed success response.
pub fn health_check() -> (r: Response)
    ensures
        r@ == ok_model(),
{
    ok_response()
}

/// The login form stub: validates that the body is a well-formed url-encoded
/// form carrying both required fields, and returns the fixed success
/// response. No credential check or persistence happens here.
pub fn login(body: &Vec<u8>) -> (r: Result<Response, Error>)
    ensures
        login_form(body@) is Some ==> (r matches Ok(resp) && resp@ == ok_model()),
        login_form(body@) is None ==> (r matches Err(e) && e == Error::MalformedRequest),
{
    match parse_login_form(body) {
        Ok(_form) => Ok(ok_response()),
        Err(e) => Err(e),
    }
}

/// Runs the handler a route resolved to. The result agrees with
/// `handler_model` on the request's value.
pub fn run_handler(h: Handler, req: &Request) -> (r: Result<Response, Error>)
    ensures
        handler_model(h, req@) matches Ok(m) ==> (r matches Ok(resp) && resp@ == m),
        handler_model(h, req@) matches Err(e) ==> (r matches Err(e2) && e2 == e),
{
    match h {
        Handler::HealthCheck => Ok(health_check()),
        Handler::Login => login(&req.body),
    }
}

} // verus!
