//! A minimal HTTP service core: a route table binding (method, path) pairs to
//! a closed set of handlers, the handlers themselves (a liveness probe and a
//! login form stub), and the url-encoded form grammar the login handler
//! accepts. Everything here is pure request-to-response logic; the listener
//! that feeds it lives outside the library.
#![verifier::loop_isolation(false)]

pub mod form;
pub mod http;
pub mod router;
pub mod routes;

pub use form::FormData;
pub use form::parse_login_form;
pub use http::Error;
pub use http::Method;
pub use http::Request;
pub use http::Response;
pub use router::Route;
pub use router::RouteTable;
pub use router::RegisterError;
pub use router::default_routes;
pub use routes::Handler;
pub use routes::health_check;
pub use routes::login;
