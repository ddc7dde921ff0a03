use api_design_rust_v1::Handler;
use api_design_rust_v1::Method;
use api_design_rust_v1::RegisterError;
use api_design_rust_v1::Route;
use api_design_rust_v1::RouteTable;

fn route(method: Method, path: &str, handler: Handler) -> Route {
    Route {
        method,
        path: path.to_owned(),
        handler,
    }
}

#[test]
fn duplicate_route_is_rejected_at_construction() {
    let mut table = RouteTable::new();
    assert!(table
        .register(route(Method::Get, "/health_check", Handler::HealthCheck))
        .is_ok());
    let second = table.register(route(Method::Get, "/health_check", Handler::HealthCheck));
    assert_eq!(second.unwrap_err(), RegisterError::Conflict);
}

#[test]
fn same_pair_with_another_handler_is_still_rejected() {
    let mut table = RouteTable::new();
    assert!(table.register(route(Method::Post, "/login", Handler::Login)).is_ok());
    let second = table.register(route(Method::Post, "/login", Handler::HealthCheck));
    assert_eq!(second.unwrap_err(), RegisterError::Conflict);
}

#[test]
fn same_path_under_another_method_is_accepted() {
    let mut table = RouteTable::new();
    assert!(table.register(route(Method::Get, "/login", Handler::HealthCheck)).is_ok());
    assert!(table.register(route(Method::Post, "/login", Handler::Login)).is_ok());
}

#[test]
fn same_method_under_another_path_is_accepted() {
    let mut table = RouteTable::new();
    assert!(table.register(route(Method::Get, "/health_check", Handler::HealthCheck)).is_ok());
    assert!(table.register(route(Method::Get, "/status", Handler::HealthCheck)).is_ok());
}
