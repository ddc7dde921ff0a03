use api_design_rust_v1::Method;
use api_design_rust_v1::Request;
use api_design_rust_v1::Response;
use api_design_rust_v1::default_routes;

fn get(path: &str) -> Request {
    Request {
        method: Method::Get,
        path: path.to_owned(),
        query: String::new(),
        headers: Vec::new(),
        body: Vec::new(),
    }
}

fn post_form(path: &str, body: &str) -> Request {
    Request {
        method: Method::Post,
        path: path.to_owned(),
        query: String::new(),
        headers: vec![(
            "Content-Type".to_owned(),
            "application/x-www-form-urlencoded".to_owned(),
        )],
        body: body.as_bytes().to_vec(),
    }
}

fn send(req: Request) -> Response {
    let table = default_routes();
    table.dispatch(&req)
}

#[test]
fn health_check_works() {
    let response = send(get("/health_check"));

    assert!(response.status == 200);
    assert_eq!(0, response.body.len());
}

#[test]
fn login_returns_a_200_for_valid_form_data() {
    let body = "email=admin%40gmail.com&password=admin1234";
    let response = send(post_form("/login", body));

    assert_eq!(200, response.status);
    assert_eq!(0, response.body.len());
}

#[test]
fn login_returns_a_400_when_data_is_missing() {
    let test_cases = vec![
        ("email=admin%40gmail.com", "missing the password"),
        ("password=admin1234", "missing the email"),
        ("", "missing both email and password"),
    ];

    for (invalid_body, error_message) in test_cases {
        let response = send(post_form("/login", invalid_body));

        assert_eq!(
            400, response.status,
            "The API did not fail with 400 Bad request when the payload was {}.",
            error_message
        );
    }
}

#[test]
fn health_check_ignores_query_string_and_headers() {
    let request = Request {
        method: Method::Get,
        path: "/health_check".to_owned(),
        query: "verbose=1&trace=yes".to_owned(),
        headers: vec![
            ("Accept".to_owned(), "text/html".to_owned()),
            ("X-Request-Id".to_owned(), "12345".to_owned()),
        ],
        body: b"ignored".to_vec(),
    };
    let response = send(request);

    assert_eq!(200, response.status);
    assert_eq!(0, response.body.len());
}

#[test]
fn unknown_path_gets_not_found() {
    let response = send(get("/missing"));
    assert_eq!(404, response.status);
    assert_eq!(0, response.body.len());
}

#[test]
fn wrong_method_gets_not_found() {
    let response = send(post_form("/health_check", ""));
    assert_eq!(404, response.status);

    let response = send(get("/login"));
    assert_eq!(404, response.status);
}

#[test]
fn dispatch_is_idempotent() {
    let body = "email=admin%40gmail.com&password=admin1234";
    let first = send(post_form("/login", body));
    let second = send(post_form("/login", body));

    assert_eq!(first.status, second.status);
    assert_eq!(first.body, second.body);

    let first = send(get("/health_check"));
    let second = send(get("/health_check"));

    assert_eq!(first.status, second.status);
    assert_eq!(first.body, second.body);
}
