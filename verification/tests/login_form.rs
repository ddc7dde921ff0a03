use api_design_rust_v1::Error;
use api_design_rust_v1::health_check;
use api_design_rust_v1::login;
use api_design_rust_v1::parse_login_form;

fn bytes(s: &str) -> Vec<u8> {
    s.as_bytes().to_vec()
}

#[test]
fn health_check_handler_returns_success() {
    let response = health_check();
    assert_eq!(200, response.status);
    assert!(response.body.is_empty());
}

#[test]
fn valid_form_decodes_both_fields() {
    let form = parse_login_form(&bytes("email=admin%40gmail.com&password=admin1234")).unwrap();
    assert_eq!(form.email, bytes("admin@gmail.com"));
    assert_eq!(form.password, bytes("admin1234"));
}

#[test]
fn plus_and_percent_escapes_decode_to_bytes() {
    let form = parse_login_form(&bytes("email=a+b%2Bc&password=%41%6221%20x")).unwrap();
    assert_eq!(form.email, bytes("a b+c"));
    assert_eq!(form.password, bytes("Ab21 x"));
}

#[test]
fn missing_field_is_malformed() {
    assert_eq!(
        parse_login_form(&bytes("email=admin%40gmail.com")).unwrap_err(),
        Error::MalformedRequest
    );
    assert_eq!(
        parse_login_form(&bytes("password=admin1234")).unwrap_err(),
        Error::MalformedRequest
    );
    assert_eq!(parse_login_form(&bytes("")).unwrap_err(), Error::MalformedRequest);
}

#[test]
fn stray_percent_is_malformed() {
    assert!(parse_login_form(&bytes("email=a%2&password=b")).is_err());
    assert!(parse_login_form(&bytes("email=a%zz&password=b")).is_err());
    assert!(parse_login_form(&bytes("email=a&password=b%")).is_err());
}

#[test]
fn escaped_key_decodes_before_matching() {
    // Keys are percent-decoded like values, so `emai%6C` is the key `email`.
    let result = parse_login_form(&bytes("emai%6C=a&password=b"));
    assert!(result.is_ok());
    assert_eq!(result.unwrap().email, bytes("a"));
}

#[test]
fn repeated_field_is_malformed() {
    assert!(parse_login_form(&bytes("email=a&email=b&password=c")).is_err());
    assert!(parse_login_form(&bytes("email=a&password=b&password=c")).is_err());
}

#[test]
fn unknown_fields_are_ignored() {
    let form = parse_login_form(&bytes("remember=yes&email=a&password=b&theme=dark")).unwrap();
    assert_eq!(form.email, bytes("a"));
    assert_eq!(form.password, bytes("b"));
}

#[test]
fn empty_segments_are_skipped() {
    let form = parse_login_form(&bytes("&&email=a&&password=b&")).unwrap();
    assert_eq!(form.email, bytes("a"));
    assert_eq!(form.password, bytes("b"));
}

#[test]
fn field_without_equals_has_empty_value() {
    let form = parse_login_form(&bytes("email&password")).unwrap();
    assert!(form.email.is_empty());
    assert!(form.password.is_empty());
}

#[test]
fn login_handler_matches_parse_outcome() {
    let ok = login(&bytes("email=a&password=b")).unwrap();
    assert_eq!(200, ok.status);
    assert!(ok.body.is_empty());

    let err = login(&bytes("email=a")).unwrap_err();
    assert_eq!(err, Error::MalformedRequest);
}
