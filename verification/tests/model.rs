use minihttp::default_returns::{DefaultReturns, ReturnBody, return_default_404};
use minihttp::method::Method;
use minihttp::response_entity::ResponseEntityBuilder;
use minihttp::status_code::StatusCode;

#[test]
fn builder_accumulates_fields() {
    let b = ResponseEntityBuilder::new();
    assert!(b.body.is_none());
    assert!(b.headers.is_empty());
    assert!(matches!(b.status, StatusCode::Okay));
    let e = b
        .with_status_code(StatusCode::Created)
        .with_headers(vec![("K".to_string(), "V".to_string())])
        .with_body("{}".to_string())
        .build();
    assert_eq!(e.body, Some("{}".to_string()));
    assert_eq!(e.headers, vec![("K".to_string(), "V".to_string())]);
    assert!(matches!(e.status, StatusCode::Created));
}

#[test]
fn status_numbers_are_the_documented_codes() {
    assert_eq!(StatusCode::Okay.status_number(), 200);
    assert_eq!(StatusCode::Created.status_number(), 201);
    assert_eq!(StatusCode::Accepted.status_number(), 202);
    assert_eq!(StatusCode::BadRequest.status_number(), 400);
    assert_eq!(StatusCode::Unauthorized.status_number(), 401);
    assert_eq!(StatusCode::Forbidden.status_number(), 403);
    assert_eq!(StatusCode::NotFound.status_number(), 404);
    assert_eq!(StatusCode::InternalServerError.status_number(), 500);
    assert_eq!(StatusCode::Other((599, "Custom".to_string())).status_number(), 599);
}

#[test]
fn reason_phrases_match_the_variants() {
    assert_eq!(StatusCode::Okay.reason_phrase(), "Ok");
    assert_eq!(StatusCode::Created.reason_phrase(), "Created");
    assert_eq!(StatusCode::Accepted.reason_phrase(), "Accepted");
    assert_eq!(StatusCode::BadRequest.reason_phrase(), "BadRequest");
    assert_eq!(StatusCode::Unauthorized.reason_phrase(), "Unauthorized");
    assert_eq!(StatusCode::Forbidden.reason_phrase(), "Forbidden");
    assert_eq!(StatusCode::NotFound.reason_phrase(), "NotFound");
    assert_eq!(
        StatusCode::InternalServerError.reason_phrase(),
        "Internal Server Error"
    );
    assert_eq!(
        StatusCode::Other((599, "Custom".to_string())).reason_phrase(),
        "Custom"
    );
}

#[test]
fn method_tokens_parse_to_their_variants() {
    let cases = [
        ("GET", Method::GET),
        ("HEAD", Method::HEAD),
        ("POST", Method::POST),
        ("PUT", Method::PUT),
        ("DELETE", Method::DELETE),
        ("CONNECT", Method::CONNECT),
        ("OPTIONS", Method::OPTIONS),
        ("TRACE", Method::TRACE),
        ("PATCH", Method::PATCH),
    ];
    for (tok, m) in cases {
        assert_eq!(Method::from_str(tok), Ok(m));
        assert_eq!(m.as_str(), tok);
    }
    assert_eq!(Method::from_str("get"), Err(()));
    assert_eq!(Method::from_str(""), Err(()));
    assert_eq!(Method::from_str("GETS"), Err(()));
}

#[test]
fn return_body_renders_its_json_shape() {
    let b = ReturnBody::new(None, "m".to_string(), "d".to_string());
    assert_eq!(
        b.to_string_body(),
        "{\"error\": null, \"message\": \"m\", \"detail\": \"d\"}"
    );
    let b2 = ReturnBody::new(Some("E".to_string()), "m".to_string(), "d".to_string());
    assert_eq!(
        b2.to_string_body(),
        "{\"error\": \"E\", \"message\": \"m\", \"detail\": \"d\"}"
    );
}

#[test]
fn return_body_default_is_the_stock_unknown_error() {
    let b = ReturnBody::default();
    assert!(b.error.is_none());
    assert_eq!(b.message, "No message available");
    assert_eq!(b.detail, "A unknown internal error ocurred.");
}

#[test]
fn not_found_wraps_the_body_in_a_404_response() {
    let b = ReturnBody::new(None, "m".to_string(), "d".to_string());
    assert_eq!(
        DefaultReturns::not_found(&b),
        b"HTTP/1.1 404 NotFound\r\nContent-Type: application/json\r\n\r\n{\"error\": null, \"message\": \"m\", \"detail\": \"d\"}".to_vec()
    );
}

#[test]
fn internal_error_with_a_body_carries_it() {
    let b = ReturnBody::new(Some("boom".to_string()), "m".to_string(), "d".to_string());
    assert_eq!(
        DefaultReturns::internal_error(Some(b)),
        b"HTTP/1.1 500 Internal Server Error\r\nContent-Type: application/json\r\n\r\n{\"error\": \"boom\", \"message\": \"m\", \"detail\": \"d\"}".to_vec()
    );
}

#[test]
fn other_status_renders_its_own_code_and_phrase() {
    let e = ResponseEntityBuilder::new()
        .with_status_code(StatusCode::Other((5, "X".to_string())))
        .build();
    assert_eq!(e.to_bytes(), b"HTTP/1.1 5 X\r\n\r\n".to_vec());
}

#[test]
fn internal_error_without_a_body_uses_the_stock_one() {
    let bytes = DefaultReturns::internal_error(None);
    let text = String::from_utf8_lossy(&bytes).into_owned();
    assert!(text.starts_with("HTTP/1.1 500 Internal Server Error\r\n"));
    assert!(text.contains("A unknown internal error ocurred."));
}

#[test]
fn func_not_found_names_the_method_and_path() {
    let bytes = DefaultReturns::func_not_found(Method::GET, "/missing");
    let text = String::from_utf8_lossy(&bytes).into_owned();
    assert!(text.starts_with("HTTP/1.1 404 NotFound\r\n"));
    assert!(text.contains("Function for method GET and path /missing doesn't exist"));
}

#[test]
fn default_404_echoes_the_path() {
    let bytes = return_default_404(&b"/nope".to_vec());
    let text = String::from_utf8_lossy(&bytes).into_owned();
    assert!(text.starts_with("HTTP/1.1 404 NotFound\r\nContent-Type: application/json\r\n\r\n"));
    assert!(text.contains("\"status\": 404"));
    assert!(text.contains("\"path\": \"/nope\""));
}
