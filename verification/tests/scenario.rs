use minihttp::connection::{handle_buffer, DispatchOutcome};
use minihttp::method::Method;
use minihttp::response_entity::ResponseEntityBuilder;
use minihttp::routing::{Endpoint, RouteTable};
use minihttp::status_code::StatusCode;

fn padded(raw: &[u8]) -> Vec<u8> {
    let mut v = raw.to_vec();
    v.resize(4096, 0);
    v
}

#[test]
fn hello_request_dispatches_and_renders_200() {
    let mut table = RouteTable::new();
    table.register(Method::GET, "/hello");

    let buf = padded(b"GET /hello HTTP/1.1\r\nHost: x\r\n\r\n");
    match handle_buffer(&table, &buf) {
        DispatchOutcome::Dispatch { request, endpoint, params } => {
            assert_eq!(request.method, Method::GET);
            assert_eq!(request.path, b"/hello".to_vec());
            assert!(request.headers.is_empty());
            assert!(request.body.is_empty());
            assert!(endpoint == Endpoint::new(Method::GET, "/hello"));
            assert!(params.is_empty());

            let entity = ResponseEntityBuilder::new()
                .with_body("{\"message\": \"Hello, world\"}".to_string())
                .with_status_code(StatusCode::Okay)
                .build();
            let wire = entity.to_bytes();
            let text = String::from_utf8_lossy(&wire).into_owned();
            assert!(text.starts_with("HTTP/1.1 200 Ok\r\n"));
            assert!(text.ends_with("{\"message\": \"Hello, world\"}"));
        },
        DispatchOutcome::Respond(_) => panic!("the registered route should dispatch"),
    }
}

#[test]
fn unrouted_path_yields_the_404_response() {
    let mut table = RouteTable::new();
    table.register(Method::GET, "/items/{id}");

    let buf = padded(b"GET /one HTTP/1.1\r\nHost: x\r\n\r\n");
    match handle_buffer(&table, &buf) {
        DispatchOutcome::Respond(bytes) => {
            let text = String::from_utf8_lossy(&bytes).into_owned();
            assert!(text.starts_with("HTTP/1.1 404 NotFound\r\n"));
            assert!(text.contains("\"status\": 404"));
            assert!(text.contains("\"path\": \"/one\""));
        },
        DispatchOutcome::Dispatch { .. } => panic!("no route matches a one-segment path"),
    }
}

#[test]
fn undecodable_request_yields_the_400_response() {
    let table = RouteTable::new();
    let buf = padded(b"FOO /hello HTTP/1.1\r\nHost: x\r\n\r\n");
    match handle_buffer(&table, &buf) {
        DispatchOutcome::Respond(bytes) => {
            let text = String::from_utf8_lossy(&bytes).into_owned();
            assert!(text.starts_with("HTTP/1.1 400 BadRequest\r\n"));
            assert!(text.contains("Failed to parse request"));
        },
        DispatchOutcome::Dispatch { .. } => panic!("an unknown method cannot dispatch"),
    }
}

#[test]
fn silent_connection_yields_the_400_response() {
    let table = RouteTable::new();
    let buf = vec![0u8; 4096];
    match handle_buffer(&table, &buf) {
        DispatchOutcome::Respond(bytes) => {
            let text = String::from_utf8_lossy(&bytes).into_owned();
            assert!(text.starts_with("HTTP/1.1 400 BadRequest\r\n"));
        },
        DispatchOutcome::Dispatch { .. } => panic!("an empty buffer cannot dispatch"),
    }
}

#[test]
fn placeholder_request_dispatches_with_bindings() {
    let mut table = RouteTable::new();
    table.register(Method::GET, "/items/{id}");

    let buf = padded(b"GET /items/42?sort=asc HTTP/1.1\r\nHost: x\r\n\r\n");
    match handle_buffer(&table, &buf) {
        DispatchOutcome::Dispatch { request, endpoint, params } => {
            assert_eq!(request.path, b"/items/42?sort=asc".to_vec());
            assert!(endpoint == Endpoint::new(Method::GET, "/items/{id}"));
            assert_eq!(
                params,
                vec![
                    (b"id".to_vec(), b"42".to_vec()),
                    (b"sort".to_vec(), b"asc".to_vec()),
                ]
            );
        },
        DispatchOutcome::Respond(_) => panic!("the placeholder route should dispatch"),
    }
}
