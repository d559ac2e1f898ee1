use minihttp::framing::process_buffer;
use minihttp::method::Method;
use minihttp::request::{buffer_to_request, body_up_to_last_brace, DecodeError, RequestObj};
use minihttp::response_entity::{format_headers, ResponseEntityBuilder};
use minihttp::status_code::StatusCode;

fn padded(raw: &[u8]) -> Vec<u8> {
    let mut v = raw.to_vec();
    v.resize(4096, 0);
    v
}

fn segs(frames: &[Vec<u8>]) -> Vec<String> {
    frames.iter().map(|f| String::from_utf8_lossy(f).into_owned()).collect()
}

#[test]
fn framer_splits_lines_and_body() {
    let buf = padded(b"POST /x HTTP/1.1\r\nHost: example\r\nAccept: */*\r\n\r\n{\"k\": 1}");
    let frames = process_buffer(&buf);
    assert_eq!(frames.len(), 4);
    assert_eq!(segs(&frames)[0], "POST /x HTTP/1.1");
    assert_eq!(segs(&frames)[1], "Host: example");
    assert_eq!(segs(&frames)[2], "Accept: */*");
    assert!(frames[3].starts_with(b"{\"k\": 1}"));
}

#[test]
fn framer_without_body_emits_no_json_segment() {
    let buf = padded(b"GET /hello HTTP/1.1\r\nHost: x\r\n\r\n");
    let frames = process_buffer(&buf);
    assert_eq!(segs(&frames), vec!["GET /hello HTTP/1.1", "Host: x"]);
}

#[test]
fn framer_on_silent_buffer_emits_nothing() {
    let buf = vec![0u8; 4096];
    let frames = process_buffer(&buf);
    assert!(frames.is_empty());
}

#[test]
fn decoder_reads_method_path_headers_and_body() {
    let buf = padded(b"POST /x HTTP/1.1\r\nHost:  example \r\nAccept: */*\r\n\r\n{\"k\": 1}");
    let req = buffer_to_request(&process_buffer(&buf)).unwrap();
    assert_eq!(req.method, Method::POST);
    assert_eq!(req.path, b"/x".to_vec());
    assert_eq!(
        req.headers,
        vec![
            (b"Host".to_vec(), b"example".to_vec()),
            (b"Accept".to_vec(), b"*/*".to_vec()),
        ]
    );
    assert_eq!(req.body, b"{\"k\": 1}".to_vec());
}

#[test]
fn decoder_keeps_everything_after_the_first_colon() {
    let buf = padded(b"GET / HTTP/1.1\r\nHost: a:b:c\r\n\r\n{}");
    let req = buffer_to_request(&process_buffer(&buf)).unwrap();
    assert_eq!(req.headers, vec![(b"Host".to_vec(), b"a:b:c".to_vec())]);
}

#[test]
fn header_line_without_colon_contributes_nothing() {
    let buf = padded(b"GET / HTTP/1.1\r\nNotAHeader\r\nHost: x\r\n\r\n{}");
    let req = buffer_to_request(&process_buffer(&buf)).unwrap();
    assert_eq!(req.headers, vec![(b"Host".to_vec(), b"x".to_vec())]);
}

#[test]
fn last_segment_is_never_a_header() {
    let buf = padded(b"GET /hello HTTP/1.1\r\nHost: x\r\n\r\n");
    let req = buffer_to_request(&process_buffer(&buf)).unwrap();
    assert!(req.headers.is_empty());
    assert!(req.body.is_empty());
}

#[test]
fn unknown_method_is_a_decode_error() {
    let buf = padded(b"FOO / HTTP/1.1\r\n\r\n");
    assert!(matches!(
        buffer_to_request(&process_buffer(&buf)),
        Err(DecodeError::UnknownMethod)
    ));
}

#[test]
fn empty_frame_list_is_a_decode_error() {
    let buf = vec![0u8; 4096];
    assert!(matches!(
        buffer_to_request(&process_buffer(&buf)),
        Err(DecodeError::EmptyRequest)
    ));
}

#[test]
fn body_is_cut_after_the_last_closing_brace() {
    let seg = b"{\"k\": {\"n\": 1}}\0\0\0".to_vec();
    assert_eq!(body_up_to_last_brace(&seg), b"{\"k\": {\"n\": 1}}".to_vec());
    let no_brace = b"{\"k\": 1".to_vec();
    assert!(body_up_to_last_brace(&no_brace).is_empty());
}

#[test]
fn request_obj_carries_its_parts() {
    let req = RequestObj::new(
        Method::PUT,
        b"/x".to_vec(),
        vec![(b"K".to_vec(), b"V".to_vec())],
        b"{}".to_vec(),
    );
    assert_eq!(req.method, Method::PUT);
    assert_eq!(req.path, b"/x".to_vec());
    assert_eq!(req.headers, vec![(b"K".to_vec(), b"V".to_vec())]);
    assert_eq!(req.body, b"{}".to_vec());
}

#[test]
fn encoder_renders_the_status_line_headers_and_body() {
    let entity = ResponseEntityBuilder::new()
        .with_status_code(StatusCode::Okay)
        .with_headers(vec![("A".to_string(), "1".to_string())])
        .with_body("{\"a\":\"b\"}".to_string())
        .build();
    assert_eq!(
        entity.to_bytes(),
        b"HTTP/1.1 200 Ok\r\nA: 1\r\n\r\n{\"a\":\"b\"}".to_vec()
    );
}

#[test]
fn encoder_renders_an_absent_body_as_empty() {
    let entity = ResponseEntityBuilder::new()
        .with_status_code(StatusCode::NotFound)
        .build();
    assert_eq!(entity.to_bytes(), b"HTTP/1.1 404 NotFound\r\n\r\n".to_vec());
}

#[test]
fn format_headers_prefixes_each_with_crlf() {
    let hs = vec![
        ("A".to_string(), "1".to_string()),
        ("B".to_string(), "2".to_string()),
    ];
    assert_eq!(format_headers(&hs), "\r\nA: 1\r\nB: 2");
    assert_eq!(format_headers(&Vec::new()), "");
}

#[test]
fn encoder_and_framer_agree_on_json_boundaries() {
    let entity = ResponseEntityBuilder::new()
        .with_status_code(StatusCode::Okay)
        .with_body("{\"a\":\"b\"}".to_string())
        .build();
    let wire = entity.to_bytes();
    let frames = process_buffer(&padded(&wire));
    let last = frames.last().expect("a body segment");
    assert_eq!(body_up_to_last_brace(last), b"{\"a\":\"b\"}".to_vec());
}
