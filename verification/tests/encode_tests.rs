use hidouki::encode::{encode_response, error_response, handler_outcome_response, not_found_response};
use hidouki::message::Response;

#[test]
fn response_encodes_to_exact_bytes() {
    let resp = Response {
        status: 200,
        headers: vec![(String::from("Content-Type"), String::from("text/plain"))],
        body: String::from("ok"),
    };
    let bytes = encode_response(&resp).expect("status 200 has a reason phrase");
    assert_eq!(bytes, b"HTTP/1.1 200 OK\r\nContent-Type: text/plain\r\n\r\nok".to_vec());
}

#[test]
fn encoder_synthesizes_no_headers() {
    let resp = Response { status: 200, headers: vec![], body: String::from("bare") };
    let bytes = encode_response(&resp).expect("status 200 has a reason phrase");
    assert_eq!(bytes, b"HTTP/1.1 200 OK\r\n\r\nbare".to_vec());
}

#[test]
fn status_without_reason_phrase_does_not_encode() {
    let resp = Response { status: 299, headers: vec![], body: String::new() };
    assert!(encode_response(&resp).is_none());
    let resp = Response { status: 1000, headers: vec![], body: String::new() };
    assert!(encode_response(&resp).is_none());
}

#[test]
fn handler_failure_becomes_a_500_with_the_description() {
    let resp = handler_outcome_response(Err(String::from("boom")));
    assert_eq!(resp.status, 500);
    assert_eq!(resp.body, "boom");
    assert_eq!(resp.headers.len(), 3);
    assert_eq!(resp.headers[0].0, "Content-Length");
    assert_eq!(resp.headers[0].1, "4");
    assert_eq!(resp.headers[1].0, "Content-Type");
    assert_eq!(resp.headers[1].1, "text/plain");
    assert_eq!(resp.headers[2].0, "Connection");
    assert_eq!(resp.headers[2].1, "close");
    let bytes = encode_response(&resp).expect("status 500 has a reason phrase");
    assert_eq!(
        bytes,
        b"HTTP/1.1 500 Internal Server Error\r\nContent-Length: 4\r\nContent-Type: text/plain\r\nConnection: close\r\n\r\nboom"
            .to_vec()
    );
}

#[test]
fn handler_success_passes_through_verbatim() {
    let resp = Response {
        status: 200,
        headers: vec![(String::from("X"), String::from("y"))],
        body: String::from("fine"),
    };
    let out = handler_outcome_response(Ok(resp));
    assert_eq!(out.status, 200);
    assert_eq!(out.headers.len(), 1);
    assert_eq!(out.body, "fine");
}

#[test]
fn content_length_counts_utf8_bytes() {
    let resp = error_response(String::from("héé"));
    assert_eq!(resp.headers[0].1, "5");
    assert_eq!(resp.body, "héé");
}

#[test]
fn empty_failure_description_has_zero_length() {
    let resp = error_response(String::new());
    assert_eq!(resp.status, 500);
    assert_eq!(resp.body, "");
    assert_eq!(resp.headers[0].1, "0");
}

#[test]
fn missed_route_yields_an_empty_404() {
    let resp = not_found_response();
    assert_eq!(resp.status, 404);
    assert_eq!(resp.body, "");
    assert!(resp.headers.is_empty());
    let bytes = encode_response(&resp).expect("status 404 has a reason phrase");
    assert_eq!(bytes, b"HTTP/1.1 404 Not Found\r\n\r\n".to_vec());
}

#[test]
fn decode_failure_becomes_a_500_before_any_routing() {
    let broken = b"GET / HTTP/1.1\r\nnever finished".to_vec();
    let err = hidouki::decode::parse_head(&broken).err().expect("no terminator, no request");
    let resp = error_response(err.message());
    assert_eq!(resp.status, 500);
    assert_eq!(resp.body, "Malformed http header");
    assert_eq!(resp.headers[0].1, "21");
}
