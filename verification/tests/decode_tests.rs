use hidouki::decode::{content_length, header_block_complete, parse_head, with_body};
use hidouki::message::{MalformedRequest, Method, Request, Version};

fn parsed(bytes: &[u8]) -> Request {
    parse_head(&bytes.to_vec()).expect("head should parse")
}

#[test]
fn complete_header_block_is_recognized() {
    assert!(header_block_complete(&b"GET / HTTP/1.1\r\n\r\n".to_vec()));
    assert!(header_block_complete(&b"GET / HTTP/1.1\r\nHost: x\r\n\r\n".to_vec()));
}

#[test]
fn incomplete_header_block_is_not_recognized() {
    assert!(!header_block_complete(&b"".to_vec()));
    assert!(!header_block_complete(&b"GET / HTTP/1.1\r\n".to_vec()));
    assert!(!header_block_complete(&b"GET / HTTP/1.1\r\nHost: x\r\n".to_vec()));
}

#[test]
fn request_line_and_headers_parse() {
    let req = parsed(b"GET /hello HTTP/1.1\r\nHost: example\r\nAccept: */*\r\n\r\n");
    assert_eq!(req.method, Method::Get);
    assert_eq!(req.path, "/hello");
    assert_eq!(req.version, Version::Http11);
    assert_eq!(req.headers.len(), 2);
    assert_eq!(req.headers[0].0, "Host");
    assert_eq!(req.headers[0].1, "example");
    assert_eq!(req.headers[1].0, "Accept");
    assert_eq!(req.headers[1].1, "*/*");
    assert_eq!(req.body, "");
}

#[test]
fn duplicate_headers_keep_wire_order() {
    let req = parsed(b"GET / HTTP/1.0\r\nX: one\r\nX: two\r\n\r\n");
    assert_eq!(req.version, Version::Http10);
    assert_eq!(req.headers[0].1, "one");
    assert_eq!(req.headers[1].1, "two");
}

#[test]
fn header_value_blanks_are_skipped() {
    let req = parsed(b"GET / HTTP/1.1\r\nHost:\t  spaced\r\n\r\n");
    assert_eq!(req.headers[0].1, "spaced");
}

#[test]
fn truncated_head_is_malformed() {
    let r = parse_head(&b"GET /hello HTTP/1.1\r\nHost: ex".to_vec());
    assert_eq!(r.err(), Some(MalformedRequest::Framing));
}

#[test]
fn missing_request_line_token_is_malformed() {
    let r = parse_head(&b"GET /hello\r\n\r\n".to_vec());
    assert_eq!(r.err(), Some(MalformedRequest::Framing));
}

#[test]
fn unknown_method_is_malformed() {
    let r = parse_head(&b"BREW / HTTP/1.1\r\n\r\n".to_vec());
    assert_eq!(r.err(), Some(MalformedRequest::Framing));
}

#[test]
fn unsupported_version_is_malformed() {
    let r = parse_head(&b"GET / HTTP/2.0\r\n\r\n".to_vec());
    assert_eq!(r.err(), Some(MalformedRequest::Framing));
}

#[test]
fn header_line_without_colon_is_malformed() {
    let r = parse_head(&b"GET / HTTP/1.1\r\nbroken line\r\n\r\n".to_vec());
    assert_eq!(r.err(), Some(MalformedRequest::Framing));
}

#[test]
fn sixteen_headers_parse_but_seventeen_do_not() {
    let mut sixteen = b"GET / HTTP/1.1\r\n".to_vec();
    for i in 0..16 {
        sixteen.extend_from_slice(format!("H{}: v\r\n", i).as_bytes());
    }
    let mut seventeen = sixteen.clone();
    sixteen.extend_from_slice(b"\r\n");
    let req = parse_head(&sixteen).expect("sixteen headers are within the cap");
    assert_eq!(req.headers.len(), 16);
    seventeen.extend_from_slice(b"H16: v\r\n\r\n");
    assert_eq!(parse_head(&seventeen).err(), Some(MalformedRequest::Framing));
}

#[test]
fn non_utf8_path_is_malformed() {
    let r = parse_head(&b"GET /\xff\xfe HTTP/1.1\r\n\r\n".to_vec());
    assert_eq!(r.err(), Some(MalformedRequest::Framing));
}

#[test]
fn no_content_length_means_no_body() {
    let req = parsed(b"GET / HTTP/1.1\r\nHost: x\r\n\r\n");
    assert_eq!(content_length(&req), Ok(None));
    let req = with_body(req, None).expect("empty body always attaches");
    assert_eq!(req.body, "");
}

#[test]
fn content_length_governs_the_body() {
    let req = parsed(b"POST /submit HTTP/1.1\r\nContent-Length: 5\r\n\r\n");
    assert_eq!(req.method, Method::Post);
    assert_eq!(content_length(&req), Ok(Some(5)));
    let req = with_body(req, Some(b"hello".to_vec())).expect("utf-8 body attaches");
    assert_eq!(req.body, "hello");
    assert_eq!(req.body.len(), 5);
}

#[test]
fn first_content_length_wins() {
    let req = parsed(b"POST / HTTP/1.1\r\nContent-Length: 2\r\nContent-Length: 9\r\n\r\n");
    assert_eq!(content_length(&req), Ok(Some(2)));
}

#[test]
fn content_length_zero_is_accepted() {
    let req = parsed(b"POST / HTTP/1.1\r\nContent-Length: 0\r\n\r\n");
    assert_eq!(content_length(&req), Ok(Some(0)));
}

#[test]
fn non_numeric_content_length_is_rejected() {
    let req = parsed(b"POST / HTTP/1.1\r\nContent-Length: five\r\n\r\n");
    assert_eq!(content_length(&req), Err(MalformedRequest::ContentLength));
}

#[test]
fn empty_content_length_is_rejected() {
    let req = parsed(b"POST / HTTP/1.1\r\nContent-Length:\r\n\r\n");
    assert_eq!(content_length(&req), Err(MalformedRequest::ContentLength));
}

#[test]
fn negative_content_length_is_rejected() {
    let req = parsed(b"POST / HTTP/1.1\r\nContent-Length: -4\r\n\r\n");
    assert_eq!(content_length(&req), Err(MalformedRequest::ContentLength));
}

#[test]
fn oversized_content_length_is_rejected() {
    let req = parsed(b"POST / HTTP/1.1\r\nContent-Length: 99999999999999999999999999\r\n\r\n");
    assert_eq!(content_length(&req), Err(MalformedRequest::ContentLength));
}

#[test]
fn non_utf8_body_is_rejected() {
    let req = parsed(b"POST / HTTP/1.1\r\nContent-Length: 2\r\n\r\n");
    let r = with_body(req, Some(vec![0xff, 0xfe]));
    assert!(matches!(r, Err(MalformedRequest::BodyUtf8)));
}

#[test]
fn multibyte_utf8_body_is_decoded() {
    let req = parsed(b"POST / HTTP/1.1\r\nContent-Length: 5\r\n\r\n");
    let req = with_body(req, Some("héé".as_bytes().to_vec())).expect("valid utf-8");
    assert_eq!(req.body, "héé");
}

#[test]
fn failure_descriptions_are_fixed() {
    assert_eq!(MalformedRequest::Framing.message(), "Malformed http header");
    assert_eq!(MalformedRequest::ContentLength.message(), "invalid content-length value");
    assert_eq!(MalformedRequest::BodyUtf8.message(), "request body is not valid utf-8");
}

#[test]
fn bytes_after_the_terminator_are_not_part_of_a_head() {
    let r = parse_head(&b"GET / HTTP/1.1\r\n\r\nextra".to_vec());
    assert_eq!(r.err(), Some(MalformedRequest::Framing));
}

#[test]
fn empty_buffer_is_malformed() {
    let r = parse_head(&Vec::new());
    assert_eq!(r.err(), Some(MalformedRequest::Framing));
}

#[test]
fn trailing_blanks_are_trimmed_from_values() {
    let req = parsed(b"POST / HTTP/1.1\r\nContent-Length: 5 \r\nHost: x \t \r\n\r\n");
    assert_eq!(req.headers[0].1, "5");
    assert_eq!(req.headers[1].1, "x");
    assert_eq!(content_length(&req), Ok(Some(5)));
}

#[test]
fn blank_in_header_name_is_malformed() {
    let r = parse_head(&b"POST / HTTP/1.1\r\nContent-Length : 5\r\n\r\n".to_vec());
    assert_eq!(r.err(), Some(MalformedRequest::Framing));
}

#[test]
fn all_blank_value_trims_to_empty() {
    let req = parsed(b"GET / HTTP/1.1\r\nHost: \t \r\n\r\n");
    assert_eq!(req.headers[0].1, "");
}
