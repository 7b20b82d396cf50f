use fcp_rust::lsp::transport::{decode_body, BodyError, encode_message, finish_headers, message_route, read_header_line, HeaderLine, MessageRoute};

#[test]
fn test_encode_message() {
    let body = b"{\"jsonrpc\":\"2.0\"}";
    let encoded = encode_message(body);
    let expected = format!("Content-Length: {}\r\n\r\n{{\"jsonrpc\":\"2.0\"}}", body.len());
    assert_eq!(encoded, expected.as_bytes());
}

#[test]
fn encode_empty_body() {
    assert_eq!(encode_message(b""), b"Content-Length: 0\r\n\r\n".to_vec());
}

#[test]
fn header_line_content_length() {
    assert_eq!(read_header_line(b"Content-Length: 42\r\n"), Ok(HeaderLine::ContentLength(42)));
    assert_eq!(read_header_line(b"Content-Length:7\n"), Ok(HeaderLine::ContentLength(7)));
}

#[test]
fn header_line_end_and_other() {
    assert_eq!(read_header_line(b"\r\n"), Ok(HeaderLine::End));
    assert_eq!(read_header_line(b"Content-Type: application/json\r\n"), Ok(HeaderLine::Other));
}

#[test]
fn test_decode_invalid_header() {
    let r = read_header_line(b"Content-Length: abc\r\n");
    assert_eq!(r, Err("invalid Content-Length: invalid digit found in string".to_string()));
    let r = read_header_line(b"Content-Length: \r\n");
    assert_eq!(r, Err("invalid Content-Length: cannot parse integer from empty string".to_string()));
}

#[test]
fn test_decode_missing_content_length() {
    assert_eq!(finish_headers(None), Err("missing Content-Length header".to_string()));
    assert_eq!(finish_headers(Some(3)), Ok(3));
}

#[test]
fn messages_are_routed_by_id_and_method() {
    assert_eq!(message_route(true, false), MessageRoute::Response);
    assert_eq!(message_route(false, true), MessageRoute::Notification);
    assert_eq!(message_route(true, true), MessageRoute::Ignore);
    assert_eq!(message_route(false, false), MessageRoute::Ignore);
}

#[test]
fn header_line_length_with_plus_and_overflow() {
    assert_eq!(read_header_line(b"Content-Length: +7\r\n"), Ok(HeaderLine::ContentLength(7)));
    assert_eq!(
        read_header_line(b"Content-Length: 99999999999999999999999999\r\n"),
        Err("invalid Content-Length: number too large to fit in target type".to_string())
    );
    assert_eq!(read_header_line(b"\xe3\x80\x80Content-Length:\t12 \r\n"), Ok(HeaderLine::ContentLength(12)));
}

#[test]
fn header_line_with_invalid_utf8_is_another_header() {
    assert_eq!(read_header_line(b"\xffContent-Length: 5\r\n"), Ok(HeaderLine::Other));
    assert_eq!(read_header_line(b"X-Junk: \xff\xfe\r\n"), Ok(HeaderLine::Other));
}

#[test]
fn body_is_read_as_json() {
    let v = decode_body(7, b"{\"a\":1}xyz").unwrap();
    assert_eq!(v, serde_json::Value::from(serde_json::Map::from_iter([("a".to_string(), serde_json::Value::from(1))])));
    assert_eq!(decode_body(10, b"{}"), Err(BodyError::Truncated));
    assert!(matches!(decode_body(2, b"{x"), Err(BodyError::Json(_))));
    assert_eq!(decode_body(2, b"{}").unwrap(), serde_json::Value::Object(serde_json::Map::new()));
}
