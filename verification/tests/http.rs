use punchhole::endpoint::Endpoint;
use punchhole::http::{
    HttpError, HttpVersion, MAX_HTTP_HEADERS, ResponseKind, classify_response_status, http_head_request,
    is_http_field_value_byte, is_http_token_byte, parse_status_line, push_header_byte, trim_ascii,
    validate_http_response, validate_http_response_block,
};

#[test]
fn requires_persistent_http_responses() {
    assert!(validate_http_response(b"HTTP/1.1 200 OK\r\n\r\n").is_ok());
    assert!(validate_http_response(b"HTTP/1.1 404 Not Found\r\n\r\n").is_ok());
    assert!(validate_http_response(b"HTTP/1.1 500 Server Error\r\n\r\n").is_ok());
    assert!(validate_http_response(b"HTTP/1.1 599 Error\r\n\r\n").is_ok());
    assert!(validate_http_response(b"HTTP/1.1 100 Continue\r\n\r\n").is_err());
    assert!(validate_http_response(b"HTTP/1.1 600 Error\r\n\r\n").is_err());
    assert!(validate_http_response(b"HTTP/1.1 200 OK\r\nConnection: CLOSE\r\n\r\n").is_err());
    assert!(
        validate_http_response(b"HTTP/1.1 200 OK\r\nConnection: keep-alive, close\r\n\r\n")
            .is_err()
    );
    assert!(
        validate_http_response(b"HTTP/1.0 200 OK\r\nConnection: keep-alive, close\r\n\r\n")
            .is_err()
    );
    assert!(validate_http_response(b"HTTP/1.0 200 OK\r\n\r\n").is_err());
    assert!(
        validate_http_response(b"HTTP/1.0 404 Not Found\r\nConnection: keep-alive\r\n\r\n").is_ok()
    );
    assert!(validate_http_response(b"HTTP/1.1 0200 OK\r\n\r\n").is_err());
    assert!(validate_http_response(b"HTTP/1.0 200 OK\r\nconnection: Keep-Alive\r\n\r\n").is_ok());
}

#[test]
fn rejects_malformed_status_line_separators() {
    assert!(validate_http_response(b" HTTP/1.1 200 OK\r\n\r\n").is_err());
    assert!(validate_http_response(b"HTTP/1.1\t200 OK\r\n\r\n").is_err());
    assert!(validate_http_response(b"HTTP/1.1 200\tOK\r\n\r\n").is_err());
    assert!(validate_http_response(b"HTTP/1.1  200 OK\r\n\r\n").is_err());
    assert!(validate_http_response(b"HTTP/1.1 200\r\n\r\n").is_err());
}

#[test]
fn rejects_invalid_header_field_names() {
    assert!(validate_http_response(b"HTTP/1.1 200 OK\r\nBad Header: value\r\n\r\n").is_err());
    assert!(validate_http_response(b"HTTP/1.1 200 OK\r\n Header: value\r\n\r\n").is_err());
    assert!(validate_http_response(b"HTTP/1.1 200 OK\r\nHeader : value\r\n\r\n").is_err());
    assert!(validate_http_response(b"HTTP/1.1 200 OK\r\nGood-Header: value\r\n\r\n").is_ok());
}

#[test]
fn rejects_control_bytes_in_header_field_values() {
    assert!(validate_http_response(b"HTTP/1.1 200 OK\r\nConnection: close\x01\r\n\r\n").is_err());
    assert!(validate_http_response(b"HTTP/1.1 200 OK\r\nHeader: value\x7f\r\n\r\n").is_err());
    assert!(validate_http_response(b"HTTP/1.1 200 OK\r\nHeader: value\tmore\r\n\r\n").is_ok());
}

#[test]
fn accepts_horizontal_tab_in_reason_phrase() {
    assert!(validate_http_response(b"HTTP/1.1 200 OK\tready\r\n\r\n").is_ok());
}

#[test]
fn rejects_bare_header_line_endings() {
    assert!(validate_http_response(b"HTTP/1.1 200 OK\nHeader: value\r\n\r\n").is_err());
    assert!(
        validate_http_response(b"HTTP/1.1 200 OK\r\nHeader: value\rHeader-2: value\r\n\r\n")
            .is_err()
    );
}

#[test]
fn rejects_invalid_connection_options() {
    assert!(validate_http_response(b"HTTP/1.1 200 OK\r\nConnection: close;foo\r\n\r\n").is_err());
    assert!(
        validate_http_response(b"HTTP/1.1 200 OK\r\nConnection: close,,keep-alive\r\n\r\n")
            .is_err()
    );
    assert!(validate_http_response(b"HTTP/1.1 200 OK\r\nConnection:\r\n\r\n").is_err());
}

#[test]
fn names_each_http_error() {
    assert_eq!(validate_http_response(b"HTTP/1.1 200 OK\r\n"), Err(HttpError::MissingTerminator));
    assert_eq!(validate_http_response(b"HTTP/1.1 200 OK\nX: y\r\n\r\n"), Err(HttpError::InvalidLineEnding));
    assert_eq!(validate_http_response(b"HTTP/2.0 200 OK\r\n\r\n"), Err(HttpError::UnsupportedVersion));
    assert_eq!(validate_http_response(b"HTTP/1.1-200 OK\r\n\r\n"), Err(HttpError::InvalidStatusSeparator));
    assert_eq!(validate_http_response(b"HTTP/1.1 2x0 OK\r\n\r\n"), Err(HttpError::InvalidStatus));
    assert_eq!(validate_http_response(b"HTTP/1.1 099 Low\r\n\r\n"), Err(HttpError::StatusOutOfRange(99)));
    assert_eq!(validate_http_response(b"HTTP/1.1 200 O\x01K\r\n\r\n"), Err(HttpError::InvalidReasonPhrase));
    assert_eq!(validate_http_response(b"HTTP/1.1 103 Early\r\n\r\n"), Err(HttpError::NonFinalStatus(103)));
    assert_eq!(validate_http_response(b"HTTP/1.1 200 OK\r\nNoColon\r\n\r\n"), Err(HttpError::MissingColon));
    assert_eq!(validate_http_response(b"HTTP/1.1 200 OK\r\n: v\r\n\r\n"), Err(HttpError::InvalidFieldName));
    assert_eq!(validate_http_response(b"HTTP/1.1 200 OK\r\nA: \x00\r\n\r\n"), Err(HttpError::InvalidFieldValue));
    assert_eq!(
        validate_http_response(b"HTTP/1.1 200 OK\r\nConnection: a b\r\n\r\n"),
        Err(HttpError::InvalidConnectionOption)
    );
    assert_eq!(validate_http_response(b"HTTP/1.0 200 OK\r\n\r\n"), Err(HttpError::NotPersistent));
}

#[test]
fn validates_only_up_to_first_terminator() {
    assert_eq!(validate_http_response(b"HTTP/1.1 204 No Content\r\n\r\ngarbage\x00"), Ok(()));
    assert_eq!(validate_http_response_block(b"HTTP/1.1 204 No Content\r\n\r\n", false), Ok(204));
}

#[test]
fn allows_informational_status_only_when_asked() {
    assert_eq!(validate_http_response_block(b"HTTP/1.1 100 Continue\r\n\r\n", true), Ok(100));
    assert_eq!(
        validate_http_response_block(b"HTTP/1.1 100 Continue\r\n\r\n", false),
        Err(HttpError::NonFinalStatus(100))
    );
    assert_eq!(validate_http_response_block(b"HTTP/1.0 100 Continue\r\n\r\n", true), Ok(100));
    assert_eq!(validate_http_response_block(b"HTTP/1.1 200 OK\r\n\r\n", true), Ok(200));
}

#[test]
fn parses_status_lines() {
    assert_eq!(parse_status_line(b"HTTP/1.1 200 OK"), Ok((HttpVersion::Http11, 200)));
    assert_eq!(parse_status_line(b"HTTP/1.0 599 "), Ok((HttpVersion::Http10, 599)));
    assert_eq!(parse_status_line(b"HTTP/1.1 600 X"), Err(HttpError::StatusOutOfRange(600)));
    assert_eq!(parse_status_line(b"HTTP/1.1 200"), Err(HttpError::InvalidStatus));
    assert_eq!(parse_status_line(b"HTTP/1.1"), Err(HttpError::InvalidStatusSeparator));
}

#[test]
fn classifies_header_bytes() {
    assert!(is_http_token_byte(b'a'));
    assert!(is_http_token_byte(b'~'));
    assert!(is_http_token_byte(b'-'));
    assert!(!is_http_token_byte(b' '));
    assert!(!is_http_token_byte(b':'));
    assert!(!is_http_token_byte(b','));
    assert!(is_http_field_value_byte(b'\t'));
    assert!(is_http_field_value_byte(0x80));
    assert!(!is_http_field_value_byte(0x7f));
    assert!(!is_http_field_value_byte(b'\r'));
}

#[test]
fn trims_spaces_and_tabs() {
    assert_eq!(trim_ascii(b" \t keep-alive \t"), b"keep-alive");
    assert_eq!(trim_ascii(b" \t "), b"");
    assert_eq!(trim_ascii(b"a b"), b"a b");
    assert_eq!(trim_ascii(b""), b"");
}

fn feed(headers: &mut Vec<u8>, bytes: &[u8]) -> Vec<Result<Option<u16>, HttpError>> {
    bytes.iter().map(|byte| push_header_byte(headers, *byte)).collect()
}

#[test]
fn reads_informational_then_final_response() {
    let stream = b"HTTP/1.1 100 Continue\r\n\r\nHTTP/1.1 200 OK\r\n\r\n";
    let mut headers = Vec::new();
    let mut statuses = Vec::new();
    for byte in stream.iter() {
        match push_header_byte(&mut headers, *byte).unwrap() {
            None => {}
            Some(status) => {
                statuses.push(status);
                if classify_response_status(status).unwrap() == ResponseKind::Informational {
                    headers.clear();
                }
            }
        }
    }
    assert_eq!(statuses, vec![100, 200]);
    assert_eq!(classify_response_status(200), Ok(ResponseKind::Final));
}

#[test]
fn refuses_switching_protocols() {
    let mut headers = Vec::new();
    let outcomes = feed(&mut headers, b"HTTP/1.1 101 Switching Protocols\r\n\r\n");
    assert_eq!(outcomes.last().unwrap(), &Ok(Some(101)));
    assert_eq!(classify_response_status(101), Err(HttpError::SwitchingProtocols));
    assert_eq!(classify_response_status(199), Ok(ResponseKind::Informational));
}

#[test]
fn refuses_oversized_header_block() {
    let mut headers = vec![b'a'; MAX_HTTP_HEADERS];
    assert_eq!(push_header_byte(&mut headers, b'a'), Err(HttpError::HeadersTooLarge));
    assert_eq!(headers.len(), MAX_HTTP_HEADERS + 1);
}

#[test]
fn builds_keepalive_head_request() {
    let http = Endpoint::new(198, 51, 100, 10, 80);
    assert_eq!(
        http_head_request(http),
        "HEAD / HTTP/1.1\r\nHost: 198.51.100.10:80\r\nConnection: keep-alive\r\n\r\n"
    );
}

#[test]
fn stops_at_end_of_final_response() {
    let stream = b"HTTP/1.1 100 Continue\r\n\r\nHTTP/1.1 102 Processing\r\n\r\nHTTP/1.0 204 No Content\r\nConnection: keep-alive\r\n\r\nHTTP/1.1 500 X\r\n\r\n";
    let final_end = stream.len() - b"HTTP/1.1 500 X\r\n\r\n".len();
    let mut headers = Vec::new();
    let mut outcome = None;
    for (index, byte) in stream.iter().enumerate() {
        if let Some(status) = push_header_byte(&mut headers, *byte).unwrap() {
            match classify_response_status(status).unwrap() {
                ResponseKind::Informational => headers.clear(),
                ResponseKind::Final => {
                    outcome = Some((status, index + 1));
                    break;
                }
            }
        }
    }
    assert_eq!(outcome, Some((204, final_end)));
}
