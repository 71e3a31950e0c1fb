use cdp_wire::errors::WireError;
use cdp_wire::http::{
    build_get_request, scan_head_progress, validate_endpoint_head, HeadProgress, MAX_HEADER_LEN,
};

#[test]
fn head_scan_stops_on_terminator() {
    assert_eq!(scan_head_progress(b"HTTP/1.1 200 OK\r\n"), HeadProgress::Continue);
    assert_eq!(scan_head_progress(b"HTTP/1.1 200 OK\r\n\r\n"), HeadProgress::Complete);
    assert_eq!(scan_head_progress(b""), HeadProgress::Continue);
    // the bare terminator alone does not count as a complete head
    assert_eq!(scan_head_progress(b"\r\n\r\n"), HeadProgress::Continue);
    assert_eq!(scan_head_progress(b"x\r\n\r\n"), HeadProgress::Complete);
}

#[test]
fn head_scan_rejects_oversized_heads() {
    let buf = vec![b'a'; MAX_HEADER_LEN + 1];
    assert_eq!(scan_head_progress(buf.as_slice()), HeadProgress::TooLarge);
    let buf = vec![b'a'; MAX_HEADER_LEN];
    assert_eq!(scan_head_progress(buf.as_slice()), HeadProgress::Continue);
}

#[test]
fn get_request_is_bit_exact() {
    assert_eq!(
        build_get_request("localhost:9222", "/json/list"),
        "GET /json/list HTTP/1.1\r\nHost: localhost:9222\r\nConnection: close\r\n\r\n"
    );
}

fn head(status_line: &str, headers: &[(&str, &str)]) -> Vec<u8> {
    let mut s = String::new();
    s.push_str(status_line);
    s.push_str("\r\n");
    for (n, v) in headers {
        s.push_str(n);
        s.push_str(": ");
        s.push_str(v);
        s.push_str("\r\n");
    }
    s.push_str("\r\n");
    s.into_bytes()
}

const JSON_CT: &str = "application/json; charset=UTF-8";

#[test]
fn good_endpoint_head_yields_content_length() {
    let buf = head("HTTP/1.1 200 OK", &[("Content-Length", "42"), ("Content-Type", JSON_CT)]);
    assert_eq!(validate_endpoint_head(buf.as_slice()), Ok(42));
}

#[test]
fn non_200_status_is_rejected() {
    let buf = head("HTTP/1.1 404 Not Found", &[("Content-Length", "42"), ("Content-Type", JSON_CT)]);
    assert_eq!(
        validate_endpoint_head(buf.as_slice()),
        Err(WireError::EndpointRejected(404))
    );
}

#[test]
fn missing_or_zero_content_length_is_rejected() {
    let buf = head("HTTP/1.1 200 OK", &[("Content-Type", JSON_CT)]);
    assert_eq!(validate_endpoint_head(buf.as_slice()), Err(WireError::NoContent));
    let buf = head("HTTP/1.1 200 OK", &[("Content-Length", "0"), ("Content-Type", JSON_CT)]);
    assert_eq!(validate_endpoint_head(buf.as_slice()), Err(WireError::NoContent));
}

#[test]
fn unparseable_content_length_is_rejected() {
    let buf = head("HTTP/1.1 200 OK", &[("Content-Length", "abc"), ("Content-Type", JSON_CT)]);
    assert_eq!(
        validate_endpoint_head(buf.as_slice()),
        Err(WireError::BadContentLength)
    );
    // a value too large for any buffer is not a length either
    let buf = head(
        "HTTP/1.1 200 OK",
        &[("Content-Length", "99999999999999999999999999"), ("Content-Type", JSON_CT)],
    );
    assert_eq!(
        validate_endpoint_head(buf.as_slice()),
        Err(WireError::BadContentLength)
    );
}

#[test]
fn non_json_content_is_rejected() {
    let buf = head("HTTP/1.1 200 OK", &[("Content-Length", "42"), ("Content-Type", "text/html")]);
    assert_eq!(validate_endpoint_head(buf.as_slice()), Err(WireError::NotJson));
    let buf = head("HTTP/1.1 200 OK", &[("Content-Length", "42")]);
    assert_eq!(validate_endpoint_head(buf.as_slice()), Err(WireError::NotJson));
}

#[test]
fn last_content_length_wins() {
    let buf = head(
        "HTTP/1.1 200 OK",
        &[("Content-Length", "1"), ("Content-Length", "7"), ("Content-Type", JSON_CT)],
    );
    assert_eq!(validate_endpoint_head(buf.as_slice()), Ok(7));
}

#[test]
fn endpoint_head_must_be_complete_and_parseable() {
    assert_eq!(
        validate_endpoint_head(b"HTTP/1.1 200 OK\r\n"),
        Err(WireError::HeaderIncomplete)
    );
    assert_eq!(
        validate_endpoint_head(b"gibberish\r\n\r\n"),
        Err(WireError::HeaderMalformed)
    );
}
