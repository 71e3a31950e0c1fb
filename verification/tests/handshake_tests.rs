use cdp_wire::errors::WireError;
use cdp_wire::handshake::{
    build_handshake_request, check_handshake_response, compute_accept_key, fresh_handshake_key,
};

#[test]
fn accept_token_matches_published_example() {
    // The worked example from the protocol's specification: this nonce must
    // hash and encode to exactly this accept value.
    let accept = compute_accept_key("dGhlIHNhbXBsZSBub25jZQ==");
    assert_eq!(accept, "s3pPLMBiTxaQ9kYGzzhZRbK+xOo=");
}

#[test]
fn request_is_bit_exact() {
    let req = build_handshake_request("localhost", "/devtools/page/1", "KEYKEYKEYKEYKEYKEYKEY+==");
    assert_eq!(
        req,
        "GET /devtools/page/1 HTTP/1.1\r\nHost: localhost\r\nUpgrade: websocket\r\nConnection: Upgrade\r\nOrigin: http://localhost\r\nSec-WebSocket-Key: KEYKEYKEYKEYKEYKEYKEY+==\r\nSec-WebSocket-Version: 13\r\n\r\n"
    );
}

#[test]
fn fresh_keys_are_base64_sized() {
    let k1 = fresh_handshake_key();
    let k2 = fresh_handshake_key();
    assert_eq!(k1.len(), 24);
    assert_eq!(k2.len(), 24);
    assert!(k1.is_ascii());
}

const KEY: &str = "dGhlIHNhbXBsZSBub25jZQ==";

fn response_with(status_line: &str, accept: Option<&str>) -> Vec<u8> {
    let mut head = String::new();
    head.push_str(status_line);
    head.push_str("\r\nUpgrade: websocket\r\nConnection: Upgrade\r\n");
    if let Some(a) = accept {
        head.push_str("Sec-WebSocket-Accept: ");
        head.push_str(a);
        head.push_str("\r\n");
    }
    head.push_str("\r\n");
    head.into_bytes()
}

#[test]
fn good_upgrade_response_is_accepted() {
    let buf = response_with("HTTP/1.1 101 Switching Protocols", Some("s3pPLMBiTxaQ9kYGzzhZRbK+xOo="));
    assert_eq!(check_handshake_response(buf.as_slice(), KEY), Ok(()));
}

#[test]
fn status_200_is_rejected_even_with_upgrade_header() {
    let buf = response_with("HTTP/1.1 200 OK", Some("s3pPLMBiTxaQ9kYGzzhZRbK+xOo="));
    assert_eq!(
        check_handshake_response(buf.as_slice(), KEY),
        Err(WireError::HandshakeRejected(200))
    );
}

#[test]
fn wrong_accept_token_is_rejected() {
    let buf = response_with("HTTP/1.1 101 Switching Protocols", Some("AAAAAAAAAAAAAAAAAAAAAAAAAAA="));
    assert_eq!(
        check_handshake_response(buf.as_slice(), KEY),
        Err(WireError::AcceptMismatch)
    );
}

#[test]
fn missing_accept_header_is_rejected() {
    let buf = response_with("HTTP/1.1 101 Switching Protocols", None);
    assert_eq!(
        check_handshake_response(buf.as_slice(), KEY),
        Err(WireError::AcceptMissing)
    );
}

#[test]
fn incomplete_head_is_rejected() {
    let buf = b"HTTP/1.1 101 Switching Protocols\r\nUpgrade: websocket\r\n".to_vec();
    assert_eq!(
        check_handshake_response(buf.as_slice(), KEY),
        Err(WireError::HeaderIncomplete)
    );
}

#[test]
fn unparseable_head_is_rejected() {
    let buf = b"NOT-HTTP nonsense\r\n\r\n".to_vec();
    assert_eq!(
        check_handshake_response(buf.as_slice(), KEY),
        Err(WireError::HeaderMalformed)
    );
}
