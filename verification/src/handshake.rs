//! The upgrade handshake: building the request, computing the expected
//! accept token from the nonce we sent, and validating the server's response
//! head — the sole authentication of the handshake, never skipped.

use sha1::Digest;

use rand::Rng;

use vstd::prelude::*;

use crate::byteops::bytes_eq;
use crate::errors::WireError;
use crate::http::{
    headers_model, http_response_parse, parse_response_head, spec_status, HttpParseOutcome,
    MAX_HEADERS,
};

verus! {

use vstd::string::StringExecFns;
use vstd::string::StringSliceAdditionalSpecFns;
use vstd::utf8::encode_utf8;
use vstd::utf8::is_ascii_chars;

/// The SHA-1 digest of a byte sequence.
pub uninterp spec fn sha1_of(data: Seq<u8>) -> Seq<u8>;

/// The standard-alphabet, padded base64 text of a byte sequence.
pub uninterp spec fn base64_of(data: Seq<u8>) -> Seq<char>;

/// Relies on sha1::Sha1 through the one-shot digest API: the 20-byte SHA-1
/// digest of the input, a function of the bytes alone.
#[verifier::external_body]
fn sha1_digest(data: &[u8]) -> (r: Vec<u8>)
    ensures
        r@ == sha1_of(data@),
        r@.len() == 20,
{
    sha1::Sha1::digest(data).to_vec()
}

/// Relies on base64::encode: standard-alphabet base64 with padding, a
/// function of the bytes alone; the output is ASCII of length 4·⌈n/3⌉.
/// The bound on the input keeps the output size computable in `usize`.
#[verifier::external_body]
fn base64_encode(data: &[u8]) -> (r: String)
    requires
        4 * ((data@.len() + 2) / 3) <= usize::MAX,
    ensures
        r@ == base64_of(data@),
        r@.len() == 4 * ((data@.len() + 2) / 3),
        is_ascii_chars(r@),
{
    base64::encode(data)
}

/// Relies on rand::thread_rng and Rng::gen: 16 fresh random bytes; nothing
/// is promised of their values.
#[verifier::external_body]
fn random_nonce() -> (r: Vec<u8>)
    ensures
        r@.len() == 16,
{
    rand::thread_rng().gen::<[u8; 16]>().to_vec()
}

/// The fixed GUID appended to the key before hashing.
pub open spec fn accept_guid() -> Seq<char> {
    "258EAFA5-E914-47DA-95CA-C5AB0DC85B11"@
}

/// The accept token a correct server answers with:
/// base64(SHA-1(key ++ GUID)).
pub open spec fn spec_accept_token(key: Seq<char>) -> Seq<char> {
    base64_of(sha1_of(encode_utf8(key + accept_guid())))
}

/// Compute the accept token expected for a handshake key.
pub fn compute_accept_key(key: &str) -> (r: String)
    ensures
        r@ == spec_accept_token(key@),
        is_ascii_chars(r@),
{
    let mut seed = key.to_owned();
    seed.append("258EAFA5-E914-47DA-95CA-C5AB0DC85B11");
    let digest = sha1_digest(seed.as_str().as_bytes());
    base64_encode(digest.as_slice())
}

/// A fresh handshake key: 16 random bytes, base64-encoded to 24 characters
/// of ASCII.
pub fn fresh_handshake_key() -> (r: String)
    ensures
        exists|nonce: Seq<u8>| nonce.len() == 16 && r@ == base64_of(nonce),
        r@.len() == 24,
        is_ascii_chars(r@),
{
    let nonce = random_nonce();
    let r = base64_encode(nonce.as_slice());
    proof {
        assert(nonce@.len() == 16 && r@ == base64_of(nonce@));
    }
    r
}

/// The request that upgrades a raw connection at (host, port) into a framed
/// channel, exactly as it goes on the wire.
pub open spec fn spec_handshake_request(host: Seq<char>, path: Seq<char>, key: Seq<char>) -> Seq<
    char,
> {
    "GET "@ + path + " HTTP/1.1\r\nHost: "@ + host
        + "\r\nUpgrade: websocket\r\nConnection: Upgrade\r\nOrigin: http://"@ + host
        + "\r\nSec-WebSocket-Key: "@ + key + "\r\nSec-WebSocket-Version: 13\r\n\r\n"@
}

/// Build the upgrade request for a target path on a host, carrying `key` as
/// the client's nonce.
pub fn build_handshake_request(host: &str, path: &str, key: &str) -> (r: String)
    ensures
        r@ == spec_handshake_request(host@, path@, key@),
{
    let mut out = "GET ".to_owned();
    out.append(path);
    out.append(" HTTP/1.1\r\nHost: ");
    out.append(host);
    out.append("\r\nUpgrade: websocket\r\nConnection: Upgrade\r\nOrigin: http://");
    out.append(host);
    out.append("\r\nSec-WebSocket-Key: ");
    out.append(key);
    out.append("\r\nSec-WebSocket-Version: 13\r\n\r\n");
    proof {
        assert(out@ =~= spec_handshake_request(host@, path@, key@));
    }
    out
}

pub open spec fn accept_header_name() -> Seq<u8> {
    "Sec-WebSocket-Accept".spec_bytes()
}

/// Validate the server's upgrade response head against the key that was
/// sent: the status must be exactly 101, and a Sec-WebSocket-Accept header
/// must be present with every occurrence equal to the expected token.
#[verifier::loop_isolation(false)]
pub fn check_handshake_response(buf: &[u8], key: &str) -> (r: Result<(), WireError>)
    ensures
        match http_response_parse(buf@, MAX_HEADERS as nat) {
            HttpParseOutcome::Partial => r == Err::<(), WireError>(WireError::HeaderIncomplete),
            HttpParseOutcome::Malformed => r == Err::<(), WireError>(WireError::HeaderMalformed),
            HttpParseOutcome::Complete(code, hs) => {
                let status = spec_status(code);
                let expect = encode_utf8(spec_accept_token(key@));
                if status != 101 {
                    r == Err::<(), WireError>(WireError::HandshakeRejected(status))
                } else if forall|i: int|
                    0 <= i < hs.len() ==> (#[trigger] hs[i]).0 != accept_header_name() {
                    r == Err::<(), WireError>(WireError::AcceptMissing)
                } else if forall|i: int|
                    0 <= i < hs.len() && (#[trigger] hs[i]).0 == accept_header_name() ==> hs[i].1
                        == expect {
                    r == Ok::<(), WireError>(())
                } else {
                    r == Err::<(), WireError>(WireError::AcceptMismatch)
                }
            },
        },
{
    let (status, headers) = match parse_response_head(buf) {
        Ok(p) => p,
        Err(e) => {
            return Err(e);
        },
    };
    if status != 101 {
        return Err(WireError::HandshakeRejected(status));
    }
    let expected = compute_accept_key(key);
    let expected_bytes = expected.as_str().as_bytes();
    let ghost hm = headers_model(headers@);
    let mut found = false;
    let mut i: usize = 0;
    while i < headers.len()
        invariant
            i <= headers@.len(),
            found == exists|j: int| 0 <= j < i && (#[trigger] hm[j]).0 == accept_header_name(),
            forall|j: int|
                0 <= j < i && (#[trigger] hm[j]).0 == accept_header_name() ==> hm[j].1
                    == expected_bytes@,
        decreases headers@.len() - i,
    {
        let h = &headers[i];
        let is_accept = bytes_eq(h.name.as_slice(), "Sec-WebSocket-Accept".as_bytes());
        proof {
            assert((#[trigger] hm[i as int]).0 == headers@[i as int].name@);
        }
        if is_accept {
            if !bytes_eq(h.value.as_slice(), expected_bytes) {
                return Err(WireError::AcceptMismatch);
            }
            found = true;
            proof {
                assert(exists|j: int|
                    0 <= j < i + 1 && (#[trigger] hm[j]).0 == accept_header_name());
            }
        }
        i = i + 1;
    }
    if !found {
        return Err(WireError::AcceptMissing);
    }
    Ok(())
}

} // verus!
