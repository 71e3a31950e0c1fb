//! Reading an HTTP-style response head: the bounded accumulation of header
//! bytes, the parse of the status line and header fields (through an outside
//! parser, taken on trust), and the checks the control plane makes on it.

use vstd::prelude::*;

use crate::byteops::{bytes_eq, dec_value, is_dec_digits, parse_dec};
use crate::errors::WireError;

verus! {

use vstd::string::StringExecFns;
use vstd::string::StringSliceAdditionalSpecFns;

/// Bound on the cumulative size of a response head, in bytes.
pub const MAX_HEADER_LEN: usize = 8192;

/// Bound on the number of header fields a response may carry.
pub const MAX_HEADERS: usize = 64;

/// Progress of accumulating a response head, judged after each line read.
#[derive(Debug, Clone, Copy, PartialEq, Eq, Structural)]
pub enum HeadProgress {
    /// The head ends in CRLFCRLF: stop reading and parse it.
    Complete,
    /// The terminator has not appeared yet: read another line.
    Continue,
    /// The head exceeded the size bound: a fatal protocol error.
    TooLarge,
}

/// Whether an accumulated head ends in the CRLFCRLF terminator.
pub open spec fn spec_head_complete(buf: Seq<u8>) -> bool {
    &&& buf.len() > 4
    &&& buf[buf.len() - 4] == 13
    &&& buf[buf.len() - 3] == 10
    &&& buf[buf.len() - 2] == 13
    &&& buf[buf.len() - 1] == 10
}

/// Judge an accumulated head: complete once it ends in CRLFCRLF, too large
/// once it passed the size bound, otherwise still in progress.
pub fn scan_head_progress(buf: &[u8]) -> (r: HeadProgress)
    ensures
        r == (if spec_head_complete(buf@) {
            HeadProgress::Complete
        } else if buf@.len() > MAX_HEADER_LEN {
            HeadProgress::TooLarge
        } else {
            HeadProgress::Continue
        }),
{
    let len = buf.len();
    if len > 4 && buf[len - 4] == 13 && buf[len - 3] == 10 && buf[len - 2] == 13 && buf[len - 1]
        == 10 {
        HeadProgress::Complete
    } else if len > MAX_HEADER_LEN {
        HeadProgress::TooLarge
    } else {
        HeadProgress::Continue
    }
}

/// The control-plane request for a path on a host, exactly as it goes on the
/// wire.
pub open spec fn spec_get_request(host: Seq<char>, path: Seq<char>) -> Seq<char> {
    "GET "@ + path + " HTTP/1.1\r\nHost: "@ + host + "\r\nConnection: close\r\n\r\n"@
}

/// Build the plain request that asks the control plane for a path.
pub fn build_get_request(host: &str, path: &str) -> (r: String)
    ensures
        r@ == spec_get_request(host@, path@),
{
    let mut out = "GET ".to_owned();
    out.append(path);
    out.append(" HTTP/1.1\r\nHost: ");
    out.append(host);
    out.append("\r\nConnection: close\r\n\r\n");
    proof {
        assert(out@ =~= spec_get_request(host@, path@));
    }
    out
}

/// One parsed header field: its name and its value, as plain bytes.
#[derive(Debug)]
pub struct RawHeader {
    pub name: Vec<u8>,
    pub value: Vec<u8>,
}

impl RawHeader {
    pub open spec fn model(self) -> (Seq<u8>, Seq<u8>) {
        (self.name@, self.value@)
    }
}

/// The header fields as mathematical pairs, in wire order.
pub open spec fn headers_model(hs: Seq<RawHeader>) -> Seq<(Seq<u8>, Seq<u8>)> {
    hs.map_values(|h: RawHeader| h.model())
}

/// What parsing a response head yields, as mathematical values.
pub enum HttpParseOutcome {
    /// A complete head: the status code, if one was read, and the header
    /// fields in order.
    Complete(Option<u16>, Seq<(Seq<u8>, Seq<u8>)>),
    /// The bytes end before the head is complete.
    Partial,
    /// The bytes are not a parseable response head.
    Malformed,
}

/// What the outside parser makes of a response head: a function of the bytes
/// and of the size of the header table it is given.
pub uninterp spec fn http_response_parse(buf: Seq<u8>, max_headers: nat) -> HttpParseOutcome;

#[verifier::external_type_specification]
#[verifier::external_body]
pub struct ExHttparseError(httparse::Error);

/// Relies on httparse::Response::parse with a caller-sized header table: the
/// outcome is a function of the bytes and the table size alone. A complete
/// parse hands back the status code and the header fields; an incomplete head
/// is `Ok(None)`; unparseable bytes are the parser's error.
#[verifier::external_body]
fn parse_response_raw(buf: &[u8], max_headers: usize) -> (r: Result<
    Option<(Option<u16>, Vec<RawHeader>)>,
    httparse::Error,
>)
    ensures
        match r {
            Ok(Some(p)) => http_response_parse(buf@, max_headers as nat) matches
                HttpParseOutcome::Complete(c, hs) && p.0 == c && headers_model(p.1@) == hs,
            Ok(None) => http_response_parse(buf@, max_headers as nat) is Partial,
            Err(_) => http_response_parse(buf@, max_headers as nat) is Malformed,
        },
{
    let mut table = vec![httparse::EMPTY_HEADER; max_headers];
    let mut response = httparse::Response::new(&mut table);
    match response.parse(buf) {
        Ok(httparse::Status::Complete(_)) => {
            let headers = response
                .headers
                .iter()
                .map(|h| RawHeader { name: h.name.as_bytes().to_vec(), value: h.value.to_vec() })
                .collect();
            Ok(Some((response.code, headers)))
        },
        Ok(httparse::Status::Partial) => Ok(None),
        Err(e) => Err(e),
    }
}

/// The status a complete head reports, with 0 standing in where the parser
/// saw none.
pub open spec fn spec_status(code: Option<u16>) -> u16 {
    match code {
        Some(c) => c,
        None => 0,
    }
}

/// Parse a complete response head into its status and header fields; an
/// incomplete or unparseable head is a fatal error.
pub fn parse_response_head(buf: &[u8]) -> (r: Result<(u16, Vec<RawHeader>), WireError>)
    ensures
        match http_response_parse(buf@, MAX_HEADERS as nat) {
            HttpParseOutcome::Complete(code, hs) => r matches Ok(p) && p.0 == spec_status(code)
                && headers_model(p.1@) == hs,
            HttpParseOutcome::Partial => r == Err::<(u16, Vec<RawHeader>), WireError>(
                WireError::HeaderIncomplete,
            ),
            HttpParseOutcome::Malformed => r == Err::<(u16, Vec<RawHeader>), WireError>(
                WireError::HeaderMalformed,
            ),
        },
{
    match parse_response_raw(buf, MAX_HEADERS) {
        Ok(Some((code, headers))) => {
            let status = match code {
                Some(c) => c,
                None => 0,
            };
            Ok((status, headers))
        },
        Ok(None) => Err(WireError::HeaderIncomplete),
        Err(_) => Err(WireError::HeaderMalformed),
    }
}

/// The value of the last header field named `name`, if any; a later field
/// overrides an earlier one of the same name.
pub open spec fn spec_last_value(hs: Seq<(Seq<u8>, Seq<u8>)>, name: Seq<u8>) -> Option<Seq<u8>>
    decreases hs.len(),
{
    if hs.len() == 0 {
        None
    } else if hs.last().0 == name {
        Some(hs.last().1)
    } else {
        spec_last_value(hs.drop_last(), name)
    }
}

/// Every field named `name` holds a decimal number that fits `usize`.
pub open spec fn spec_all_dec(hs: Seq<(Seq<u8>, Seq<u8>)>, name: Seq<u8>) -> bool {
    forall|i: int|
        0 <= i < hs.len() && (#[trigger] hs[i]).0 == name ==> is_dec_digits(hs[i].1) && dec_value(
            hs[i].1,
        ) <= usize::MAX
}

pub open spec fn content_length_name() -> Seq<u8> {
    "Content-Length".spec_bytes()
}

pub open spec fn content_type_name() -> Seq<u8> {
    "Content-Type".spec_bytes()
}

pub open spec fn content_type_json() -> Seq<u8> {
    "application/json; charset=UTF-8".spec_bytes()
}

/// The declared content length of a complete head: the last Content-Length
/// field, or 0 where there is none.
pub open spec fn spec_content_length(hs: Seq<(Seq<u8>, Seq<u8>)>) -> int {
    match spec_last_value(hs, content_length_name()) {
        Some(v) => dec_value(v),
        None => 0,
    }
}

/// Adding one field to the scanned prefix updates the last-value lookup.
proof fn lemma_last_value_step(hs: Seq<(Seq<u8>, Seq<u8>)>, name: Seq<u8>, i: int)
    requires
        0 <= i < hs.len(),
    ensures
        spec_last_value(hs.take(i + 1), name) == (if hs[i].0 == name {
            Some(hs[i].1)
        } else {
            spec_last_value(hs.take(i), name)
        }),
{
    assert(hs.take(i + 1).drop_last() =~= hs.take(i));
    assert(hs.take(i + 1).last() == hs[i]);
}

/// Check a control-plane response head: the status must be 200 and the body
/// must be declared as non-empty JSON; hand back the declared content length.
#[verifier::loop_isolation(false)]
pub fn validate_endpoint_head(buf: &[u8]) -> (r: Result<usize, WireError>)
    ensures
        match http_response_parse(buf@, MAX_HEADERS as nat) {
            HttpParseOutcome::Partial => r == Err::<usize, WireError>(WireError::HeaderIncomplete),
            HttpParseOutcome::Malformed => r == Err::<usize, WireError>(WireError::HeaderMalformed),
            HttpParseOutcome::Complete(code, hs) => {
                let status = spec_status(code);
                if status != 200 {
                    r == Err::<usize, WireError>(WireError::EndpointRejected(status))
                } else if !spec_all_dec(hs, content_length_name()) {
                    r == Err::<usize, WireError>(WireError::BadContentLength)
                } else if spec_content_length(hs) == 0 {
                    r == Err::<usize, WireError>(WireError::NoContent)
                } else if spec_last_value(hs, content_type_name()) != Some(content_type_json()) {
                    r == Err::<usize, WireError>(WireError::NotJson)
                } else {
                    r matches Ok(n) && n as int == spec_content_length(hs)
                }
            },
        },
{
    let (status, headers) = match parse_response_head(buf) {
        Ok(p) => p,
        Err(e) => {
            return Err(e);
        },
    };
    if status != 200 {
        return Err(WireError::EndpointRejected(status));
    }
    let ghost hm = headers_model(headers@);
    let mut content_length: usize = 0;
    let mut ct_matches: bool = false;
    let mut i: usize = 0;
    while i < headers.len()
        invariant
            i <= headers@.len(),
            hm == headers_model(headers@),
            hm.len() == headers@.len(),
            forall|j: int| 0 <= j < headers@.len() ==> hm[j] == (#[trigger] headers@[j]).model(),
            forall|j: int|
                0 <= j < i && (#[trigger] hm[j]).0 == content_length_name() ==> is_dec_digits(
                    hm[j].1,
                ) && dec_value(hm[j].1) <= usize::MAX,
            content_length as int == (match spec_last_value(hm.take(i as int),
                content_length_name()) {
                Some(v) => dec_value(v),
                None => 0,
            }),
            ct_matches == (spec_last_value(hm.take(i as int), content_type_name()) == Some(
                content_type_json(),
            )),
        decreases headers@.len() - i,
    {
        proof {
            lemma_last_value_step(hm, content_length_name(), i as int);
            lemma_last_value_step(hm, content_type_name(), i as int);
        }
        let h = &headers[i];
        if bytes_eq(h.name.as_slice(), "Content-Length".as_bytes()) {
            match parse_dec(h.value.as_slice()) {
                Some(v) => {
                    content_length = v;
                },
                None => {
                    proof {
                        assert((#[trigger] hm[i as int]).0 == content_length_name()
                            && !(is_dec_digits(hm[i as int].1) && dec_value(hm[i as int].1)
                            <= usize::MAX));
                        assert(!spec_all_dec(hm, content_length_name()));
                    }
                    return Err(WireError::BadContentLength);
                },
            }
        }
        if bytes_eq(h.name.as_slice(), "Content-Type".as_bytes()) {
            ct_matches = bytes_eq(h.value.as_slice(), "application/json; charset=UTF-8".as_bytes());
        }
        i = i + 1;
    }
    proof {
        assert(hm.take(hm.len() as int) =~= hm);
    }
    if content_length == 0 {
        return Err(WireError::NoContent);
    }
    if !ct_matches {
        return Err(WireError::NotJson);
    }
    Ok(content_length)
}

} // verus!
