//! The call/event multiplexing layer: serializing outgoing method calls with
//! monotonically increasing correlation ids, and classifying every inbound
//! message as a reply (it bears a top-level `id`) or an unsolicited event.

use vstd::prelude::*;

use crate::byteops::{
    dec_digits, find_byte, first_at, last_of, push_bytes, rfind_byte, u64_to_dec,
};
use crate::errors::WireError;
use crate::frame::Frame;

verus! {

use vstd::string::StringSliceAdditionalSpecFns;

/// Whether a byte sequence parses as a JSON document.
pub uninterp spec fn json_ok(b: Seq<u8>) -> bool;

/// Whether the JSON document in `b` has a top-level member named `key`
/// (false where the document is not an object).
pub uninterp spec fn json_has_key(b: Seq<u8>, key: Seq<char>) -> bool;

/// Relies on serde_json::from_slice::<Value> and serde_json::Value::get:
/// whether the bytes parse as JSON and, when they do, whether the document
/// has a top-level member named `key`; both are functions of the arguments
/// alone.
#[verifier::external_body]
fn json_probe(b: &[u8], key: &str) -> (r: Option<bool>)
    ensures
        r is Some <==> json_ok(b@),
        r matches Some(h) ==> h == json_has_key(b@, key@),
{
    match serde_json::from_slice::<serde_json::Value>(b) {
        Ok(v) => Some(v.get(key).is_some()),
        Err(_) => None,
    }
}

/// How an inbound message is classified: a reply answers an issued call, an
/// event arrives unsolicited.
#[derive(Debug, Clone, Copy, PartialEq, Eq, Structural)]
pub enum MessageKind {
    Reply,
    Event,
}

/// One step of the receive loop on a decoded frame: a masked frame from the
/// server is a protocol violation; a non-final frame fails fast rather than
/// buffering for a continuation; an unparseable payload is fatal; otherwise
/// the message is a reply exactly when its JSON bears a top-level `id`.
pub fn receive_step(frame: &Frame) -> (r: Result<MessageKind, WireError>)
    ensures
        r == (if frame.header.mask {
            Err::<MessageKind, WireError>(WireError::MaskedFrame)
        } else if !frame.header.fin {
            Err::<MessageKind, WireError>(WireError::FragmentedFrame)
        } else if !json_ok(frame.payload@) {
            Err::<MessageKind, WireError>(WireError::PayloadNotJson)
        } else if json_has_key(frame.payload@, "id"@) {
            Ok::<MessageKind, WireError>(MessageKind::Reply)
        } else {
            Ok::<MessageKind, WireError>(MessageKind::Event)
        }),
{
    if frame.header.mask {
        return Err(WireError::MaskedFrame);
    }
    if !frame.header.fin {
        return Err(WireError::FragmentedFrame);
    }
    match json_probe(frame.payload.as_slice(), "id") {
        Some(true) => Ok(MessageKind::Reply),
        Some(false) => Ok(MessageKind::Event),
        None => Err(WireError::PayloadNotJson),
    }
}

/// An outgoing `domain.name(params)` call: the domain and name are the bytes
/// the line carried (escaped only at serialization, as a JSON string
/// demands), the params a validated JSON document.
#[derive(Debug)]
pub struct MethodCall {
    pub domain: Vec<u8>,
    pub name: Vec<u8>,
    pub params: Vec<u8>,
}

impl MethodCall {
    pub open spec fn wf(self) -> bool {
        json_ok(self.params@)
    }

    /// Parse a command line of the shape `domain.name(params)`.
    pub fn from_str(line: &str) -> (r: Option<MethodCall>)
        ensures
            match spec_parse_method_call(line.spec_bytes()) {
                Some(t) => r matches Some(mc) && mc.domain@ == t.0 && mc.name@ == t.1 && mc.params@
                    == t.2 && mc.wf(),
                None => r is None,
            },
    {
        parse_method_call(line)
    }

    /// Serialize this call under a correlation id, exactly as it goes on the
    /// wire: `{"id":<id>,"method":"<domain>.<name>","params":<params>}`, the
    /// method string escaped as a JSON string demands.
    pub fn serialize(&self, id: u64) -> (r: Vec<u8>)
        ensures
            r@ == spec_call_message(id as nat, self.domain@, self.name@, self.params@),
    {
        let mut out: Vec<u8> = Vec::new();
        push_bytes(&mut out, "{\"id\":".as_bytes());
        let digits = u64_to_dec(id);
        push_bytes(&mut out, digits.as_slice());
        push_bytes(&mut out, ",\"method\":\"".as_bytes());
        push_escaped(&mut out, self.domain.as_slice());
        push_bytes(&mut out, ".".as_bytes());
        push_escaped(&mut out, self.name.as_slice());
        push_bytes(&mut out, "\",\"params\":".as_bytes());
        push_bytes(&mut out, self.params.as_slice());
        push_bytes(&mut out, "}".as_bytes());
        proof {
            assert(out@ =~= spec_call_message(id as nat, self.domain@, self.name@, self.params@));
        }
        out
    }
}

/// The serialized call message for an id and the parts of a call; the domain
/// and name sit inside a JSON string and are escaped for it.
pub open spec fn spec_call_message(id: nat, domain: Seq<u8>, name: Seq<u8>, params: Seq<u8>) -> Seq<
    u8,
> {
    "{\"id\":".spec_bytes() + dec_digits(id) + ",\"method\":\"".spec_bytes() + escape_json(domain)
        + ".".spec_bytes() + escape_json(name) + "\",\"params\":".spec_bytes() + params
        + "}".spec_bytes()
}

/// A lowercase hexadecimal digit.
pub open spec fn hex_digit(n: nat) -> u8 {
    if n < 10 {
        (48 + n) as u8
    } else {
        (87 + n) as u8
    }
}

/// One byte of a JSON string, escaped: quote and backslash take a backslash;
/// backspace, tab, line feed, form feed and carriage return keep their short
/// escapes; any other control byte becomes `\u00` and two hex digits; every
/// other byte stands as itself.
pub open spec fn escape_json_byte(b: u8) -> Seq<u8> {
    if b == 34 {
        seq![92u8, 34u8]
    } else if b == 92 {
        seq![92u8, 92u8]
    } else if b == 8 {
        seq![92u8, 98u8]
    } else if b == 9 {
        seq![92u8, 116u8]
    } else if b == 10 {
        seq![92u8, 110u8]
    } else if b == 12 {
        seq![92u8, 102u8]
    } else if b == 13 {
        seq![92u8, 114u8]
    } else if b < 32 {
        seq![92u8, 117u8, 48u8, 48u8, hex_digit((b / 16) as nat), hex_digit((b % 16) as nat)]
    } else {
        seq![b]
    }
}

/// A byte sequence escaped for the inside of a JSON string.
pub open spec fn escape_json(s: Seq<u8>) -> Seq<u8>
    decreases s.len(),
{
    if s.len() == 0 {
        Seq::<u8>::empty()
    } else {
        escape_json(s.drop_last()) + escape_json_byte(s.last())
    }
}

/// Escaping one more byte extends the escaped prefix by that byte's escape.
proof fn lemma_escape_step(s: Seq<u8>, i: int)
    requires
        0 <= i < s.len(),
    ensures
        escape_json(s.take(i + 1)) == escape_json(s.take(i)) + escape_json_byte(s[i]),
{
    assert(s.take(i + 1).drop_last() =~= s.take(i));
    assert(s.take(i + 1).last() == s[i]);
}

/// Append a byte slice, escaped for the inside of a JSON string.
fn push_escaped(out: &mut Vec<u8>, s: &[u8])
    ensures
        final(out)@ == old(out)@ + escape_json(s@),
{
    let mut i: usize = 0;
    while i < s.len()
        invariant
            i <= s@.len(),
            out@ == old(out)@ + escape_json(s@.take(i as int)),
        decreases s@.len() - i,
    {
        proof {
            lemma_escape_step(s@, i as int);
        }
        let b = s[i];
        if b == 34 {
            out.push(92);
            out.push(34);
        } else if b == 92 {
            out.push(92);
            out.push(92);
        } else if b == 8 {
            out.push(92);
            out.push(98);
        } else if b == 9 {
            out.push(92);
            out.push(116);
        } else if b == 10 {
            out.push(92);
            out.push(110);
        } else if b == 12 {
            out.push(92);
            out.push(102);
        } else if b == 13 {
            out.push(92);
            out.push(114);
        } else if b < 32 {
            out.push(92);
            out.push(117);
            out.push(48);
            out.push(48);
            let hi = b / 16;
            out.push(if hi < 10 {
                48 + hi
            } else {
                87 + hi
            });
            let lo = b % 16;
            out.push(if lo < 10 {
                48 + lo
            } else {
                87 + lo
            });
        } else {
            out.push(b);
        }
        proof {
            assert(out@ =~= old(out)@ + escape_json(s@.take(i + 1)));
        }
        i = i + 1;
    }
    proof {
        assert(s@.take(s@.len() as int) =~= s@);
    }
}

/// What parsing a command line yields: the bytes before the first dot, the
/// bytes between it and the first parenthesis after it, and the bytes up to
/// the last closing parenthesis — provided the params (an empty pair of
/// parentheses stands for `{}`) are JSON.
pub open spec fn spec_parse_method_call(bytes: Seq<u8>) -> Option<(Seq<u8>, Seq<u8>, Seq<u8>)> {
    match first_at(bytes, 0, 46) {
        None => None,
        Some(dot) => match first_at(bytes, dot, 40) {
            None => None,
            Some(lp) => match last_of(bytes, 41) {
                None => None,
                Some(rp) => if rp <= lp {
                    None
                } else {
                    let domain = bytes.subrange(0, dot);
                    let name = bytes.subrange(dot + 1, lp);
                    let given = bytes.subrange(lp + 1, rp);
                    let params: Seq<u8> = if given.len() == 0 {
                        "{}".spec_bytes()
                    } else {
                        given
                    };
                    if json_ok(params) {
                        Some((domain, name, params))
                    } else {
                        None
                    }
                },
            },
        },
    }
}

/// Parse a command line of the shape `domain.name(params)` into a call,
/// validating that the params bytes are well-formed JSON.
pub fn parse_method_call(line: &str) -> (r: Option<MethodCall>)
    ensures
        match spec_parse_method_call(line.spec_bytes()) {
            Some(t) => r matches Some(mc) && mc.domain@ == t.0 && mc.name@ == t.1 && mc.params@
                == t.2 && mc.wf(),
            None => r is None,
        },
{
    let bytes = line.as_bytes();
    let dot = match find_byte(bytes, 0, 46) {
        Some(p) => p,
        None => {
            return None;
        },
    };
    let lp = match find_byte(bytes, dot, 40) {
        Some(p) => p,
        None => {
            return None;
        },
    };
    let rp = match rfind_byte(bytes, 41) {
        Some(p) => p,
        None => {
            return None;
        },
    };
    if rp <= lp {
        return None;
    }
    let domain = vstd::slice::slice_to_vec(vstd::slice::slice_subrange(bytes, 0, dot));
    let name = vstd::slice::slice_to_vec(vstd::slice::slice_subrange(bytes, dot + 1, lp));
    let given = vstd::slice::slice_subrange(bytes, lp + 1, rp);
    let params: Vec<u8> = if given.len() == 0 {
        vstd::slice::slice_to_vec("{}".as_bytes())
    } else {
        vstd::slice::slice_to_vec(given)
    };
    // Only that the params parse is needed here; the membership answer is
    // not used.
    if json_probe(params.as_slice(), "id").is_none() {
        return None;
    }
    Some(MethodCall { domain, name, params })
}

/// The multiplexer's session state: the correlation counter, owned
/// exclusively by the calling path, incremented exactly once per issued call,
/// never reused and never reset while the connection lives.
pub struct Multiplexer {
    next_id: u64,
}

impl Multiplexer {
    /// The id the next issued call will receive.
    pub closed spec fn spec_next_id(self) -> nat {
        self.next_id as nat
    }

    /// A fresh multiplexer hands out id 0 first.
    pub fn new() -> (r: Multiplexer)
        ensures
            r.spec_next_id() == 0,
    {
        Multiplexer { next_id: 0 }
    }

    /// The id the next issued call will receive, for a caller that must test
    /// the counter before issuing a call.
    pub fn next_id(&self) -> (id: u64)
        ensures
            id as nat == self.spec_next_id(),
    {
        self.next_id
    }

    /// Allocate the next correlation id: each call returns the current
    /// counter and advances it by one, so ids strictly increase.
    pub fn alloc_id(&mut self) -> (id: u64)
        requires
            old(self).spec_next_id() < u64::MAX,
        ensures
            id as nat == old(self).spec_next_id(),
            final(self).spec_next_id() == old(self).spec_next_id() + 1,
    {
        let id = self.next_id;
        self.next_id = self.next_id + 1;
        id
    }

    /// Serialize `call` under the next correlation id and advance the
    /// counter: exactly one message, bearing the id the multiplexer held
    /// before the call.
    pub fn prepare_call(&mut self, call: &MethodCall) -> (msg: Vec<u8>)
        requires
            old(self).spec_next_id() < u64::MAX,
        ensures
            msg@ == spec_call_message(
                old(self).spec_next_id(),
                call.domain@,
                call.name@,
                call.params@,
            ),
            final(self).spec_next_id() == old(self).spec_next_id() + 1,
    {
        let id = self.alloc_id();
        call.serialize(id)
    }
}

/// Two sequential allocations on one multiplexer never return the same id,
/// and on a freshly constructed multiplexer the first call receives 0 and
/// the second its immediate successor: the states and ids below are exactly
/// what two `alloc_id` calls on `m0` leave behind.
pub proof fn lemma_sequential_ids(
    m0: Multiplexer,
    m1: Multiplexer,
    m2: Multiplexer,
    id0: u64,
    id1: u64,
)
    requires
        id0 as nat == m0.spec_next_id(),
        m1.spec_next_id() == m0.spec_next_id() + 1,
        id1 as nat == m1.spec_next_id(),
        m2.spec_next_id() == m1.spec_next_id() + 1,
    ensures
        id0 != id1,
        m0.spec_next_id() == 0 ==> id0 == 0 && id1 == 1,
{
}

} // verus!
