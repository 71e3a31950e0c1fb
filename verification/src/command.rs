//! Parsing one line of user input into a session command. The line source
//! itself (the interactive editor) stays outside; this is the decision of
//! what a line means.

use vstd::prelude::*;

use crate::byteops::{bytes_eq, is_prefix, starts_with_bytes};
use crate::mux::{parse_method_call, spec_parse_method_call, MethodCall};

verus! {

use vstd::string::StringSliceAdditionalSpecFns;

/// One command a line of input can denote. Arguments are kept as the bytes
/// that followed the command word.
#[derive(Debug)]
pub enum Command {
    Version,
    List,
    NewTab(Vec<u8>),
    ConnectTarget(Vec<u8>),
    ActivateTarget(Vec<u8>),
    CloseTarget(Vec<u8>),
    MethodCall(MethodCall),
    Unknown(Vec<u8>),
}

/// What follows the command word: the line with the prefix cut off.
pub open spec fn spec_rest(bytes: Seq<u8>, prefix: Seq<u8>) -> Seq<u8> {
    bytes.skip(prefix.len() as int)
}

/// Parse one line: an empty line means nothing; `version` and `list` stand
/// alone; `newtab `, `connect `, `activate ` and `close ` take the rest of
/// the line as their argument; anything shaped `domain.name(params)` is a
/// method call; everything else is reported back as unknown.
pub fn parse_command_line(line: &str) -> (r: Option<Command>)
    ensures
        ({
            let bytes = line.spec_bytes();
            if bytes.len() == 0 {
                r is None
            } else if bytes == "version".spec_bytes() {
                r == Some(Command::Version)
            } else if bytes == "list".spec_bytes() {
                r == Some(Command::List)
            } else if is_prefix(bytes, "newtab ".spec_bytes()) {
                r matches Some(c) && c matches Command::NewTab(a) && a@ == spec_rest(
                    bytes,
                    "newtab ".spec_bytes(),
                )
            } else if is_prefix(bytes, "connect ".spec_bytes()) {
                r matches Some(c) && c matches Command::ConnectTarget(a) && a@ == spec_rest(
                    bytes,
                    "connect ".spec_bytes(),
                )
            } else if is_prefix(bytes, "activate ".spec_bytes()) {
                r matches Some(c) && c matches Command::ActivateTarget(a) && a@ == spec_rest(
                    bytes,
                    "activate ".spec_bytes(),
                )
            } else if is_prefix(bytes, "close ".spec_bytes()) {
                r matches Some(c) && c matches Command::CloseTarget(a) && a@ == spec_rest(
                    bytes,
                    "close ".spec_bytes(),
                )
            } else {
                match spec_parse_method_call(bytes) {
                    Some(t) => r matches Some(c) && c matches Command::MethodCall(mc)
                        && mc.domain@ == t.0 && mc.name@ == t.1 && mc.params@ == t.2,
                    None => r matches Some(c) && c matches Command::Unknown(a) && a@ == bytes,
                }
            }
        }),
{
    let bytes = line.as_bytes();
    if bytes.len() == 0 {
        return None;
    }
    if bytes_eq(bytes, "version".as_bytes()) {
        return Some(Command::Version);
    }
    if bytes_eq(bytes, "list".as_bytes()) {
        return Some(Command::List);
    }
    let newtab = "newtab ".as_bytes();
    if starts_with_bytes(bytes, newtab) {
        let rest = vstd::slice::slice_to_vec(
            vstd::slice::slice_subrange(bytes, newtab.len(), bytes.len()),
        );
        proof {
            assert(rest@ =~= spec_rest(line.spec_bytes(), "newtab ".spec_bytes()));
        }
        return Some(Command::NewTab(rest));
    }
    let connect = "connect ".as_bytes();
    if starts_with_bytes(bytes, connect) {
        let rest = vstd::slice::slice_to_vec(
            vstd::slice::slice_subrange(bytes, connect.len(), bytes.len()),
        );
        proof {
            assert(rest@ =~= spec_rest(line.spec_bytes(), "connect ".spec_bytes()));
        }
        return Some(Command::ConnectTarget(rest));
    }
    let activate = "activate ".as_bytes();
    if starts_with_bytes(bytes, activate) {
        let rest = vstd::slice::slice_to_vec(
            vstd::slice::slice_subrange(bytes, activate.len(), bytes.len()),
        );
        proof {
            assert(rest@ =~= spec_rest(line.spec_bytes(), "activate ".spec_bytes()));
        }
        return Some(Command::ActivateTarget(rest));
    }
    let close = "close ".as_bytes();
    if starts_with_bytes(bytes, close) {
        let rest = vstd::slice::slice_to_vec(
            vstd::slice::slice_subrange(bytes, close.len(), bytes.len()),
        );
        proof {
            assert(rest@ =~= spec_rest(line.spec_bytes(), "close ".spec_bytes()));
        }
        return Some(Command::CloseTarget(rest));
    }
    match parse_method_call(line) {
        Some(mc) => Some(Command::MethodCall(mc)),
        None => Some(Command::Unknown(vstd::slice::slice_to_vec(bytes))),
    }
}

} // verus!
