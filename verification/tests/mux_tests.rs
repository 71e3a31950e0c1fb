use cdp_wire::command::{parse_command_line, Command};
use cdp_wire::errors::WireError;
use cdp_wire::frame::{Frame, FrameHeader, Opcode};
use cdp_wire::mux::{parse_method_call, MessageKind, MethodCall, Multiplexer, receive_step};

fn inbound(fin: bool, mask: bool, payload: &[u8]) -> Frame {
    Frame {
        header: FrameHeader {
            fin,
            opcode: Opcode::TextFrame,
            mask,
            payload_len: payload.len(),
            masking_key: if mask { Some([0, 0, 0, 0]) } else { None },
        },
        payload: payload.to_vec(),
    }
}

#[test]
fn payload_with_id_is_a_reply() {
    let f = inbound(true, false, b"{\"id\":7,\"result\":{}}");
    assert_eq!(receive_step(&f), Ok(MessageKind::Reply));
}

#[test]
fn payload_without_id_is_an_event() {
    let f = inbound(true, false, b"{\"method\":\"Page.loadEventFired\",\"params\":{}}");
    assert_eq!(receive_step(&f), Ok(MessageKind::Event));
}

#[test]
fn non_final_frame_fails_fast() {
    let f = inbound(false, false, b"{\"id\":7}");
    assert_eq!(receive_step(&f), Err(WireError::FragmentedFrame));
}

#[test]
fn masked_inbound_frame_is_a_violation() {
    let f = inbound(true, true, b"{\"id\":7}");
    assert_eq!(receive_step(&f), Err(WireError::MaskedFrame));
}

#[test]
fn unparseable_payload_is_fatal() {
    let f = inbound(true, false, b"this is not json");
    assert_eq!(receive_step(&f), Err(WireError::PayloadNotJson));
}

#[test]
fn ids_start_at_zero_and_never_repeat() {
    let mut mux = Multiplexer::new();
    let id0 = mux.alloc_id();
    let id1 = mux.alloc_id();
    assert_eq!(id0, 0);
    assert_eq!(id1, 1);
    assert_ne!(id0, id1);
    let id2 = mux.alloc_id();
    assert_eq!(id2, 2);
}

#[test]
fn prepared_calls_carry_consecutive_ids() {
    let mut mux = Multiplexer::new();
    let call = MethodCall {
        domain: b"Page".to_vec(),
        name: b"enable".to_vec(),
        params: b"{}".to_vec(),
    };
    let first = mux.prepare_call(&call);
    let second = mux.prepare_call(&call);
    assert_eq!(first, b"{\"id\":0,\"method\":\"Page.enable\",\"params\":{}}".to_vec());
    assert_eq!(second, b"{\"id\":1,\"method\":\"Page.enable\",\"params\":{}}".to_vec());
}

#[test]
fn serialize_is_bit_exact() {
    let call = MethodCall {
        domain: b"Page".to_vec(),
        name: b"navigate".to_vec(),
        params: b"{\"url\":\"http://example.com\"}".to_vec(),
    };
    assert_eq!(
        call.serialize(7),
        b"{\"id\":7,\"method\":\"Page.navigate\",\"params\":{\"url\":\"http://example.com\"}}"
            .to_vec()
    );
}

#[test]
fn method_call_lines_parse() {
    let mc = MethodCall::from_str("Page.navigate({\"url\":\"http://example.com\"})").unwrap();
    assert_eq!(mc.domain, b"Page".to_vec());
    assert_eq!(mc.name, b"navigate".to_vec());
    assert_eq!(mc.params, b"{\"url\":\"http://example.com\"}".to_vec());
}

#[test]
fn empty_params_default_to_empty_object() {
    let mc = parse_method_call("Runtime.enable()").unwrap();
    assert_eq!(mc.domain, b"Runtime".to_vec());
    assert_eq!(mc.name, b"enable".to_vec());
    assert_eq!(mc.params, b"{}".to_vec());
}

#[test]
fn malformed_method_call_lines_are_refused() {
    assert!(parse_method_call("no parens or dot").is_none());
    assert!(parse_method_call("nodot()").is_none());
    assert!(parse_method_call("Page.navigate").is_none());
    assert!(parse_method_call("Page.navigate(").is_none());
    assert!(parse_method_call("Page.navigate({broken})").is_none());
}

#[test]
fn unusual_method_names_parse_and_are_escaped() {
    // a quote in the domain is accepted; serialization escapes it
    let mc = parse_method_call("Pa\"ge.navigate({})").unwrap();
    assert_eq!(mc.domain, b"Pa\"ge".to_vec());
    assert_eq!(
        mc.serialize(0),
        b"{\"id\":0,\"method\":\"Pa\\\"ge.navigate\",\"params\":{}}".to_vec()
    );

    // non-ASCII text passes through unescaped
    let mc = parse_method_call("d\u{00f6}main.name({})").unwrap();
    assert_eq!(mc.domain, "d\u{00f6}main".as_bytes().to_vec());
    let msg = mc.serialize(1);
    assert_eq!(
        msg,
        format!("{{\"id\":1,\"method\":\"d\u{00f6}main.name\",\"params\":{{}}}}").into_bytes()
    );

    // control bytes take their short or numeric escapes
    let mc = parse_method_call("do\tmain.na\u{0001}me({})").unwrap();
    assert_eq!(
        mc.serialize(2),
        b"{\"id\":2,\"method\":\"do\\tmain.na\\u0001me\",\"params\":{}}".to_vec()
    );

    // a backslash doubles
    let mc = parse_method_call("do\\main.name({})").unwrap();
    assert_eq!(
        mc.serialize(3),
        b"{\"id\":3,\"method\":\"do\\\\main.name\",\"params\":{}}".to_vec()
    );
}

#[test]
fn method_string_escaping_matches_the_json_serializer() {
    let odd = "Pa\"ge.na\\v\ti\u{0001}g\u{00e4}te";
    let (domain, name) = odd.split_once('.').unwrap();
    let mc = MethodCall {
        domain: domain.as_bytes().to_vec(),
        name: name.as_bytes().to_vec(),
        params: b"{}".to_vec(),
    };
    let msg = String::from_utf8(mc.serialize(5)).unwrap();
    let method = serde_json::to_string(&serde_json::Value::String(odd.to_string())).unwrap();
    assert_eq!(msg, format!("{{\"id\":5,\"method\":{},\"params\":{{}}}}", method));
}

#[test]
fn command_lines_parse() {
    assert!(matches!(parse_command_line("version"), Some(Command::Version)));
    assert!(matches!(parse_command_line("list"), Some(Command::List)));
    assert!(parse_command_line("").is_none());
    match parse_command_line("newtab chrome://newtab/") {
        Some(Command::NewTab(url)) => assert_eq!(url, b"chrome://newtab/".to_vec()),
        other => panic!("expected newtab, got {:?}", other),
    }
    match parse_command_line("connect ws://h/devtools/page/1") {
        Some(Command::ConnectTarget(url)) => assert_eq!(url, b"ws://h/devtools/page/1".to_vec()),
        other => panic!("expected connect, got {:?}", other),
    }
    match parse_command_line("activate tab-1") {
        Some(Command::ActivateTarget(id)) => assert_eq!(id, b"tab-1".to_vec()),
        other => panic!("expected activate, got {:?}", other),
    }
    match parse_command_line("close tab-1") {
        Some(Command::CloseTarget(id)) => assert_eq!(id, b"tab-1".to_vec()),
        other => panic!("expected close, got {:?}", other),
    }
    match parse_command_line("Network.enable()") {
        Some(Command::MethodCall(mc)) => {
            assert_eq!(mc.domain, b"Network".to_vec());
            assert_eq!(mc.name, b"enable".to_vec());
        },
        other => panic!("expected method call, got {:?}", other),
    }
    match parse_command_line("what is this") {
        Some(Command::Unknown(line)) => assert_eq!(line, b"what is this".to_vec()),
        other => panic!("expected unknown, got {:?}", other),
    }
}
