//! Message processing end to end: the promise round trip and promise id
//! allocation.

use pleroma::ast::Hvalue;
use pleroma::opcodes::{encode_instruction, Op};
use pleroma::vm::{run_msg, RunMsgOutcome};
use pleroma::vm_core::{EntityAddress, Msg, MsgContents, ValMap, Vat};

fn emit(code: &mut Vec<u8>, ops: &[Op]) {
    for op in ops {
        code.extend_from_slice(&encode_instruction(op));
    }
}

fn be16(v: usize) -> [u8; 2] {
    [((v / 0x100) % 0x100) as u8, (v % 0x100) as u8]
}

/// Two entity types in one module: type 0 sends to an entity of type 1 and
/// awaits the answer; type 1 answers with a byte.
fn build_module() -> Vec<u8> {
    let b_addr = EntityAddress::new(0, 0, 1);
    let mut code_a = Vec::new();
    emit(&mut code_a, &[
        Op::Push(Hvalue::EntityAddress(b_addr)),
        Op::Message(0, 0),
        Op::Lstore(String::from("x")),
        Op::Lload(String::from("x")),
        Op::Await,
        Op::Lload(String::from("x")),
        Op::Ret,
    ]);
    let mut code_b = Vec::new();
    emit(&mut code_b, &[Op::Push(Hvalue::Hu8(42)), Op::Ret]);
    let header_len = 1 + 1 + 1 + 2 * 6;
    let start_a = header_len;
    let start_b = header_len + code_a.len();
    let mut module = vec![0u8, 0u8, 2u8];
    module.push(0);
    module.push(0);
    module.extend_from_slice(&be16(start_a));
    module.extend_from_slice(&be16(code_a.len()));
    module.push(1);
    module.push(0);
    module.extend_from_slice(&be16(start_b));
    module.extend_from_slice(&be16(code_b.len()));
    assert_eq!(module.len(), header_len);
    module.extend_from_slice(&code_a);
    module.extend_from_slice(&code_b);
    module
}

fn two_entity_vat() -> Vat {
    let mut vat = Vat::new(0, build_module());
    vat.create_entity_code(0, 0, &ValMap::new());
    vat.create_entity_code(1, 0, &ValMap::new());
    vat
}

#[test]
fn promise_round_trip_end_to_end() {
    let mut vat = two_entity_vat();
    let a_addr = EntityAddress::new(0, 0, 0);
    let c_addr = EntityAddress::new(0, 9, 3);
    // the outer requester awaits the answer under its own promise id
    let request = Msg {
        src_address: c_addr,
        dst_address: a_addr,
        contents: MsgContents::Request {
            args: Vec::new(),
            function_id: 0,
            src_promise: Some(7),
            no_response: false,
        },
    };
    // the awaiting send yields without a response
    let r1 = run_msg(&mut vat, &request, 10_000).unwrap();
    assert!(matches!(r1, RunMsgOutcome::Done(None)));
    assert_eq!(vat.outbox.len(), 1);
    assert_eq!(vat.promise_stack.len(), 1);
    assert!(!vat.promise_stack[0].resolved);
    assert_eq!(vat.promise_stack[0].on_resolve.len(), 1);
    let to_b = vat.outbox.remove(0);
    assert_eq!(to_b.dst_address.entity_id, 1);
    match &to_b.contents {
        MsgContents::Request { function_id, src_promise, .. } => {
            assert_eq!(*function_id, 0);
            assert_eq!(*src_promise, Some(0));
        },
        other => panic!("unexpected contents {:?}", other),
    }
    // the callee answers synchronously, carrying the matching promise id
    let r2 = run_msg(&mut vat, &to_b, 10_000).unwrap();
    let response = match r2 {
        RunMsgOutcome::Done(Some(m)) => m,
        other => panic!("expected a response, got {:?}", other),
    };
    assert_eq!(response.dst_address.entity_id, 0);
    match &response.contents {
        MsgContents::Response { result, dst_promise } => {
            assert!(matches!(result, Hvalue::Hu8(42)));
            assert_eq!(*dst_promise, Some(0));
        },
        other => panic!("unexpected contents {:?}", other),
    }
    // resolution resumes at the saved pointer, binds the local, and the
    // chained response goes back to the outer requester
    let r3 = run_msg(&mut vat, &response, 10_000).unwrap();
    let chained = match r3 {
        RunMsgOutcome::Done(Some(m)) => m,
        other => panic!("expected a chained response, got {:?}", other),
    };
    assert!(vat.promise_stack[0].resolved);
    assert_eq!(chained.dst_address, c_addr);
    match &chained.contents {
        MsgContents::Response { result, dst_promise } => {
            assert!(matches!(result, Hvalue::Hu8(42)));
            assert_eq!(*dst_promise, Some(7));
        },
        other => panic!("unexpected contents {:?}", other),
    }
}

#[test]
fn consecutive_sends_allocate_strictly_increasing_promise_ids() {
    let b_addr = EntityAddress::new(0, 0, 1);
    let mut code_a = Vec::new();
    emit(&mut code_a, &[
        Op::Push(Hvalue::EntityAddress(b_addr)),
        Op::Message(0, 0),
        Op::Lstore(String::from("a")),
        Op::Push(Hvalue::EntityAddress(b_addr)),
        Op::Message(0, 0),
        Op::Lstore(String::from("b")),
        Op::Ret,
    ]);
    let header_len = 1 + 1 + 1 + 6;
    let mut module = vec![0u8, 0u8, 1u8, 0u8, 0u8];
    module.extend_from_slice(&be16(header_len));
    module.extend_from_slice(&be16(code_a.len()));
    module.extend_from_slice(&code_a);
    let mut vat = Vat::new(0, module);
    vat.create_entity_code(0, 0, &ValMap::new());
    vat.create_entity_code(1, 0, &ValMap::new());
    let request = Msg {
        src_address: EntityAddress::new(0, 0, 5),
        dst_address: EntityAddress::new(0, 0, 0),
        contents: MsgContents::Request {
            args: Vec::new(),
            function_id: 0,
            src_promise: None,
            no_response: false,
        },
    };
    let r = run_msg(&mut vat, &request, 10_000).unwrap();
    assert!(matches!(r, RunMsgOutcome::Done(Some(_))));
    assert_eq!(vat.promise_stack.len(), 2);
    assert_eq!(vat.outbox.len(), 2);
    let first = match &vat.outbox[0].contents {
        MsgContents::Request { src_promise, .. } => src_promise.unwrap(),
        _ => panic!(),
    };
    let second = match &vat.outbox[1].contents {
        MsgContents::Request { src_promise, .. } => src_promise.unwrap(),
        _ => panic!(),
    };
    assert_eq!(first, 0);
    assert_eq!(second, 1);
    assert!(second > first);
}

#[test]
fn request_with_no_response_set_stays_silent() {
    let mut vat = two_entity_vat();
    let request = Msg {
        src_address: EntityAddress::new(0, 9, 3),
        dst_address: EntityAddress::new(0, 0, 1),
        contents: MsgContents::Request {
            args: Vec::new(),
            function_id: 0,
            src_promise: None,
            no_response: true,
        },
    };
    let r = run_msg(&mut vat, &request, 10_000).unwrap();
    assert!(matches!(r, RunMsgOutcome::Done(None)));
}

#[test]
fn response_for_unknown_promise_is_an_address_error() {
    let mut vat = two_entity_vat();
    let response = Msg {
        src_address: EntityAddress::new(0, 0, 1),
        dst_address: EntityAddress::new(0, 0, 0),
        contents: MsgContents::Response { result: Hvalue::Hu8(1), dst_promise: Some(3) },
    };
    let e = run_msg(&mut vat, &response, 10_000).unwrap_err();
    assert_eq!(e, pleroma::vm::VmError::AddressError);
}

#[test]
fn request_arguments_arrive_as_parameters() {
    // one entity whose function stores its two arguments and returns the
    // difference: the first pushed argument binds first
    let mut code = Vec::new();
    emit(&mut code, &[
        Op::Lstore(String::from("q")),
        Op::Lstore(String::from("p")),
        Op::Lload(String::from("p")),
        Op::Lload(String::from("q")),
        Op::Sub,
        Op::Ret,
    ]);
    let header_len = 1 + 1 + 1 + 6;
    let mut module = vec![0u8, 0u8, 1u8, 0u8, 0u8];
    module.extend_from_slice(&be16(header_len));
    module.extend_from_slice(&be16(code.len()));
    module.extend_from_slice(&code);
    let mut vat = Vat::new(0, module);
    vat.create_entity_code(0, 0, &ValMap::new());
    let request = Msg {
        src_address: EntityAddress::new(0, 0, 4),
        dst_address: EntityAddress::new(0, 0, 0),
        contents: MsgContents::Request {
            args: vec![Hvalue::Hu8(9), Hvalue::Hu8(3)],
            function_id: 0,
            src_promise: Some(1),
            no_response: false,
        },
    };
    let r = run_msg(&mut vat, &request, 10_000).unwrap();
    let response = match r {
        RunMsgOutcome::Done(Some(m)) => m,
        other => panic!("expected a response, got {:?}", other),
    };
    match &response.contents {
        MsgContents::Response { result, dst_promise } => {
            assert!(matches!(result, Hvalue::Hu8(6)), "9 - 3 from p - q, got {:?}", result);
            assert_eq!(*dst_promise, Some(1));
        },
        other => panic!("unexpected contents {:?}", other),
    }
}
