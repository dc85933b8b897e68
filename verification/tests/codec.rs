//! Round-trip and error behaviour of the value and instruction codec.

use pleroma::ast::Hvalue;
use pleroma::opcodes::{
    decode_instruction, decode_value, encode_instruction, encode_value, try_decode_instruction,
    try_decode_value, Op,
};
use pleroma::vm_core::EntityAddress;

#[test]
fn value_round_trip_byte() {
    let v = Hvalue::Hu8(7);
    let bytes = encode_value(&v);
    assert_eq!(bytes, vec![0x01, 7]);
    let (n, back) = decode_value(&bytes);
    assert_eq!(n, 2);
    assert!(matches!(back, Hvalue::Hu8(7)));
}

#[test]
fn value_round_trip_promise() {
    let v = Hvalue::Promise(250);
    let bytes = encode_value(&v);
    assert_eq!(bytes, vec![0x02, 250]);
    let (n, back) = decode_value(&bytes);
    assert_eq!(n, 2);
    assert!(matches!(back, Hvalue::Promise(250)));
}

#[test]
fn value_round_trip_address() {
    let v = Hvalue::EntityAddress(EntityAddress { node_id: 1, vat_id: 0x01020304, entity_id: 9 });
    let bytes = encode_value(&v);
    assert_eq!(bytes.len(), 13);
    assert_eq!(bytes[0], 0x03);
    assert_eq!(&bytes[1..5], &[0, 0, 0, 1]);
    assert_eq!(&bytes[5..9], &[1, 2, 3, 4]);
    let (n, back) = decode_value(&bytes);
    assert_eq!(n, 13);
    match back {
        Hvalue::EntityAddress(a) => {
            assert_eq!(a.node_id, 1);
            assert_eq!(a.vat_id, 0x01020304);
            assert_eq!(a.entity_id, 9);
        },
        other => panic!("decoded {:?}", other),
    }
}

#[test]
fn value_decode_rejects_unknown_tag_and_short_input() {
    assert!(try_decode_value(&[0x07, 1]).is_none());
    assert!(try_decode_value(&[]).is_none());
    assert!(try_decode_value(&[0x03, 0, 0]).is_none());
}

#[test]
fn instruction_round_trip_every_opcode() {
    let ops = vec![
        Op::Nop,
        Op::Add,
        Op::Sub,
        Op::Mul,
        Op::Div,
        Op::Ret,
        Op::Push(Hvalue::Hu8(3)),
        Op::Push(Hvalue::Promise(4)),
        Op::Push(Hvalue::EntityAddress(EntityAddress { node_id: 0, vat_id: 2, entity_id: 5 })),
        Op::ForeignCall(77, 2),
        Op::Message(0x0102030405060708, 3),
        Op::Call(600, 1),
        Op::Lload(String::from("x")),
        Op::Lstore(String::from("result")),
        Op::Eload(String::from("field")),
        Op::Estore(String::from("stock")),
        Op::Await,
        Op::ConstructEntity(0x01020304, 2),
    ];
    for op in &ops {
        let bytes = encode_instruction(op);
        let (n, back) = decode_instruction(0, &bytes);
        assert_eq!(n, bytes.len(), "whole encoding consumed for {:?}", op);
        assert_eq!(format!("{:?}", back), format!("{:?}", op));
    }
}

#[test]
fn instruction_round_trip_mid_stream() {
    let a = encode_instruction(&Op::Push(Hvalue::Hu8(9)));
    let b = encode_instruction(&Op::Lstore(String::from("total")));
    let c = encode_instruction(&Op::Ret);
    let mut stream = Vec::new();
    stream.extend_from_slice(&a);
    stream.extend_from_slice(&b);
    stream.extend_from_slice(&c);
    let (x1, i1) = decode_instruction(0, &stream);
    let (x2, i2) = decode_instruction(x1, &stream);
    let (x3, i3) = decode_instruction(x2, &stream);
    assert!(matches!(i1, Op::Push(Hvalue::Hu8(9))));
    assert!(matches!(i2, Op::Lstore(s) if s == "total"));
    assert!(matches!(i3, Op::Ret));
    assert_eq!(x3, stream.len());
}

#[test]
fn instruction_round_trip_unicode_name() {
    let op = Op::Lload(String::from("solde\u{e9}\u{4e16}"));
    let bytes = encode_instruction(&op);
    let (n, back) = decode_instruction(0, &bytes);
    assert_eq!(n, bytes.len());
    assert!(matches!(back, Op::Lload(s) if s == "solde\u{e9}\u{4e16}"));
}

#[test]
fn instruction_decode_rejects_truncated_operands() {
    // a Call opcode with too few target bytes after it
    assert!(try_decode_instruction(0, &[8, 1, 2, 3]).is_none());
    // a string opcode with no terminator
    assert!(try_decode_instruction(0, &[10, b'a', b'b']).is_none());
    // an unknown opcode byte decodes as a one-byte no-op
    let r = try_decode_instruction(0, &[200]);
    assert!(matches!(r, Some((1, Op::Nop))));
}
