//! The instruction set and its byte codec: the contract shared by compiler
//! and interpreter. Multi-byte immediates are big-endian; string operands are
//! NUL-terminated UTF-8; tagged values use 0x01 (byte), 0x02 (promise id) and
//! 0x03 (entity address).

use vstd::prelude::*;
use vstd::utf8::encode_utf8;
use crate::ast::{Hvalue, HvalueV};
use crate::bin_helpers::{
    be16, be32, be64, read_u8_sz, read_u32_sz, read_u64_sz, try_read_utf8_str_sz, spec_read_str,
    lemma_read_str_of_encoded,
};
use crate::vm_core::EntityAddress;

verus! {

/// A decoded instruction.
#[derive(Debug)]
pub enum Op {
    Nop,
    Add,
    Sub,
    Mul,
    Div,
    Ret,
    Push(Hvalue),
    ForeignCall(u64, u8),
    Message(u64, u8),
    Call(u64, u8),
    Lload(String),
    Lstore(String),
    Eload(String),
    Estore(String),
    Await,
    ConstructEntity(u32, u8),
}

/// The opcode bytes alone, in encoding order: `Nop` encodes as 0, `Add` as 1,
/// and so on through `Await` as 14 and `ConstructEntity` as 15.
#[derive(Debug, Clone, Copy, PartialEq, Eq, Structural)]
pub enum SimpleOp {
    Nop,
    Add,
    Sub,
    Mul,
    Div,
    Ret,
    Push,
    ForeignCall,
    Call,
    Message,
    Lload,
    Lstore,
    Eload,
    Estore,
    Await,
    ConstructEntity,
}

/// The mathematical shape of an instruction.
pub ghost enum OpV {
    Nop,
    Add,
    Sub,
    Mul,
    Div,
    Ret,
    Push(HvalueV),
    ForeignCall(u64, u8),
    Message(u64, u8),
    Call(u64, u8),
    Lload(Seq<char>),
    Lstore(Seq<char>),
    Eload(Seq<char>),
    Estore(Seq<char>),
    Await,
    ConstructEntity(u32, u8),
}

impl View for Op {
    type V = OpV;

    open spec fn view(&self) -> OpV {
        match self {
            Op::Nop => OpV::Nop,
            Op::Add => OpV::Add,
            Op::Sub => OpV::Sub,
            Op::Mul => OpV::Mul,
            Op::Div => OpV::Div,
            Op::Ret => OpV::Ret,
            Op::Push(v) => OpV::Push(v@),
            Op::ForeignCall(a0, a1) => OpV::ForeignCall(*a0, *a1),
            Op::Message(a0, a1) => OpV::Message(*a0, *a1),
            Op::Call(a0, a1) => OpV::Call(*a0, *a1),
            Op::Lload(s) => OpV::Lload(s@),
            Op::Lstore(s) => OpV::Lstore(s@),
            Op::Eload(s) => OpV::Eload(s@),
            Op::Estore(s) => OpV::Estore(s@),
            Op::Await => OpV::Await,
            Op::ConstructEntity(a0, a1) => OpV::ConstructEntity(*a0, *a1),
        }
    }
}

/// The two bytes of a 16-bit value, most significant first.
pub open spec fn be_bytes2(v: int) -> Seq<u8> {
    seq![((v / 0x100) % 0x100) as u8, (v % 0x100) as u8]
}

/// The four bytes of a 32-bit value, most significant first.
pub open spec fn be_bytes4(v: int) -> Seq<u8> {
    seq![
        ((v / 0x1000000) % 0x100) as u8,
        ((v / 0x10000) % 0x100) as u8,
        ((v / 0x100) % 0x100) as u8,
        (v % 0x100) as u8,
    ]
}

/// The eight bytes of a 64-bit value, most significant first.
pub open spec fn be_bytes8(v: int) -> Seq<u8> {
    seq![
        ((v / 0x100000000000000) % 0x100) as u8,
        ((v / 0x1000000000000) % 0x100) as u8,
        ((v / 0x10000000000) % 0x100) as u8,
        ((v / 0x100000000) % 0x100) as u8,
        ((v / 0x1000000) % 0x100) as u8,
        ((v / 0x10000) % 0x100) as u8,
        ((v / 0x100) % 0x100) as u8,
        (v % 0x100) as u8,
    ]
}

/// Splitting a 16-bit value into big-endian bytes and reassembling them is
/// the identity.
pub proof fn lemma_be2_round_trip(v: u16)
    ensures
        be16(be_bytes2(v as int)[0], be_bytes2(v as int)[1]) == v,
{
    let x = v as int;
    vstd::arithmetic::div_mod::lemma_fundamental_div_mod(x, 0x100);
    vstd::arithmetic::div_mod::lemma_multiply_divide_lt(x, 0x100, 0x100);
    assert((x / 0x100) % 0x100 == x / 0x100);
}

/// Splitting a 32-bit value into big-endian bytes and reassembling them is
/// the identity.
pub proof fn lemma_be4_round_trip(v: u32)
    ensures
        be32(be_bytes4(v as int)[0], be_bytes4(v as int)[1], be_bytes4(v as int)[2], be_bytes4(v as int)[3])
            == v,
{
    let x = v as int;
    let q1 = x / 0x100;
    let q2 = x / 0x10000;
    let q3 = x / 0x1000000;
    vstd::arithmetic::div_mod::lemma_div_denominator(x, 0x100, 0x100);
    vstd::arithmetic::div_mod::lemma_div_denominator(x, 0x10000, 0x100);
    assert(q2 == q1 / 0x100);
    assert(q3 == q2 / 0x100);
    vstd::arithmetic::div_mod::lemma_fundamental_div_mod(x, 0x100);
    vstd::arithmetic::div_mod::lemma_fundamental_div_mod(q1, 0x100);
    vstd::arithmetic::div_mod::lemma_fundamental_div_mod(q2, 0x100);
    vstd::arithmetic::div_mod::lemma_multiply_divide_lt(x, 0x1000000, 0x100);
    assert(q3 % 0x100 == q3);
    assert(q3 * 0x100 + q2 % 0x100 == q2);
    assert(q2 * 0x100 + q1 % 0x100 == q1);
    assert(q1 * 0x100 + x % 0x100 == x);
}

/// Splitting a 64-bit value into big-endian bytes and reassembling them is
/// the identity.
pub proof fn lemma_be8_round_trip(v: u64)
    ensures
        ({
            let b = be_bytes8(v as int);
            be64(b[0], b[1], b[2], b[3], b[4], b[5], b[6], b[7]) == v
        }),
{
    let x = v as int;
    let q1 = x / 0x100;
    let q2 = x / 0x10000;
    let q3 = x / 0x1000000;
    let q4 = x / 0x100000000;
    let q5 = x / 0x10000000000;
    let q6 = x / 0x1000000000000;
    let q7 = x / 0x100000000000000;
    vstd::arithmetic::div_mod::lemma_div_denominator(x, 0x100, 0x100);
    vstd::arithmetic::div_mod::lemma_div_denominator(x, 0x10000, 0x100);
    vstd::arithmetic::div_mod::lemma_div_denominator(x, 0x1000000, 0x100);
    vstd::arithmetic::div_mod::lemma_div_denominator(x, 0x100000000, 0x100);
    vstd::arithmetic::div_mod::lemma_div_denominator(x, 0x10000000000, 0x100);
    vstd::arithmetic::div_mod::lemma_div_denominator(x, 0x1000000000000, 0x100);
    assert(q2 == q1 / 0x100);
    assert(q3 == q2 / 0x100);
    assert(q4 == q3 / 0x100);
    assert(q5 == q4 / 0x100);
    assert(q6 == q5 / 0x100);
    assert(q7 == q6 / 0x100);
    vstd::arithmetic::div_mod::lemma_fundamental_div_mod(x, 0x100);
    vstd::arithmetic::div_mod::lemma_fundamental_div_mod(q1, 0x100);
    vstd::arithmetic::div_mod::lemma_fundamental_div_mod(q2, 0x100);
    vstd::arithmetic::div_mod::lemma_fundamental_div_mod(q3, 0x100);
    vstd::arithmetic::div_mod::lemma_fundamental_div_mod(q4, 0x100);
    vstd::arithmetic::div_mod::lemma_fundamental_div_mod(q5, 0x100);
    vstd::arithmetic::div_mod::lemma_fundamental_div_mod(q6, 0x100);
    vstd::arithmetic::div_mod::lemma_multiply_divide_lt(x, 0x100000000000000, 0x100);
    assert(q7 % 0x100 == q7);
    assert(q7 * 0x100 + q6 % 0x100 == q6);
    assert(q6 * 0x100 + q5 % 0x100 == q5);
    assert(q5 * 0x100 + q4 % 0x100 == q4);
    assert(q4 * 0x100 + q3 % 0x100 == q3);
    assert(q3 * 0x100 + q2 % 0x100 == q2);
    assert(q2 * 0x100 + q1 % 0x100 == q1);
    assert(q1 * 0x100 + x % 0x100 == x);
}

/// Which values the tagged-value codec covers.
pub open spec fn value_encodable(v: HvalueV) -> bool {
    v is VU8 || v is VPromise || v is VAddr
}

/// The byte encoding of a tagged value.
pub open spec fn spec_encode_value(v: HvalueV) -> Seq<u8> {
    match v {
        HvalueV::VU8(x) => seq![0x01u8, x],
        HvalueV::VPromise(x) => seq![0x02u8, x],
        HvalueV::VAddr(a) => seq![0x03u8] + be_bytes4(a.node_id as int) + be_bytes4(
            a.vat_id as int,
        ) + be_bytes4(a.entity_id as int),
        _ => Seq::empty(),
    }
}

/// What decoding a tagged value from the front of `b` yields: the number of
/// bytes consumed and the value, or nothing when the tag is unknown or the
/// payload is cut short.
pub open spec fn spec_decode_value(b: Seq<u8>) -> Option<(int, HvalueV)> {
    if b.len() < 1 {
        Option::None
    } else if b[0] == 0x01 && b.len() >= 2 {
        Option::Some((2, HvalueV::VU8(b[1])))
    } else if b[0] == 0x02 && b.len() >= 2 {
        Option::Some((2, HvalueV::VPromise(b[1])))
    } else if b[0] == 0x03 && b.len() >= 13 {
        Option::Some(
            (
                13,
                HvalueV::VAddr(
                    EntityAddress {
                        node_id: be32(b[1], b[2], b[3], b[4]) as u32,
                        vat_id: be32(b[5], b[6], b[7], b[8]) as u32,
                        entity_id: be32(b[9], b[10], b[11], b[12]) as u32,
                    },
                ),
            ),
        )
    } else {
        Option::None
    }
}

/// Round trip for tagged values: decoding an encoded value consumes exactly
/// its bytes and recovers it, whatever bytes follow.
pub proof fn lemma_value_round_trip(v: HvalueV, rest: Seq<u8>)
    requires
        value_encodable(v),
    ensures
        spec_decode_value(spec_encode_value(v) + rest) == Option::Some(
            (spec_encode_value(v).len() as int, v),
        ),
{
    let b = spec_encode_value(v) + rest;
    match v {
        HvalueV::VAddr(a) => {
            assert(b[0] == 0x03);
            lemma_be4_round_trip(a.node_id);
            lemma_be4_round_trip(a.vat_id);
            lemma_be4_round_trip(a.entity_id);
            assert(be32(b[1], b[2], b[3], b[4]) == a.node_id);
            assert(be32(b[5], b[6], b[7], b[8]) == a.vat_id);
            assert(be32(b[9], b[10], b[11], b[12]) == a.entity_id);
        },
        _ => {},
    }
}

/// Pushes the big-endian bytes of a 32-bit value.
pub fn emit_be4(out: &mut Vec<u8>, v: u32)
    ensures
        final(out)@ == old(out)@ + be_bytes4(v as int),
{
    out.push((v / 0x1000000) as u8);
    out.push(((v / 0x10000) % 0x100) as u8);
    out.push(((v / 0x100) % 0x100) as u8);
    out.push((v % 0x100) as u8);
    proof {
        vstd::arithmetic::div_mod::lemma_multiply_divide_lt(v as int, 0x1000000, 0x100);
        assert((v as int / 0x1000000) % 0x100 == v as int / 0x1000000);
        assert(final(out)@ =~= old(out)@ + be_bytes4(v as int));
    }
}

/// Pushes the big-endian bytes of a 64-bit value.
pub fn emit_be8(out: &mut Vec<u8>, v: u64)
    ensures
        final(out)@ == old(out)@ + be_bytes8(v as int),
{
    out.push((v / 0x100000000000000) as u8);
    out.push(((v / 0x1000000000000) % 0x100) as u8);
    out.push(((v / 0x10000000000) % 0x100) as u8);
    out.push(((v / 0x100000000) % 0x100) as u8);
    out.push(((v / 0x1000000) % 0x100) as u8);
    out.push(((v / 0x10000) % 0x100) as u8);
    out.push(((v / 0x100) % 0x100) as u8);
    out.push((v % 0x100) as u8);
    proof {
        vstd::arithmetic::div_mod::lemma_multiply_divide_lt(v as int, 0x100000000000000, 0x100);
        assert((v as int / 0x100000000000000) % 0x100 == v as int / 0x100000000000000);
        assert(final(out)@ =~= old(out)@ + be_bytes8(v as int));
    }
}

/// Encodes a tagged value.
pub fn encode_value(val: &Hvalue) -> (r: Vec<u8>)
    requires
        value_encodable(val@),
    ensures
        r@ == spec_encode_value(val@),
{
    let mut bytes: Vec<u8> = Vec::new();
    match val {
        Hvalue::Hu8(a0) => {
            bytes.push(0x01);
            bytes.push(*a0);
            proof {
                assert(bytes@ =~= spec_encode_value(val@));
            }
        },
        Hvalue::Promise(a0) => {
            bytes.push(0x02);
            bytes.push(*a0);
            proof {
                assert(bytes@ =~= spec_encode_value(val@));
            }
        },
        Hvalue::EntityAddress(address) => {
            bytes.push(0x03);
            emit_be4(&mut bytes, address.node_id);
            emit_be4(&mut bytes, address.vat_id);
            emit_be4(&mut bytes, address.entity_id);
            proof {
                assert(bytes@ =~= spec_encode_value(val@));
            }
        },
        _ => {
            proof {
                assert(false);
            }
        },
    }
    bytes
}

/// Decodes a tagged value from the front of a block, or reports that none is
/// there.
pub fn try_decode_value(vblock: &[u8]) -> (r: Option<(usize, Hvalue)>)
    ensures
        match r {
            Option::Some((n, v)) => spec_decode_value(vblock@) == Option::Some((n as int, v@)),
            Option::None => spec_decode_value(vblock@) is None,
        },
{
    if vblock.len() < 1 {
        return Option::None;
    }
    let tag = vblock[0];
    if tag == 0x01 && vblock.len() >= 2 {
        let (_, a0) = read_u8_sz(&vblock[1..vblock.len()]);
        Option::Some((2, Hvalue::Hu8(a0)))
    } else if tag == 0x02 && vblock.len() >= 2 {
        let (_, a0) = read_u8_sz(&vblock[1..vblock.len()]);
        Option::Some((2, Hvalue::Promise(a0)))
    } else if tag == 0x03 && vblock.len() >= 13 {
        let (_, node_id) = read_u32_sz(&vblock[1..vblock.len()]);
        let (_, vat_id) = read_u32_sz(&vblock[5..vblock.len()]);
        let (_, entity_id) = read_u32_sz(&vblock[9..vblock.len()]);
        Option::Some((13, Hvalue::EntityAddress(EntityAddress { node_id, vat_id, entity_id })))
    } else {
        Option::None
    }
}

/// Decodes a tagged value that is known to be well-formed.
pub fn decode_value(vblock: &[u8]) -> (r: (usize, Hvalue))
    requires
        spec_decode_value(vblock@) is Some,
    ensures
        spec_decode_value(vblock@) == Option::Some((r.0 as int, r.1@)),
{
    match try_decode_value(vblock) {
        Option::Some(r) => r,
        Option::None => {
            proof {
                assert(false);
            }
            (0, Hvalue::HNone)
        },
    }
}

/// A string operand must carry no NUL character.
pub open spec fn str_operand_ok(s: Seq<char>) -> bool {
    forall|i: int| 0 <= i < s.len() ==> s[i] != '\0'
}

/// Whether the codec covers an instruction: pushed values must be encodable
/// and string operands must carry no NUL character.
pub open spec fn instr_encodable(op: OpV) -> bool {
    match op {
        OpV::Push(v) => value_encodable(v),
        OpV::Lload(s) => str_operand_ok(s),
        OpV::Lstore(s) => str_operand_ok(s),
        OpV::Eload(s) => str_operand_ok(s),
        OpV::Estore(s) => str_operand_ok(s),
        _ => true,
    }
}

/// A NUL character in a string puts a NUL byte in its encoding.
proof fn lemma_nul_char_gives_nul_byte(s: Seq<char>)
    requires
        exists|i: int| 0 <= i < s.len() && s[i] == '\0',
    ensures
        exists|j: int| 0 <= j < encode_utf8(s).len() && encode_utf8(s)[j] == 0,
    decreases s.len(),
{
    if s[0] == '\0' {
        assert(('\0' as u32) == 0);
        assert(((0u32 & 0x7F) as u8) == 0) by (bit_vector);
        assert(vstd::utf8::encode_scalar(0u32) =~= seq![0u8]);
        assert(encode_utf8(s)[0] == 0);
    } else {
        let i = choose|i: int| 0 <= i < s.len() && s[i] == '\0';
        assert(s.drop_first()[i - 1] == '\0');
        lemma_nul_char_gives_nul_byte(s.drop_first());
        let j = choose|j: int|
            0 <= j < encode_utf8(s.drop_first()).len() && encode_utf8(s.drop_first())[j] == 0;
        let head = vstd::utf8::encode_scalar(s[0] as u32);
        assert(encode_utf8(s)[head.len() + j] == 0);
    }
}

/// Whether a value is one the tagged-value codec covers.
pub fn value_encodable_exec(v: &Hvalue) -> (r: bool)
    ensures
        r == value_encodable(v@),
{
    match v {
        Hvalue::Hu8(_) => true,
        Hvalue::Promise(_) => true,
        Hvalue::EntityAddress(_) => true,
        _ => false,
    }
}

/// Whether a string can stand as an instruction operand: its UTF-8 bytes
/// hold no NUL.
pub fn str_ok_exec(s: &String) -> (r: bool)
    ensures
        r == str_operand_ok(s@),
{
    let bytes: &[u8] = s.as_str().as_bytes();
    let n = bytes.len();
    let mut i: usize = 0;
    while i < n
        invariant
            0 <= i <= n,
            n == bytes@.len(),
            bytes@ == encode_utf8(s@),
            forall|j: int| 0 <= j < i ==> bytes@[j] != 0,
        decreases n - i,
    {
        if bytes[i] == 0 {
            proof {
                if str_operand_ok(s@) {
                    crate::bin_helpers::lemma_encode_utf8_no_nul(s@);
                }
            }
            return false;
        }
        i = i + 1;
    }
    proof {
        if !str_operand_ok(s@) {
            let k = choose|k: int| 0 <= k < s@.len() && s@[k] == '\0';
            lemma_nul_char_gives_nul_byte(s@);
        }
    }
    true
}

/// A string operand's bytes: its UTF-8 encoding plus the NUL terminator.
pub open spec fn spec_encode_str(s: Seq<char>) -> Seq<u8> {
    encode_utf8(s) + seq![0u8]
}

/// The byte encoding of an instruction: the opcode byte, then its operands.
pub open spec fn spec_encode_instruction(op: OpV) -> Seq<u8> {
    match op {
        OpV::Nop => seq![0u8],
        OpV::Add => seq![1u8],
        OpV::Sub => seq![2u8],
        OpV::Mul => seq![3u8],
        OpV::Div => seq![4u8],
        OpV::Ret => seq![5u8],
        OpV::Push(v) => seq![6u8] + spec_encode_value(v),
        OpV::ForeignCall(a0, a1) => seq![7u8] + be_bytes8(a0 as int) + seq![a1],
        OpV::Call(a0, a1) => seq![8u8] + be_bytes8(a0 as int) + seq![a1],
        OpV::Message(a0, a1) => seq![9u8] + be_bytes8(a0 as int) + seq![a1],
        OpV::Lload(s) => seq![10u8] + spec_encode_str(s),
        OpV::Lstore(s) => seq![11u8] + spec_encode_str(s),
        OpV::Eload(s) => seq![12u8] + spec_encode_str(s),
        OpV::Estore(s) => seq![13u8] + spec_encode_str(s),
        OpV::Await => seq![14u8],
        OpV::ConstructEntity(a0, a1) => seq![15u8] + be_bytes4(a0 as int) + seq![a1],
    }
}

/// What decoding an instruction at offset `x` yields: the offset just past
/// it and the instruction, or nothing when operands run past the end of the
/// block. An opcode byte past the defined range decodes as `Nop`, one byte
/// long.
pub open spec fn spec_decode_instruction(b: Seq<u8>, x: int) -> Option<(int, OpV)> {
    if !(0 <= x < b.len()) {
        Option::None
    } else {
        let opb = b[x];
        let rest = b.subrange(x + 1, b.len() as int);
        if opb == 1 {
            Option::Some((x + 1, OpV::Add))
        } else if opb == 2 {
            Option::Some((x + 1, OpV::Sub))
        } else if opb == 3 {
            Option::Some((x + 1, OpV::Mul))
        } else if opb == 4 {
            Option::Some((x + 1, OpV::Div))
        } else if opb == 5 {
            Option::Some((x + 1, OpV::Ret))
        } else if opb == 6 {
            match spec_decode_value(rest) {
                Option::Some((n, v)) => Option::Some((x + 1 + n, OpV::Push(v))),
                Option::None => Option::None,
            }
        } else if opb == 7 || opb == 8 || opb == 9 {
            if rest.len() >= 9 {
                let a0 = be64(
                    rest[0],
                    rest[1],
                    rest[2],
                    rest[3],
                    rest[4],
                    rest[5],
                    rest[6],
                    rest[7],
                ) as u64;
                let a1 = rest[8];
                Option::Some(
                    (
                        x + 10,
                        if opb == 7 {
                            OpV::ForeignCall(a0, a1)
                        } else if opb == 8 {
                            OpV::Call(a0, a1)
                        } else {
                            OpV::Message(a0, a1)
                        },
                    ),
                )
            } else {
                Option::None
            }
        } else if opb == 10 || opb == 11 || opb == 12 || opb == 13 {
            match spec_read_str(rest) {
                Option::Some((n, s)) => Option::Some(
                    (
                        x + 1 + n,
                        if opb == 10 {
                            OpV::Lload(s)
                        } else if opb == 11 {
                            OpV::Lstore(s)
                        } else if opb == 12 {
                            OpV::Eload(s)
                        } else {
                            OpV::Estore(s)
                        },
                    ),
                ),
                Option::None => Option::None,
            }
        } else if opb == 14 {
            Option::Some((x + 1, OpV::Await))
        } else if opb == 15 {
            if rest.len() >= 5 {
                let a0 = be32(rest[0], rest[1], rest[2], rest[3]) as u32;
                let a1 = rest[4];
                Option::Some((x + 6, OpV::ConstructEntity(a0, a1)))
            } else {
                Option::None
            }
        } else {
            Option::Some((x + 1, OpV::Nop))
        }
    }
}

/// Appends a string operand: UTF-8 bytes then the NUL terminator.
fn emit_str_operand(out: &mut Vec<u8>, s: &String)
    ensures
        final(out)@ == old(out)@ + spec_encode_str(s@),
{
    let bytes: &[u8] = s.as_str().as_bytes();
    let n = bytes.len();
    let mut i: usize = 0;
    while i < n
        invariant
            n == bytes@.len(),
            0 <= i <= n,
            out@ == old(out)@ + bytes@.subrange(0, i as int),
        decreases n - i,
    {
        let b = bytes[i];
        out.push(b);
        proof {
            assert(out@ =~= old(out)@ + bytes@.subrange(0, i + 1 as int));
        }
        i = i + 1;
    }
    out.push(0x0);
    proof {
        assert(bytes@.subrange(0, n as int) =~= bytes@);
        assert(final(out)@ =~= old(out)@ + spec_encode_str(s@));
    }
}

/// Encodes one instruction.
pub fn encode_instruction(op: &Op) -> (r: Vec<u8>)
    requires
        instr_encodable(op@),
    ensures
        r@ == spec_encode_instruction(op@),
{
    let mut bytes: Vec<u8> = Vec::new();
    match op {
        Op::Nop => {
            bytes.push(0);
        },
        Op::Add => {
            bytes.push(1);
        },
        Op::Sub => {
            bytes.push(2);
        },
        Op::Mul => {
            bytes.push(3);
        },
        Op::Div => {
            bytes.push(4);
        },
        Op::Ret => {
            bytes.push(5);
        },
        Op::Push(a0) => {
            bytes.push(6);
            let mut v = encode_value(a0);
            let ghost pre = bytes@;
            bytes.append(&mut v);
        },
        Op::ForeignCall(a0, a1) => {
            bytes.push(7);
            emit_be8(&mut bytes, *a0);
            bytes.push(*a1);
        },
        Op::Call(a0, a1) => {
            bytes.push(8);
            emit_be8(&mut bytes, *a0);
            bytes.push(*a1);
        },
        Op::Message(a0, a1) => {
            bytes.push(9);
            emit_be8(&mut bytes, *a0);
            bytes.push(*a1);
        },
        Op::Lload(s0) => {
            bytes.push(10);
            emit_str_operand(&mut bytes, s0);
        },
        Op::Lstore(s0) => {
            bytes.push(11);
            emit_str_operand(&mut bytes, s0);
        },
        Op::Eload(s0) => {
            bytes.push(12);
            emit_str_operand(&mut bytes, s0);
        },
        Op::Estore(s0) => {
            bytes.push(13);
            emit_str_operand(&mut bytes, s0);
        },
        Op::Await => {
            bytes.push(14);
        },
        Op::ConstructEntity(a0, a1) => {
            bytes.push(15);
            emit_be4(&mut bytes, *a0);
            bytes.push(*a1);
        },
    }
    proof {
        assert(bytes@ =~= spec_encode_instruction(op@));
    }
    bytes
}

/// Decodes the instruction at offset `x`, or reports that the block ends
/// before its operands do.
pub fn try_decode_instruction(x: usize, vblock: &[u8]) -> (r: Option<(usize, Op)>)
    ensures
        match r {
            Option::Some((n, op)) => spec_decode_instruction(vblock@, x as int) == Option::Some(
                (n as int, op@),
            ),
            Option::None => spec_decode_instruction(vblock@, x as int) is None,
        },
{
    if x >= vblock.len() {
        return Option::None;
    }
    let opb = vblock[x];
    let rest: &[u8] = &vblock[x + 1..vblock.len()];
    proof {
        assert(rest@ =~= vblock@.subrange(x + 1, vblock@.len() as int));
    }
    if opb == 1 {
        Option::Some((x + 1, Op::Add))
    } else if opb == 2 {
        Option::Some((x + 1, Op::Sub))
    } else if opb == 3 {
        Option::Some((x + 1, Op::Mul))
    } else if opb == 4 {
        Option::Some((x + 1, Op::Div))
    } else if opb == 5 {
        Option::Some((x + 1, Op::Ret))
    } else if opb == 6 {
        match try_decode_value(rest) {
            Option::Some((n, v)) => Option::Some((x + 1 + n, Op::Push(v))),
            Option::None => Option::None,
        }
    } else if opb == 7 || opb == 8 || opb == 9 {
        if rest.len() >= 9 {
            let (_, a0) = read_u64_sz(rest);
            let a1 = rest[8];
            if opb == 7 {
                Option::Some((x + 10, Op::ForeignCall(a0, a1)))
            } else if opb == 8 {
                Option::Some((x + 10, Op::Call(a0, a1)))
            } else {
                Option::Some((x + 10, Op::Message(a0, a1)))
            }
        } else {
            Option::None
        }
    } else if opb == 10 || opb == 11 || opb == 12 || opb == 13 {
        match try_read_utf8_str_sz(rest) {
            Option::Some((n, s)) => {
                if opb == 10 {
                    Option::Some((x + 1 + n, Op::Lload(s)))
                } else if opb == 11 {
                    Option::Some((x + 1 + n, Op::Lstore(s)))
                } else if opb == 12 {
                    Option::Some((x + 1 + n, Op::Eload(s)))
                } else {
                    Option::Some((x + 1 + n, Op::Estore(s)))
                }
            },
            Option::None => Option::None,
        }
    } else if opb == 14 {
        Option::Some((x + 1, Op::Await))
    } else if opb == 15 {
        if rest.len() >= 5 {
            let (_, a0) = read_u32_sz(rest);
            let a1 = rest[4];
            Option::Some((x + 6, Op::ConstructEntity(a0, a1)))
        } else {
            Option::None
        }
    } else {
        Option::Some((x + 1, Op::Nop))
    }
}

/// Decodes the instruction at offset `x` in a block known to be well-formed
/// there.
pub fn decode_instruction(x: usize, vblock: &[u8]) -> (r: (usize, Op))
    requires
        spec_decode_instruction(vblock@, x as int) is Some,
    ensures
        spec_decode_instruction(vblock@, x as int) == Option::Some((r.0 as int, r.1@)),
{
    match try_decode_instruction(x, vblock) {
        Option::Some(r) => r,
        Option::None => {
            proof {
                assert(false);
            }
            (0, Op::Nop)
        },
    }
}

/// Round trip at an offset, for an instruction whose whole encoding is its
/// opcode byte.
proof fn lemma_round_trip_plain(op: OpV, pre: Seq<u8>, rest: Seq<u8>)
    requires
        op is Nop || op is Add || op is Sub || op is Mul || op is Div || op is Ret || op is Await,
    ensures
        spec_decode_instruction(pre + spec_encode_instruction(op) + rest, pre.len() as int)
            == Option::Some(((pre.len() + spec_encode_instruction(op).len()) as int, op)),
{
    let enc = spec_encode_instruction(op);
    let b = pre + enc + rest;
    let x = pre.len() as int;
    assert(b[x] == enc[0]);
}

/// Round trip at an offset, for a pushed value.
proof fn lemma_round_trip_push(v: HvalueV, pre: Seq<u8>, rest: Seq<u8>)
    requires
        value_encodable(v),
    ensures
        spec_decode_instruction(pre + spec_encode_instruction(OpV::Push(v)) + rest, pre.len() as int)
            == Option::Some(
            ((pre.len() + spec_encode_instruction(OpV::Push(v)).len()) as int, OpV::Push(v)),
        ),
{
    let enc = spec_encode_instruction(OpV::Push(v));
    let b = pre + enc + rest;
    let x = pre.len() as int;
    assert(b[x] == 6);
    let tail = b.subrange(x + 1, b.len() as int);
    assert(tail =~= spec_encode_value(v) + rest);
    lemma_value_round_trip(v, rest);
}

/// Round trip at an offset, for the opcodes that carry a target and an
/// argument count.
proof fn lemma_round_trip_target(op: OpV, a0: u64, a1: u8, pre: Seq<u8>, rest: Seq<u8>)
    requires
        op == OpV::ForeignCall(a0, a1) || op == OpV::Call(a0, a1) || op == OpV::Message(a0, a1),
    ensures
        spec_decode_instruction(pre + spec_encode_instruction(op) + rest, pre.len() as int)
            == Option::Some(((pre.len() + spec_encode_instruction(op).len()) as int, op)),
{
    let enc = spec_encode_instruction(op);
    let b = pre + enc + rest;
    let x = pre.len() as int;
    assert(b[x] == enc[0]);
    let tail = b.subrange(x + 1, b.len() as int);
    assert(tail =~= be_bytes8(a0 as int) + seq![a1] + rest);
    lemma_be8_round_trip(a0);
    assert(tail[0] == be_bytes8(a0 as int)[0]);
    assert(tail[1] == be_bytes8(a0 as int)[1]);
    assert(tail[2] == be_bytes8(a0 as int)[2]);
    assert(tail[3] == be_bytes8(a0 as int)[3]);
    assert(tail[4] == be_bytes8(a0 as int)[4]);
    assert(tail[5] == be_bytes8(a0 as int)[5]);
    assert(tail[6] == be_bytes8(a0 as int)[6]);
    assert(tail[7] == be_bytes8(a0 as int)[7]);
    assert(tail[8] == a1);
    assert(be64(tail[0], tail[1], tail[2], tail[3], tail[4], tail[5], tail[6], tail[7]) == a0);
}

/// Round trip at an offset, for the construction opcode's entity id and
/// argument count.
proof fn lemma_round_trip_construct(a0: u32, a1: u8, pre: Seq<u8>, rest: Seq<u8>)
    ensures
        spec_decode_instruction(
            pre + spec_encode_instruction(OpV::ConstructEntity(a0, a1)) + rest,
            pre.len() as int,
        ) == Option::Some(
            (
                (pre.len() + spec_encode_instruction(OpV::ConstructEntity(a0, a1)).len()) as int,
                OpV::ConstructEntity(a0, a1),
            ),
        ),
{
    let enc = spec_encode_instruction(OpV::ConstructEntity(a0, a1));
    let b = pre + enc + rest;
    let x = pre.len() as int;
    assert(b[x] == enc[0]);
    let tail = b.subrange(x + 1, b.len() as int);
    assert(tail =~= be_bytes4(a0 as int) + seq![a1] + rest);
    lemma_be4_round_trip(a0);
    assert(tail[0] == be_bytes4(a0 as int)[0]);
    assert(tail[1] == be_bytes4(a0 as int)[1]);
    assert(tail[2] == be_bytes4(a0 as int)[2]);
    assert(tail[3] == be_bytes4(a0 as int)[3]);
    assert(tail[4] == a1);
    assert(be32(tail[0], tail[1], tail[2], tail[3]) == a0);
}

/// Round trip at an offset, for the opcodes that carry a string operand.
proof fn lemma_round_trip_str(op: OpV, s: Seq<char>, pre: Seq<u8>, rest: Seq<u8>)
    requires
        op == OpV::Lload(s) || op == OpV::Lstore(s) || op == OpV::Eload(s) || op == OpV::Estore(s),
        str_operand_ok(s),
    ensures
        spec_decode_instruction(pre + spec_encode_instruction(op) + rest, pre.len() as int)
            == Option::Some(((pre.len() + spec_encode_instruction(op).len()) as int, op)),
{
    let enc = spec_encode_instruction(op);
    let b = pre + enc + rest;
    let x = pre.len() as int;
    assert(b[x] == enc[0]);
    let tail = b.subrange(x + 1, b.len() as int);
    assert(tail =~= encode_utf8(s) + seq![0u8] + rest);
    lemma_read_str_of_encoded(s, rest);
}

/// Round trip for instructions: decoding an encoded instruction at any
/// offset consumes exactly its bytes and recovers it, whatever bytes stand
/// before or after it.
pub proof fn lemma_instruction_round_trip(op: OpV, pre: Seq<u8>, rest: Seq<u8>)
    requires
        instr_encodable(op),
    ensures
        spec_decode_instruction(pre + spec_encode_instruction(op) + rest, pre.len() as int)
            == Option::Some(((pre.len() + spec_encode_instruction(op).len()) as int, op)),
{
    match op {
        OpV::Push(v) => lemma_round_trip_push(v, pre, rest),
        OpV::ForeignCall(a0, a1) => lemma_round_trip_target(op, a0, a1, pre, rest),
        OpV::Call(a0, a1) => lemma_round_trip_target(op, a0, a1, pre, rest),
        OpV::Message(a0, a1) => lemma_round_trip_target(op, a0, a1, pre, rest),
        OpV::Lload(s) => lemma_round_trip_str(op, s, pre, rest),
        OpV::Lstore(s) => lemma_round_trip_str(op, s, pre, rest),
        OpV::Eload(s) => lemma_round_trip_str(op, s, pre, rest),
        OpV::Estore(s) => lemma_round_trip_str(op, s, pre, rest),
        OpV::ConstructEntity(a0, a1) => lemma_round_trip_construct(a0, a1, pre, rest),
        _ => lemma_round_trip_plain(op, pre, rest),
    }
}

} // verus!
