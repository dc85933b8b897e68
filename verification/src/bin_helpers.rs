//! Primitive readers for the module binary format: fixed-width integers in
//! both byte orders and NUL-terminated UTF-8 strings.

use vstd::prelude::*;
use vstd::utf8::{valid_utf8, decode_utf8, encode_utf8};
use vstd::string::StringSliceAdditionalSpecFns;

verus! {

/// Big-endian value of two bytes.
pub open spec fn be16(b0: u8, b1: u8) -> int {
    b0 * 0x100 + b1
}

/// Big-endian value of four bytes.
pub open spec fn be32(b0: u8, b1: u8, b2: u8, b3: u8) -> int {
    ((b0 * 0x100 + b1) * 0x100 + b2) * 0x100 + b3
}

/// Big-endian value of eight bytes.
pub open spec fn be64(b0: u8, b1: u8, b2: u8, b3: u8, b4: u8, b5: u8, b6: u8, b7: u8) -> int {
    ((((((b0 * 0x100 + b1) * 0x100 + b2) * 0x100 + b3) * 0x100 + b4) * 0x100 + b5) * 0x100 + b6)
        * 0x100 + b7
}

/// Little-endian value of two bytes.
pub open spec fn le16(b0: u8, b1: u8) -> int {
    b1 * 0x100 + b0
}

/// Little-endian value of four bytes.
pub open spec fn le32(b0: u8, b1: u8, b2: u8, b3: u8) -> int {
    ((b3 * 0x100 + b2) * 0x100 + b1) * 0x100 + b0
}

/// Index of the first NUL byte in a sequence, or its length if there is none.
pub open spec fn first_nul(s: Seq<u8>) -> int
    decreases s.len(),
{
    if s.len() == 0 {
        0
    } else if s[0] == 0 {
        0
    } else {
        1 + first_nul(s.drop_first())
    }
}

pub proof fn lemma_first_nul_bounds(s: Seq<u8>)
    ensures
        0 <= first_nul(s) <= s.len(),
        forall|i: int| 0 <= i < first_nul(s) ==> s[i] != 0,
        first_nul(s) < s.len() ==> s[first_nul(s)] == 0,
    decreases s.len(),
{
    if s.len() != 0 && s[0] != 0 {
        lemma_first_nul_bounds(s.drop_first());
        assert forall|i: int| 0 <= i < first_nul(s) implies s[i] != 0 by {
            if i > 0 {
                assert(s.drop_first()[i - 1] != 0);
            }
        }
    }
}

/// A prefix free of NUL bytes followed by a NUL pins down `first_nul`.
pub proof fn lemma_first_nul_of_terminated(s: Seq<u8>, n: int)
    requires
        0 <= n < s.len(),
        forall|i: int| 0 <= i < n ==> s[i] != 0,
        s[n] == 0,
    ensures
        first_nul(s) == n,
    decreases n,
{
    if n > 0 {
        assert(s[0] != 0);
        lemma_first_nul_of_terminated(s.drop_first(), n - 1);
    }
}

/// Relies on `core::str::from_utf8`: it returns `Ok` exactly on valid UTF-8
/// input, and the resulting string slice views the same bytes.
#[verifier::external_body]
fn bytes_to_str(vblock: &[u8]) -> (r: Option<&str>)
    ensures
        r is Some <==> valid_utf8(vblock@),
        r matches Some(s) ==> s.spec_bytes() == vblock@,
{
    match core::str::from_utf8(vblock) {
        Ok(s) => Some(s),
        Err(_) => None,
    }
}

/// Whether a byte block is character data.
pub fn utf8_ok(vblock: &[u8]) -> (r: bool)
    ensures
        r == valid_utf8(vblock@),
{
    match bytes_to_str(vblock) {
        Some(_) => true,
        None => false,
    }
}

/// Decodes a whole byte block as UTF-8.
pub fn read_utf8_str(vblock: &[u8]) -> (r: String)
    requires
        valid_utf8(vblock@),
    ensures
        r@ == decode_utf8(vblock@),
{
    let s = bytes_to_str(vblock);
    match s {
        Some(s) => {
            proof {
                vstd::utf8::decode_utf8_encode_utf8(vblock@);
                vstd::utf8::encode_utf8_decode_utf8(s@);
            }
            s.to_owned()
        },
        None => {
            proof {
                assert(false);
            }
            String::new()
        },
    }
}

pub fn read_u8(vblock: &[u8]) -> (v: u8)
    requires
        vblock@.len() >= 1,
    ensures
        v == vblock@[0],
{
    let v: u8 = vblock[0];
    v
}

pub fn read_le_u16(vblock: &[u8]) -> (v: u16)
    requires
        vblock@.len() >= 2,
    ensures
        v == le16(vblock@[0], vblock@[1]),
{
    let v: u16 = (vblock[1] as u16) * 0x100 + vblock[0] as u16;
    v
}

pub fn read_le_u32(vblock: &[u8]) -> (v: u32)
    requires
        vblock@.len() >= 4,
    ensures
        v == le32(vblock@[0], vblock@[1], vblock@[2], vblock@[3]),
{
    let v: u32 = ((vblock[3] as u32 * 0x100 + vblock[2] as u32) * 0x100 + vblock[1] as u32) * 0x100
        + vblock[0] as u32;
    v
}

pub fn read_u8_sz(vblock: &[u8]) -> (r: (usize, u8))
    requires
        vblock@.len() >= 1,
    ensures
        r.0 == 1,
        r.1 == vblock@[0],
{
    let v: u8 = vblock[0];
    (1, v)
}

pub fn read_u16_sz(vblock: &[u8]) -> (r: (usize, u16))
    requires
        vblock@.len() >= 2,
    ensures
        r.0 == 2,
        r.1 == be16(vblock@[0], vblock@[1]),
{
    let v: u16 = (vblock[0] as u16) * 0x100 + vblock[1] as u16;
    (2, v)
}

pub fn read_u32_sz(vblock: &[u8]) -> (r: (usize, u32))
    requires
        vblock@.len() >= 4,
    ensures
        r.0 == 4,
        r.1 == be32(vblock@[0], vblock@[1], vblock@[2], vblock@[3]),
{
    let v: u32 = ((vblock[0] as u32 * 0x100 + vblock[1] as u32) * 0x100 + vblock[2] as u32) * 0x100
        + vblock[3] as u32;
    (4, v)
}

pub fn read_u64_sz(vblock: &[u8]) -> (r: (usize, u64))
    requires
        vblock@.len() >= 8,
    ensures
        r.0 == 8,
        r.1 == be64(
            vblock@[0],
            vblock@[1],
            vblock@[2],
            vblock@[3],
            vblock@[4],
            vblock@[5],
            vblock@[6],
            vblock@[7],
        ),
{
    let v: u64 = ((((((vblock[0] as u64 * 0x100 + vblock[1] as u64) * 0x100 + vblock[2] as u64)
        * 0x100 + vblock[3] as u64) * 0x100 + vblock[4] as u64) * 0x100 + vblock[5] as u64) * 0x100
        + vblock[6] as u64) * 0x100 + vblock[7] as u64;
    (8, v)
}

pub fn read_s32_sz(vblock: &[u8]) -> (r: (usize, i32))
    requires
        vblock@.len() >= 4,
    ensures
        r.0 == 4,
        r.1 == be32(vblock@[0], vblock@[1], vblock@[2], vblock@[3]) as u32 as i32,
{
    let (sv, v) = read_u32_sz(vblock);
    (sv, #[verifier::truncate] (v as i32))
}

pub fn read_s64_sz(vblock: &[u8]) -> (r: (usize, i64))
    requires
        vblock@.len() >= 8,
    ensures
        r.0 == 8,
        r.1 == be64(
            vblock@[0],
            vblock@[1],
            vblock@[2],
            vblock@[3],
            vblock@[4],
            vblock@[5],
            vblock@[6],
            vblock@[7],
        ) as u64 as i64,
{
    let (sv, v) = read_u64_sz(vblock);
    (sv, #[verifier::truncate] (v as i64))
}

/// What reading a NUL-terminated UTF-8 string field yields: the field's size
/// (terminator included) and its characters, or nothing when no terminator
/// follows or the bytes before it are not UTF-8.
pub open spec fn spec_read_str(b: Seq<u8>) -> Option<(int, Seq<char>)> {
    if first_nul(b) < b.len() && valid_utf8(b.subrange(0, first_nul(b))) {
        Option::Some((first_nul(b) + 1, decode_utf8(b.subrange(0, first_nul(b)))))
    } else {
        Option::None
    }
}

/// A scalar other than zero encodes to bytes other than zero.
proof fn lemma_encode_scalar_no_nul(c: u32)
    requires
        vstd::utf8::is_scalar(c),
        c != 0,
    ensures
        forall|j: int| 0 <= j < vstd::utf8::encode_scalar(c).len()
            ==> vstd::utf8::encode_scalar(c)[j] != 0,
{
    assert(c <= 0x7f ==> (c & 0x7F) as u8 != 0) by (bit_vector)
        requires
            c != 0,
    ;
    assert((0xC0u8 | ((c >> 6) & 0x1F) as u8) != 0) by (bit_vector);
    assert((0xE0u8 | ((c >> 12) & 0x0F) as u8) != 0) by (bit_vector);
    assert((0xF0u8 | ((c >> 18) & 0x7) as u8) != 0) by (bit_vector);
    assert((0x80u8 | (c & 0x3F) as u8) != 0) by (bit_vector);
    assert((0x80u8 | ((c >> 6) & 0x3F) as u8) != 0) by (bit_vector);
    assert((0x80u8 | ((c >> 12) & 0x3F) as u8) != 0) by (bit_vector);
}

/// The UTF-8 encoding of a string without NUL characters has no NUL byte.
pub proof fn lemma_encode_utf8_no_nul(s: Seq<char>)
    requires
        forall|i: int| 0 <= i < s.len() ==> s[i] != '\0',
    ensures
        forall|j: int| 0 <= j < encode_utf8(s).len() ==> encode_utf8(s)[j] != 0,
    decreases s.len(),
{
    if s.len() > 0 {
        let c = s[0] as u32;
        vstd::utf8::char_is_scalar(s[0]);
        assert(s[0] != '\0');
        assert(c != 0) by {
            if c == 0 {
                vstd::utf8::char_u32_cast(s[0], c);
                assert((0u32 as char) == s[0]);
                assert(('\0' as u32) == 0u32);
                vstd::utf8::char_u32_cast('\0', 0u32);
            }
        }
        lemma_encode_scalar_no_nul(c);
        assert(forall|i: int| 0 <= i < s.drop_first().len() ==> s.drop_first()[i] != '\0');
        lemma_encode_utf8_no_nul(s.drop_first());
        let head = vstd::utf8::encode_scalar(c);
        let tail = encode_utf8(s.drop_first());
        assert forall|j: int| 0 <= j < encode_utf8(s).len() implies encode_utf8(s)[j] != 0 by {
            if j < head.len() {
                assert(encode_utf8(s)[j] == head[j]);
            } else {
                assert(encode_utf8(s)[j] == tail[j - head.len()]);
            }
        }
    }
}

/// Reading a string field recovers exactly what was encoded, whatever bytes
/// follow the terminator.
pub proof fn lemma_read_str_of_encoded(s: Seq<char>, rest: Seq<u8>)
    requires
        forall|i: int| 0 <= i < s.len() ==> s[i] != '\0',
    ensures
        spec_read_str(encode_utf8(s) + seq![0u8] + rest) == Option::Some(
            (encode_utf8(s).len() + 1 as int, s),
        ),
{
    let b = encode_utf8(s) + seq![0u8] + rest;
    let n = encode_utf8(s).len() as int;
    lemma_encode_utf8_no_nul(s);
    assert(forall|i: int| 0 <= i < n ==> b[i] != 0);
    assert(b[n] == 0);
    lemma_first_nul_of_terminated(b, n);
    assert(b.subrange(0, n) =~= encode_utf8(s));
    vstd::utf8::encode_utf8_valid_utf8(s);
    vstd::utf8::encode_utf8_decode_utf8(s);
}

/// Reads a NUL-terminated UTF-8 string, or reports that none is there.
pub fn try_read_utf8_str_sz(vblock: &[u8]) -> (r: Option<(usize, String)>)
    ensures
        match r {
            Option::Some((n, s)) => spec_read_str(vblock@) == Option::Some((n as int, s@)),
            Option::None => spec_read_str(vblock@) is None,
        },
{
    proof {
        lemma_first_nul_bounds(vblock@);
    }
    let len = vblock.len();
    let mut i: usize = 0;
    while i < len && vblock[i] != 0
        invariant
            0 <= i <= len,
            len == vblock@.len(),
            i <= first_nul(vblock@),
            forall|j: int| 0 <= j < i ==> vblock@[j] != 0,
        decreases len - i,
    {
        i = i + 1;
        proof {
            lemma_first_nul_bounds(vblock@);
        }
    }
    if i == len {
        proof {
            lemma_first_nul_bounds(vblock@);
            if first_nul(vblock@) < vblock@.len() {
                assert(vblock@[first_nul(vblock@)] == 0);
            }
        }
        return Option::None;
    }
    proof {
        lemma_first_nul_of_terminated(vblock@, i as int);
    }
    let prefix: &[u8] = &vblock[0..i];
    assert(prefix@ == vblock@.subrange(0, first_nul(vblock@)));
    match bytes_to_str(prefix) {
        Option::Some(s) => {
            proof {
                vstd::utf8::encode_utf8_decode_utf8(s@);
            }
            Option::Some((i + 1, s.to_owned()))
        },
        Option::None => Option::None,
    }
}

/// Reads a NUL-terminated UTF-8 string; the returned size includes the
/// terminating NUL byte.
pub fn read_utf8_str_sz(vblock: &[u8]) -> (r: (usize, String))
    requires
        first_nul(vblock@) < vblock@.len(),
        valid_utf8(vblock@.subrange(0, first_nul(vblock@))),
    ensures
        r.0 == first_nul(vblock@) + 1,
        r.1@ == decode_utf8(vblock@.subrange(0, first_nul(vblock@))),
{
    proof {
        lemma_first_nul_bounds(vblock@);
    }
    let mut i: usize = 0;
    while vblock[i] != 0
        invariant
            0 <= i <= first_nul(vblock@) < vblock@.len(),
            forall|j: int| 0 <= j < i ==> vblock@[j] != 0,
        decreases vblock@.len() - i,
    {
        i = i + 1;
        proof {
            lemma_first_nul_bounds(vblock@);
        }
    }
    proof {
        lemma_first_nul_of_terminated(vblock@, i as int);
    }
    let prefix: &[u8] = &vblock[0..i];
    assert(prefix@ == vblock@.subrange(0, first_nul(vblock@)));
    let s = read_utf8_str(prefix);
    (i + 1, s)
}

} // verus!
