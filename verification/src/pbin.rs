//! The module binary format's header tables: entity data defaults, entity
//! inoculation defaults and function locations, each a 1-byte entry count
//! followed by fixed-shape entries.

use vstd::prelude::*;
use crate::ast::{Hvalue, HvalueV};
use crate::bin_helpers::{spec_read_str, try_read_utf8_str_sz, read_u16_sz, be16};
use crate::opcodes::{spec_decode_instruction, spec_decode_value, try_decode_instruction, try_decode_value, Op, OpV};
use crate::vm::VmError;
use crate::vm_core::views_of;

verus! {

/// One defaults-table entry: which entity it belongs to, the field name and
/// the default value.
#[derive(Debug)]
pub struct DataEntry {
    pub entity_id: u8,
    pub name: String,
    pub value: Hvalue,
}

pub ghost struct DataEntryV {
    pub entity_id: u8,
    pub name: Seq<char>,
    pub value: HvalueV,
}

impl View for DataEntry {
    type V = DataEntryV;

    open spec fn view(&self) -> DataEntryV {
        DataEntryV { entity_id: self.entity_id, name: self.name@, value: self.value@ }
    }
}

/// One function-location entry: (entity id, function index) and the
/// function's absolute start and byte length.
#[derive(Debug, Clone, Copy, PartialEq, Eq, Structural)]
pub struct FuncEntry {
    pub entity_id: u8,
    pub func_id: u8,
    pub start: u16,
    pub flen: u16,
}

/// Parses `n` defaults entries beginning at `pos`.
pub open spec fn spec_parse_data_entries(b: Seq<u8>, pos: int, n: nat) -> Option<
    (int, Seq<DataEntryV>),
>
    decreases n,
{
    if n == 0 {
        Option::Some((pos, Seq::empty()))
    } else if !(0 <= pos < b.len()) {
        Option::None
    } else {
        let ent_id = b[pos];
        match spec_read_str(b.subrange(pos + 1, b.len() as int)) {
            Option::None => Option::None,
            Option::Some((nlen, name)) => match spec_decode_value(
                b.subrange(pos + 1 + nlen, b.len() as int),
            ) {
                Option::None => Option::None,
                Option::Some((vlen, value)) => match spec_parse_data_entries(
                    b,
                    pos + 1 + nlen + vlen,
                    (n - 1) as nat,
                ) {
                    Option::None => Option::None,
                    Option::Some((end, rest)) => Option::Some(
                        (
                            end,
                            seq![DataEntryV { entity_id: ent_id, name, value }] + rest,
                        ),
                    ),
                },
            },
        }
    }
}

/// Parses a defaults table (data or inoculation) beginning at `pos`: a 1-byte
/// count, then that many entries.
pub open spec fn spec_parse_data_table(b: Seq<u8>, pos: int) -> Option<(int, Seq<DataEntryV>)> {
    if 0 <= pos < b.len() {
        spec_parse_data_entries(b, pos + 1, b[pos] as nat)
    } else {
        Option::None
    }
}

/// Parses `n` function-location entries beginning at `pos`.
pub open spec fn spec_parse_func_entries(b: Seq<u8>, pos: int, n: nat) -> Option<
    (int, Seq<FuncEntry>),
>
    decreases n,
{
    if n == 0 {
        Option::Some((pos, Seq::empty()))
    } else if !(0 <= pos && pos + 6 <= b.len()) {
        Option::None
    } else {
        let e = FuncEntry {
            entity_id: b[pos],
            func_id: b[pos + 1],
            start: be16(b[pos + 2], b[pos + 3]) as u16,
            flen: be16(b[pos + 4], b[pos + 5]) as u16,
        };
        match spec_parse_func_entries(b, pos + 6, (n - 1) as nat) {
            Option::None => Option::None,
            Option::Some((end, rest)) => Option::Some((end, seq![e] + rest)),
        }
    }
}

/// Parses the function-location table beginning at `pos`.
pub open spec fn spec_parse_func_table(b: Seq<u8>, pos: int) -> Option<(int, Seq<FuncEntry>)> {
    if 0 <= pos < b.len() {
        spec_parse_func_entries(b, pos + 1, b[pos] as nat)
    } else {
        Option::None
    }
}

/// The last entry recorded for `(entity_id, func_id)`, if any: later entries
/// shadow earlier ones as map insertion would.
pub open spec fn spec_lookup_function(entries: Seq<FuncEntry>, ent: u32, fid: u32) -> Option<
    FuncEntry,
>
    decreases entries.len(),
{
    if entries.len() == 0 {
        Option::None
    } else if entries.last().entity_id == ent && entries.last().func_id == fid {
        Option::Some(entries.last())
    } else {
        spec_lookup_function(entries.drop_last(), ent, fid)
    }
}

/// Loads the entity data-defaults table at `*location`, advancing it past
/// the table. A malformed table is reported, never read out of bounds.
pub fn load_entity_data_table(location: &mut usize, vblock: &[u8]) -> (r: Result<
    Vec<DataEntry>,
    VmError,
>)
    ensures
        match spec_parse_data_table(vblock@, *old(location) as int) {
            Option::Some((end, entries)) => r matches Ok(v) && views_of(v@) == entries
                && *final(location) == end,
            Option::None => (r matches Err(e) && e == VmError::CodeError),
        },
{
    if *location >= vblock.len() {
        return Result::Err(VmError::CodeError);
    }
    let count: u8 = vblock[*location];
    let ghost base = *location as int;
    *location = *location + 1;
    let mut out: Vec<DataEntry> = Vec::new();
    let mut i: usize = 0;
    while i < count as usize
        invariant
            0 <= i <= count,
            base == *old(location) as int,
            *location <= vblock@.len(),
            spec_parse_data_table(vblock@, base) == (match spec_parse_data_entries(
                vblock@,
                *location as int,
                (count - i) as nat,
            ) {
                Option::None => Option::<(int, Seq<DataEntryV>)>::None,
                Option::Some((end, rest)) => Option::Some((end, views_of(out@) + rest)),
            }),
        decreases count - i,
    {
        let ghost loc0 = *location as int;
        let ghost out0 = views_of(out@);
        if *location >= vblock.len() {
            return Result::Err(VmError::CodeError);
        }
        let ent_id: u8 = vblock[*location];
        let name_block: &[u8] = &vblock[*location + 1..vblock.len()];
        proof {
            assert(name_block@ =~= vblock@.subrange(loc0 + 1, vblock@.len() as int));
        }
        let (nlen, name) = match try_read_utf8_str_sz(name_block) {
            Option::Some(t) => t,
            Option::None => {
                return Result::Err(VmError::CodeError);
            },
        };
        if nlen > vblock.len() - *location - 1 {
            proof {
                assert(false);
            }
            return Result::Err(VmError::CodeError);
        }
        let vpos = *location + 1 + nlen;
        let value_block: &[u8] = &vblock[vpos..vblock.len()];
        let (vlen, value) = match try_decode_value(value_block) {
            Option::Some(t) => t,
            Option::None => {
                proof {
                    assert(value_block@ =~= vblock@.subrange(loc0 + 1 + nlen, vblock@.len() as int));
                }
                return Result::Err(VmError::CodeError);
            },
        };
        proof {
            assert(value_block@ =~= vblock@.subrange(loc0 + 1 + nlen, vblock@.len() as int));
        }
        if vlen > vblock.len() - vpos {
            proof {
                assert(false);
            }
            return Result::Err(VmError::CodeError);
        }
        *location = vpos + vlen;
        out.push(DataEntry { entity_id: ent_id, name, value });
        proof {
            assert(views_of(out@) =~= out0.push(
                (DataEntryV { entity_id: ent_id, name: name@, value: value@ }),
            ));
            assert(out0.push(
                (DataEntryV { entity_id: ent_id, name: name@, value: value@ }),
            ) + (match spec_parse_data_entries(vblock@, *location as int, (count - i - 1) as nat) {
                Option::Some((e2, r2)) => r2,
                Option::None => Seq::empty(),
            }) =~= out0 + (seq![(DataEntryV { entity_id: ent_id, name: name@, value: value@ })]
                + (match spec_parse_data_entries(
                vblock@,
                *location as int,
                (count - i - 1) as nat,
            ) {
                Option::Some((e2, r2)) => r2,
                Option::None => Seq::empty(),
            })));
        }
        i = i + 1;
    }
    Result::Ok(out)
}

/// Loads the entity inoculation-defaults table, which has the same shape as
/// the data-defaults table.
pub fn load_entity_inoculation_table(location: &mut usize, vblock: &[u8]) -> (r: Result<
    Vec<DataEntry>,
    VmError,
>)
    ensures
        match spec_parse_data_table(vblock@, *old(location) as int) {
            Option::Some((end, entries)) => r matches Ok(v) && views_of(v@) == entries
                && *final(location) == end,
            Option::None => (r matches Err(e) && e == VmError::CodeError),
        },
{
    load_entity_data_table(location, vblock)
}

/// Loads the function-location table at `*location`, advancing it past the
/// table.
pub fn load_entity_function_table(location: &mut usize, vblock: &[u8]) -> (r: Result<
    Vec<FuncEntry>,
    VmError,
>)
    ensures
        match spec_parse_func_table(vblock@, *old(location) as int) {
            Option::Some((end, entries)) => r matches Ok(v) && v@ == entries && *final(location)
                == end,
            Option::None => (r matches Err(e) && e == VmError::CodeError),
        },
{
    if *location >= vblock.len() {
        return Result::Err(VmError::CodeError);
    }
    let count: u8 = vblock[*location];
    let ghost base = *location as int;
    *location = *location + 1;
    let mut out: Vec<FuncEntry> = Vec::new();
    let mut i: usize = 0;
    while i < count as usize
        invariant
            0 <= i <= count,
            base == *old(location) as int,
            *location <= vblock@.len(),
            spec_parse_func_table(vblock@, base) == (match spec_parse_func_entries(
                vblock@,
                *location as int,
                (count - i) as nat,
            ) {
                Option::None => Option::<(int, Seq<FuncEntry>)>::None,
                Option::Some((end, rest)) => Option::Some((end, out@ + rest)),
            }),
        decreases count - i,
    {
        let ghost out0 = out@;
        if vblock.len() - *location < 6 {
            return Result::Err(VmError::CodeError);
        }
        let ent_id: u8 = vblock[*location];
        let func_id: u8 = vblock[*location + 1];
        let (_, start) = read_u16_sz(&vblock[*location + 2..vblock.len()]);
        let (_, flen) = read_u16_sz(&vblock[*location + 4..vblock.len()]);
        let e = FuncEntry { entity_id: ent_id, func_id, start, flen };
        *location = *location + 6;
        out.push(e);
        proof {
            assert(out@ + (match spec_parse_func_entries(
                vblock@,
                *location as int,
                (count - i - 1) as nat,
            ) {
                Option::Some((e2, r2)) => r2,
                Option::None => Seq::empty(),
            }) =~= out0 + (seq![e] + (match spec_parse_func_entries(
                vblock@,
                *location as int,
                (count - i - 1) as nat,
            ) {
                Option::Some((e2, r2)) => r2,
                Option::None => Seq::empty(),
            })));
        }
        i = i + 1;
    }
    Result::Ok(out)
}

/// Finds the recorded location of `(ent, fid)`, preferring the latest entry.
pub fn lookup_function_location(table: &Vec<FuncEntry>, ent: u32, fid: u32) -> (r: Option<
    FuncEntry,
>)
    ensures
        r == spec_lookup_function(table@, ent, fid),
{
    let n = table.len();
    proof {
        assert(table@.subrange(0, n as int) =~= table@);
    }
    let mut i: usize = n;
    while i > 0
        invariant
            0 <= i <= n,
            n == table@.len(),
            spec_lookup_function(table@, ent, fid) == spec_lookup_function(
                table@.subrange(0, i as int),
                ent,
                fid,
            ),
        decreases i,
    {
        i = i - 1;
        let e = table[i];
        if e.entity_id as u32 == ent && e.func_id as u32 == fid {
            proof {
                assert(table@.subrange(0, i + 1 as int).last() == e);
            }
            return Option::Some(e);
        }
        proof {
            assert(table@.subrange(0, i + 1 as int).drop_last() =~= table@.subrange(0, i as int));
            assert(table@.subrange(0, i + 1 as int).last() == table@[i as int]);
        }
    }
    proof {
        assert(table@.subrange(0, 0) =~= Seq::<FuncEntry>::empty());
    }
    Option::None
}

/// Whether a code region decodes cleanly: starting at `pos`, every decode
/// succeeds and strictly advances, until one reaches `end` or past it.
pub open spec fn region_decodes(b: Seq<u8>, pos: int, end: int) -> bool
    decreases end - pos,
{
    if pos >= end {
        true
    } else {
        match spec_decode_instruction(b, pos) {
            Option::None => false,
            Option::Some((n, op)) => n > pos && (n >= end || region_decodes(b, n, end)),
        }
    }
}

/// Decodes one function's code region into a listing of (absolute offset,
/// instruction): it succeeds exactly when the region decodes cleanly; then
/// the first instruction sits at `start`, each next offset is exactly where
/// the previous decode ended, every pair is what the decode spec gives at
/// its offset, and the last decode reaches `end` or past it.
#[verifier::rlimit(100)]
#[verifier::spinoff_prover]
pub fn list_region(binary_code: &[u8], start: usize, end: usize) -> (r: Result<
    Vec<(usize, Op)>,
    VmError,
>)
    requires
        end <= binary_code@.len(),
    ensures
        r is Ok <==> region_decodes(binary_code@, start as int, end as int),
        r matches Ok(v) ==> ({
            &&& (forall|i: int| 0 <= i < v@.len() ==> (spec_decode_instruction(
                binary_code@,
                (#[trigger] v@[i]).0 as int,
            ) matches Option::Some(p) && p.1 == v@[i].1@ && (i + 1 < v@.len() ==> p.0
                == v@[i + 1].0 as int) && (i + 1 == v@.len() ==> p.0 >= end)))
            &&& (v@.len() > 0 ==> v@[0].0 == start)
            &&& (v@.len() == 0 ==> start >= end)
            &&& (forall|i: int| 0 <= i < v@.len() ==> start <= (#[trigger] v@[i]).0 < end)
        }),
        r matches Err(e) ==> e == VmError::CodeError,
{
    let mut out: Vec<(usize, Op)> = Vec::new();
    let mut x = start;
    while x < end
        invariant
            end <= binary_code@.len(),
            start <= x,
            region_decodes(binary_code@, start as int, end as int) == region_decodes(
                binary_code@,
                x as int,
                end as int,
            ),
            forall|i: int| 0 <= i < out@.len() ==> (spec_decode_instruction(
                binary_code@,
                (#[trigger] out@[i]).0 as int,
            ) matches Option::Some(p) && p.1 == out@[i].1@ && (i + 1 < out@.len() ==> p.0
                == out@[i + 1].0 as int) && (i + 1 == out@.len() ==> p.0 as int == x || p.0
                >= end)),
            out@.len() > 0 ==> out@[0].0 == start,
            out@.len() == 0 ==> x == start,
            x < end ==> (out@.len() > 0 ==> (spec_decode_instruction(
                binary_code@,
                out@.last().0 as int,
            ) matches Option::Some(p) && p.0 == x)),
            forall|i: int| 0 <= i < out@.len() ==> start <= (#[trigger] out@[i]).0 < end,
        decreases end - x,
    {
        let (n, op) = match try_decode_instruction(x, binary_code) {
            Option::Some(t) => t,
            Option::None => {
                return Result::Err(VmError::CodeError);
            },
        };
        if n <= x {
            return Result::Err(VmError::CodeError);
        }
        let ghost pre_out = out@;
        out.push((x, op));
        if n < end {
            x = n;
        } else {
            proof {
                assert(forall|i: int| 0 <= i < pre_out.len() ==> #[trigger] out@[i]
                    == pre_out[i]);
            }
            return Result::Ok(out);
        }
    }
    Result::Ok(out)
}

/// Whether a compiled module can be listed: the three header tables parse,
/// and every recorded function's region lies inside the module and decodes
/// cleanly.
pub open spec fn module_listable(b: Seq<u8>) -> bool {
    match spec_parse_data_table(b, 0) {
        Option::None => false,
        Option::Some((z, d)) => match spec_parse_data_table(b, z) {
            Option::None => false,
            Option::Some((q, it)) => match spec_parse_func_table(b, q) {
                Option::None => false,
                Option::Some((c, entries)) => forall|k: int|
                    0 <= k < entries.len() ==> ((#[trigger] entries[k]).start + entries[k].flen
                        <= b.len() && region_decodes(
                        b,
                        entries[k].start as int,
                        entries[k].start + entries[k].flen,
                    )),
            },
        },
    }
}

/// Decodes a compiled module into a listing per recorded function: the
/// header tables are read, then each function's code region is decoded with
/// absolute offsets. It succeeds exactly when the tables parse and every
/// recorded region decodes cleanly.
pub fn disassemble(binary_code: &Vec<u8>) -> (r: Result<
    Vec<(FuncEntry, Vec<(usize, Op)>)>,
    VmError,
>)
    ensures
        r is Ok <==> module_listable(binary_code@),
        match r {
            Result::Ok(v) => ({
                &&& spec_parse_data_table(binary_code@, 0) is Some
                &&& (spec_parse_data_table(binary_code@, 0) matches Option::Some(p1)
                    ==> spec_parse_data_table(binary_code@, p1.0) is Some)
                &&& (spec_parse_data_table(binary_code@, 0) matches Option::Some(p1)
                    ==> (spec_parse_data_table(binary_code@, p1.0) matches Option::Some(p2)
                    ==> (spec_parse_func_table(binary_code@, p2.0) matches Option::Some(p3)
                    && v@.len() == p3.1.len() && (forall|k: int| 0 <= k < p3.1.len()
                    ==> (#[trigger] v@[k]).0 == p3.1[k]))))
            }),
            Result::Err(e) => e == VmError::CodeError,
        },
{
    let mut loc: usize = 0;
    let _data = match load_entity_data_table(&mut loc, binary_code.as_slice()) {
        Result::Ok(t) => t,
        Result::Err(e) => {
            return Result::Err(e);
        },
    };
    let ghost z = loc as int;
    let _inoc = match load_entity_inoculation_table(&mut loc, binary_code.as_slice()) {
        Result::Ok(t) => t,
        Result::Err(e) => {
            return Result::Err(e);
        },
    };
    let ghost q = loc as int;
    let table = match load_entity_function_table(&mut loc, binary_code.as_slice()) {
        Result::Ok(t) => t,
        Result::Err(e) => {
            return Result::Err(e);
        },
    };
    let nf = table.len();
    let mut out: Vec<(FuncEntry, Vec<(usize, Op)>)> = Vec::new();
    let mut k: usize = 0;
    while k < nf
        invariant
            0 <= k <= nf,
            nf == table@.len(),
            out@.len() == k,
            spec_parse_data_table(binary_code@, 0) matches Option::Some(p1) && p1.0 == z,
            spec_parse_data_table(binary_code@, z) matches Option::Some(p2) && p2.0 == q,
            spec_parse_func_table(binary_code@, q) matches Option::Some(p3) && p3.1 == table@,
            forall|i: int| 0 <= i < k ==> (#[trigger] out@[i]).0 == table@[i],
            forall|i: int|
                0 <= i < k ==> ((#[trigger] table@[i]).start + table@[i].flen
                    <= binary_code@.len() && region_decodes(
                    binary_code@,
                    table@[i].start as int,
                    table@[i].start + table@[i].flen,
                )),
        decreases nf - k,
    {
        let e = table[k];
        let start = e.start as usize;
        let flen = e.flen as usize;
        if start > binary_code.len() || flen > binary_code.len() - start {
            proof {
                assert(!(table@[k as int].start + table@[k as int].flen <= binary_code@.len()));
                assert(!module_listable(binary_code@));
            }
            return Result::Err(VmError::CodeError);
        }
        let listing = match list_region(binary_code.as_slice(), start, start + flen) {
            Result::Ok(l) => l,
            Result::Err(e2) => {
                proof {
                    assert(!region_decodes(
                        binary_code@,
                        table@[k as int].start as int,
                        table@[k as int].start + table@[k as int].flen,
                    ));
                    assert(!module_listable(binary_code@));
                }
                return Result::Err(e2);
            },
        };
        out.push((e, listing));
        k = k + 1;
    }
    proof {
        assert(module_listable(binary_code@));
    }
    Result::Ok(out)
}

} // verus!
