//! The bootstrap entity: the system vat that carries the kernel module and
//! the host-native hello and print bindings.

use vstd::prelude::*;
use crate::ast::{EntityDef, HvalueV};
use crate::pbin::{load_entity_data_table, spec_parse_data_table, DataEntry, DataEntryV};
use crate::vm::VmError;
use crate::vm_core::{views_of, EntityAddress, EntityV, ValMap, Vat, VatV};

verus! {

/// One loaded program: its name and compiled bytes.
#[derive(Debug)]
pub struct Program {
    pub name: String,
    pub code: Vec<u8>,
}

/// The bootstrap entity definition and the programs it manages.
pub struct Monad {
    pub programs: Vec<(String, Program)>,
    pub def: EntityDef,
}

impl Monad {
    pub fn new() -> (r: Monad)
        ensures
            r.programs@.len() == 0,
            r.def.name@ == "Monad"@,
            r.def.data_declarations@.len() == 0,
            r.def.inoculation_list@.len() == 0,
            r.def.functions@.len() == 0,
            r.def.foreign_functions@.len() == 0,
    {
        Monad {
            programs: Vec::new(),
            def: EntityDef {
                name: String::from_str("Monad"),
                data_declarations: Vec::new(),
                inoculation_list: Vec::new(),
                functions: Vec::new(),
                foreign_functions: Vec::new(),
            },
        }
    }

    /// Enlists this node's manager; management traffic starts only once a
    /// cluster asks for it.
    pub fn start_nodeman(&mut self)
        ensures
            *final(self) == *old(self),
    {
    }

    /// Enlists the current bootstrap entity into the cluster; it stays
    /// passive until an election.
    pub fn enlist() {
    }
}

/// The field map a defaults-entry list gives one entity: its entries folded
/// in table order, later entries overwriting earlier ones.
pub open spec fn spec_entity_defaults(entries: Seq<DataEntryV>, ent: u8) -> Map<
    Seq<char>,
    HvalueV,
>
    decreases entries.len(),
{
    if entries.len() == 0 {
        Map::empty()
    } else if entries.last().entity_id == ent {
        spec_entity_defaults(entries.drop_last(), ent).insert(
            entries.last().name,
            entries.last().value,
        )
    } else {
        spec_entity_defaults(entries.drop_last(), ent)
    }
}

/// Builds the field map an entity starts with: exactly the data-defaults
/// entries recorded for its entity id, in table order.
pub fn entity_defaults(entries: &Vec<DataEntry>, ent: u8) -> (r: ValMap)
    ensures
        r.wf(),
        r@ == spec_entity_defaults(views_of(entries@), ent),
{
    let mut m = ValMap::new();
    let n = entries.len();
    let mut i: usize = 0;
    proof {
        assert(views_of(entries@).subrange(0, 0) =~= Seq::<DataEntryV>::empty());
    }
    while i < n
        invariant
            0 <= i <= n,
            n == entries@.len(),
            m.wf(),
            m@ == spec_entity_defaults(views_of(entries@).subrange(0, i as int), ent),
        decreases n - i,
    {
        let ghost pre = views_of(entries@).subrange(0, i as int);
        if entries[i].entity_id == ent {
            m.set(&entries[i].name, entries[i].value.duplicate());
        }
        proof {
            assert(views_of(entries@).subrange(0, i + 1).drop_last() =~= pre);
            assert(views_of(entries@).subrange(0, i + 1).last() == entries@[i as int]@);
        }
        i = i + 1;
    }
    proof {
        assert(views_of(entries@).subrange(0, n as int) =~= views_of(entries@));
    }
    m
}

/// Boots the system vat from a compiled module: exactly when the data
/// table parses, vat 1 is created over the module bytes and entity 0 is
/// installed with the parsed defaults for entity id 0 plus its reserved
/// "self" binding.
pub fn load_monad(monad_code: Vec<u8>) -> (r: Result<Vat, VmError>)
    ensures
        match spec_parse_data_table(monad_code@, 0) {
            Option::Some((end, entries)) => r matches Ok(vat) && vat.wf() && vat@ == (VatV {
                inbox: Seq::<crate::vm_core::MsgV>::empty(),
                outbox: Seq::<crate::vm_core::MsgV>::empty(),
                entities: Seq::<EntityV>::empty().push(
                    (EntityV {
                        address: EntityAddress { node_id: 0, vat_id: 1, entity_id: 0 },
                        data: spec_entity_defaults(entries, 0).insert(
                            "self"@,
                            HvalueV::VAddr(
                                EntityAddress { node_id: 0, vat_id: 1, entity_id: 0 },
                            ),
                        ),
                        code: 0,
                        entity_type: 0,
                        bound_entity: Option::<u64>::None,
                    }),
                ),
                vat_id: 1,
                op_stack: Seq::<HvalueV>::empty(),
                call_stack: Seq::<crate::vm_core::StackFrameV>::empty(),
                promise_stack: Seq::<crate::vm_core::PromiseV>::empty(),
                code: monad_code@,
            }),
            Option::None => (r matches Err(e) && e == VmError::CodeError),
        },
{
    let mut z: usize = 0;
    let data_table = match load_entity_data_table(&mut z, monad_code.as_slice()) {
        Result::Ok(t) => t,
        Result::Err(e) => {
            return Result::Err(e);
        },
    };
    let defaults = entity_defaults(&data_table, 0);
    let mut vat = Vat::new(1, monad_code);
    vat.create_entity_code(0, 0, &defaults);
    Result::Ok(vat)
}

} // verus!
