//! Registration hooks for host-implemented system modules.

use vstd::prelude::*;
use crate::ast::EntityDef;

verus! {

/// A system module contributes its native functions to an entity
/// definition before compilation.
pub trait SystemModule {
    fn unite(&self, def: &mut EntityDef);
}

/// Registers one host-native function under an entity definition; the
/// binding carries the numeric index the foreign-call opcode uses, and the
/// definition gains a stub function whose body is exactly that foreign
/// call.
pub fn register_function(def: &mut EntityDef, func_name: &String, fc_id: u64) -> (r: bool)
    ensures
        r == (old(def).foreign_functions@.len() < 256),
        r ==> final(def).foreign_functions@ == old(def).foreign_functions@.push(
            ((old(def).foreign_functions@.len() as u8), crate::ast::ForeignFunc { fc_id }),
        ),
        r ==> final(def).functions@.len() == old(def).functions@.len() + 1,
        r ==> final(def).functions@.subrange(0, old(def).functions@.len() as int) == old(
            def,
        ).functions@,
        r ==> final(def).functions@.last().0@ == func_name@,
        r ==> ({
            let stub = final(def).functions@.last().1;
            &&& stub matches crate::ast::AstNode::Function { name, parameters, return_type, body }
            &&& name@ == func_name@
            &&& parameters@.len() == 0
            &&& body@.len() == 1
            &&& (body@[0] matches crate::ast::AstNode::ForeignCall(ff, args) && ff.fc_id == fc_id
                && args@.len() == 0)
        }),
        !r ==> *final(def) == *old(def),
{
    if def.foreign_functions.len() < 256 {
        def.register_foreign_function(func_name, fc_id);
        true
    } else {
        false
    }
}

} // verus!
