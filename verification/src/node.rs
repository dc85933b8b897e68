//! A node: the set of vats it hosts and the compiled modules it has loaded.

use vstd::prelude::*;
use crate::vm_core::Vat;

verus! {

/// One node of the cluster, keyed stores of vats and module bytes.
#[derive(Debug)]
pub struct Node {
    pub vats: Vec<(u64, Vat)>,
    pub code: Vec<(u64, Vec<u8>)>,
}

impl Node {
    pub fn new() -> (r: Node)
        ensures
            r.vats@.len() == 0,
            r.code@.len() == 0,
    {
        Node { vats: Vec::new(), code: Vec::new() }
    }
}

} // verus!
