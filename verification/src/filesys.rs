//! In-memory views over archive images.

use vstd::prelude::*;

verus! {

/// A view over a tape-archive image held in memory.
pub struct UstarFs<'a> {
    pub data: &'a [u8],
}

impl<'a> UstarFs<'a> {
    pub fn new(data: &'a [u8]) -> (r: UstarFs<'a>)
        ensures
            r.data@ == data@,
    {
        UstarFs { data }
    }
}

} // verus!
