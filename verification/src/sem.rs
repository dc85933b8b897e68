//! Scope trees: nested symbol tables for front-end name resolution.

use vstd::prelude::*;
use crate::ast::AstNode;

verus! {

/// One scope level: its symbols and the scope it nests in.
pub struct ScopeTree {
    pub symbols: Vec<(String, AstNode)>,
    pub parent: Option<Box<ScopeTree>>,
}

/// Whether a symbol list binds a name.
pub open spec fn binds(s: Seq<(String, AstNode)>, name: Seq<char>) -> bool {
    exists|i: int| 0 <= i < s.len() && s[i].0@ == name
}

/// The node the first binding of a name carries.
pub open spec fn bound_node(s: Seq<(String, AstNode)>, name: Seq<char>) -> Option<AstNode>
    decreases s.len(),
{
    if s.len() == 0 {
        Option::None
    } else if s[0].0@ == name {
        Option::Some(s[0].1)
    } else {
        bound_node(s.drop_first(), name)
    }
}

impl ScopeTree {
    pub fn new(seed_parent: Option<Box<ScopeTree>>) -> (r: ScopeTree)
        ensures
            r.symbols@.len() == 0,
            r.parent == seed_parent,
    {
        ScopeTree { symbols: Vec::new(), parent: seed_parent }
    }

    /// Finds this scope's own binding of a name — the first one recorded —
    /// without falling back to the parent scope.
    pub fn find_symbol(&self, s: &String) -> (r: Option<&AstNode>)
        ensures
            r is Some <==> binds(self.symbols@, s@),
            match r {
                Option::Some(node) => bound_node(self.symbols@, s@) == Option::Some(*node),
                Option::None => bound_node(self.symbols@, s@) is None,
            },
    {
        let n = self.symbols.len();
        let mut i: usize = 0;
        proof {
            assert(self.symbols@.subrange(0, n as int) =~= self.symbols@);
        }
        while i < n
            invariant
                0 <= i <= n,
                n == self.symbols@.len(),
                forall|j: int| 0 <= j < i ==> self.symbols@[j].0@ != s@,
                bound_node(self.symbols@, s@) == bound_node(
                    self.symbols@.subrange(i as int, n as int),
                    s@,
                ),
            decreases n - i,
        {
            let ghost rest = self.symbols@.subrange(i as int, n as int);
            if self.symbols[i].0 == *s {
                proof {
                    assert(rest[0] == self.symbols@[i as int]);
                }
                return Option::Some(&self.symbols[i].1);
            }
            proof {
                assert(rest[0] == self.symbols@[i as int]);
                assert(rest.drop_first() =~= self.symbols@.subrange(i + 1, n as int));
            }
            i = i + 1;
        }
        proof {
            assert(self.symbols@.subrange(n as int, n as int) =~= Seq::<(String, AstNode)>::empty());
        }
        Option::None
    }
}

} // verus!
