//! The compiler passes: type and function-index gathering, variable-scope
//! resolution, and code generation with its relocation step.

use vstd::prelude::*;
use vstd::string::{StringExecFns, StringSliceAdditionalSpecFns};
use vstd::utf8::encode_utf8;
use crate::ast::{
    AstNode, BinOp, CType, EntityDef, FunctionCall, CallType, Hvalue, HvalueV, Identifier,
    IdentifierTarget, Module, PType,
};
use crate::opcodes::{
    Op, OpV, spec_encode_instruction, instr_encodable, encode_instruction, value_encodable,
    str_operand_ok, be_bytes8,
};
use crate::vm_core::views_of;
use vstd::multiset::Multiset;
use crate::opcodes::spec_encode_str;

verus! {

/// Why compilation was abandoned: a malformed tree reached a pass it cannot
/// handle (an unresolved identifier, a name the codec cannot carry), or a
/// relocation referenced an (entity, function) pair the location table does
/// not hold.
#[derive(Debug, Clone, Copy, PartialEq, Eq, Structural)]
pub enum CompileError {
    FrontEndError,
    LinkError,
}

/// Lexicographic order on byte strings.
pub open spec fn bytes_le(a: Seq<u8>, b: Seq<u8>) -> bool
    decreases a.len(),
{
    if a.len() == 0 {
        true
    } else if b.len() == 0 {
        false
    } else if a[0] < b[0] {
        true
    } else if a[0] > b[0] {
        false
    } else {
        bytes_le(a.drop_first(), b.drop_first())
    }
}

/// The function ordering used for index assignment: the constructor name
/// "create" always comes first; other names are ordered by the bytes of
/// their UTF-8 encodings.
pub open spec fn func_name_le(a: Seq<char>, b: Seq<char>) -> bool {
    if a == "create"@ {
        true
    } else if b == "create"@ {
        false
    } else {
        bytes_le(encode_utf8(a), encode_utf8(b))
    }
}

/// Whether `a` orders no later than `b` as byte strings.
fn bytes_le_exec(a: &[u8], b: &[u8]) -> (r: bool)
    ensures
        r == bytes_le(a@, b@),
    decreases a@.len(),
{
    let mut i: usize = 0;
    let na = a.len();
    let nb = b.len();
    proof {
        assert(a@.subrange(0, na as int) =~= a@);
        assert(b@.subrange(0, nb as int) =~= b@);
    }
    while i < na && i < nb
        invariant
            0 <= i <= na,
            0 <= i <= nb,
            na == a@.len(),
            nb == b@.len(),
            forall|j: int| 0 <= j < i ==> a@[j] == b@[j],
            bytes_le(a@, b@) == bytes_le(a@.subrange(i as int, na as int), b@.subrange(i as int, nb as int)),
        decreases na - i,
    {
        let ghost ar = a@.subrange(i as int, na as int);
        let ghost br = b@.subrange(i as int, nb as int);
        if a[i] < b[i] {
            return true;
        }
        if a[i] > b[i] {
            return false;
        }
        proof {
            assert(ar[0] == br[0]);
            assert(ar.drop_first() =~= a@.subrange(i + 1, na as int));
            assert(br.drop_first() =~= b@.subrange(i + 1, nb as int));
        }
        i = i + 1;
    }
    proof {
        if i == na {
            assert(a@.subrange(na as int, na as int) =~= Seq::<u8>::empty());
        } else {
            assert(b@.subrange(i as int, nb as int) =~= Seq::<u8>::empty());
            assert(a@.subrange(i as int, na as int).len() > 0);
        }
    }
    i == na
}

/// Whether two byte strings are equal.
fn bytes_eq_exec(a: &[u8], b: &[u8]) -> (r: bool)
    ensures
        r == (a@ == b@),
{
    let na = a.len();
    if na != b.len() {
        proof {
            assert(a@.len() != b@.len());
        }
        return false;
    }
    let mut i: usize = 0;
    while i < na
        invariant
            0 <= i <= na,
            na == a@.len(),
            na == b@.len(),
            forall|j: int| 0 <= j < i ==> a@[j] == b@[j],
        decreases na - i,
    {
        if a[i] != b[i] {
            return false;
        }
        i = i + 1;
    }
    proof {
        assert(a@ =~= b@);
    }
    true
}

/// Sorts "create" first, then the other names in byte order.
pub fn compare_function_names(a: &String, b: &String) -> (r: bool)
    ensures
        r == func_name_le(a@, b@),
{
    let create: &str = "create";
    let ab: &[u8] = a.as_str().as_bytes();
    let bb: &[u8] = b.as_str().as_bytes();
    let cb: &[u8] = create.as_bytes();
    if bytes_eq_exec(ab, cb) {
        proof {
            vstd::utf8::encode_utf8_decode_utf8(a@);
            vstd::utf8::encode_utf8_decode_utf8(create@);
            if encode_utf8(a@) == encode_utf8(create@) {
                assert(a@ == create@);
            }
        }
        return true;
    }
    if bytes_eq_exec(bb, cb) {
        proof {
            vstd::utf8::encode_utf8_decode_utf8(b@);
            vstd::utf8::encode_utf8_decode_utf8(create@);
            if encode_utf8(b@) == encode_utf8(create@) {
                assert(b@ == create@);
            }
        }
        return false;
    }
    proof {
        if a@ == create@ {
            assert(encode_utf8(a@) == encode_utf8(create@));
        }
        if b@ == create@ {
            assert(encode_utf8(b@) == encode_utf8(create@));
        }
    }
    bytes_le_exec(ab, bb)
}

/// The ordering is total: any two names compare one way or the other.
proof fn lemma_bytes_le_total(a: Seq<u8>, b: Seq<u8>)
    ensures
        bytes_le(a, b) || bytes_le(b, a),
    decreases a.len(),
{
    if a.len() > 0 && b.len() > 0 && a[0] == b[0] {
        lemma_bytes_le_total(a.drop_first(), b.drop_first());
    }
}

proof fn lemma_func_name_le_total(a: Seq<char>, b: Seq<char>)
    ensures
        func_name_le(a, b) || func_name_le(b, a),
{
    lemma_bytes_le_total(encode_utf8(a), encode_utf8(b));
}

/// The ordering is transitive.
proof fn lemma_bytes_le_trans(a: Seq<u8>, b: Seq<u8>, c: Seq<u8>)
    requires
        bytes_le(a, b),
        bytes_le(b, c),
    ensures
        bytes_le(a, c),
    decreases a.len(),
{
    if a.len() > 0 && b.len() > 0 && c.len() > 0 && a[0] == b[0] && b[0] == c[0] {
        lemma_bytes_le_trans(a.drop_first(), b.drop_first(), c.drop_first());
    }
}

proof fn lemma_func_name_le_trans(a: Seq<char>, b: Seq<char>, c: Seq<char>)
    requires
        func_name_le(a, b),
        func_name_le(b, c),
    ensures
        func_name_le(a, c),
{
    if a != "create"@ && b != "create"@ && c != "create"@ {
        lemma_bytes_le_trans(encode_utf8(a), encode_utf8(b), encode_utf8(c));
    }
}

/// The declared type a definition's right-hand side gives its symbol: a
/// construction site types the symbol with the constructed entity type;
/// any non-call node contributes no type. An ordinary call reaching it is a
/// front-end defect, left out of the domain.
pub fn derive_type(node: &AstNode) -> (r: CType)
    requires
        match node {
            AstNode::FunctionCall(fc) => fc.call_type is NewEntity,
            _ => true,
        },
    ensures
        match node {
            AstNode::FunctionCall(fc) => (r matches CType::Loc(p) && p matches PType::Entity(e)
                && e@ == fc.identifier.original_sym@),
            _ => r is Void,
        },
{
    match node {
        AstNode::FunctionCall(fc) => match fc.call_type {
            CallType::NewEntity => CType::Loc(PType::Entity(fc.identifier.original_sym.clone())),
            CallType::Ordinary => {
                proof {
                    assert(false);
                }
                CType::Void
            },
        },
        _ => CType::Void,
    }
}

/// Whether a name stands in a scope list.
pub open spec fn name_in(v: Seq<String>, name: Seq<char>) -> bool {
    exists|i: int| 0 <= i < v.len() && v[i]@ == name
}

fn names_contain(v: &Vec<String>, name: &String) -> (r: bool)
    ensures
        r == name_in(v@, name@),
{
    let n = v.len();
    let mut i: usize = 0;
    while i < n
        invariant
            0 <= i <= n,
            n == v@.len(),
            forall|j: int| 0 <= j < i ==> v@[j]@ != name@,
        decreases n - i,
    {
        if v[i] == *name {
            return true;
        }
        i = i + 1;
    }
    false
}

/// Sorts a name list with the function-index ordering.
pub fn sort_names(names: Vec<String>) -> (r: Vec<String>)
    ensures
        forall|i: int, j: int| 0 <= i < j < r@.len() ==> func_name_le(r@[i]@, r@[j]@),
        r@.to_multiset() == names@.to_multiset(),
        r@.len() == names@.len(),
{
    broadcast use vstd::seq_lib::group_to_multiset_ensures;

    let mut input = names;
    let mut out: Vec<String> = Vec::new();
    proof {
        assert(out@.to_multiset() =~= Seq::<String>::empty().to_multiset());
    }
    while input.len() > 0
        invariant
            forall|i: int, j: int| 0 <= i < j < out@.len() ==> func_name_le(out@[i]@, out@[j]@),
            out@.to_multiset().add(input@.to_multiset()) == names@.to_multiset(),
            out@.len() + input@.len() == names@.len(),
        decreases input@.len(),
    {
        let ghost pre_in = input@;
        let ghost pre_out = out@;
        let item = match input.pop() {
            Option::Some(t) => t,
            Option::None => {
                proof {
                    assert(false);
                }
                return out;
            },
        };
        let n = out.len();
        let mut k: usize = 0;
        while k < n && compare_function_names(&out[k], &item)
            invariant
                0 <= k <= n,
                n == out@.len(),
                forall|j: int| 0 <= j < k ==> func_name_le(out@[j]@, item@),
            decreases n - k,
        {
            k = k + 1;
        }
        proof {
            if k < n {
                lemma_func_name_le_total(out@[k as int]@, item@);
                assert(func_name_le(item@, out@[k as int]@));
                assert forall|j: int| k <= j < n implies func_name_le(item@, pre_out[j]@) by {
                    if j > k {
                        lemma_func_name_le_trans(item@, pre_out[k as int]@, pre_out[j]@);
                    }
                }
            }
            vstd::seq_lib::to_multiset_insert(out@, k as int, item);
        }
        out.insert(k, item);
        proof {
            assert forall|i: int, j: int| 0 <= i < j < out@.len() implies func_name_le(
                out@[i]@,
                out@[j]@,
            ) by {
                if j < k {
                    assert(out@[i] == pre_out[i] && out@[j] == pre_out[j]);
                } else if i < k && j == k {
                    assert(out@[i] == pre_out[i]);
                } else if i < k && j > k {
                    assert(out@[i] == pre_out[i] && out@[j] == pre_out[j - 1]);
                } else if i == k {
                    assert(out@[j] == pre_out[j - 1]);
                    assert(func_name_le(item@, pre_out[j - 1]@));
                } else {
                    assert(out@[i] == pre_out[i - 1] && out@[j] == pre_out[j - 1]);
                }
            }
            assert(pre_in =~= pre_in.drop_last().push(item));
            vstd::seq_lib::to_multiset_build(pre_in.drop_last(), item);
        }
    }
    proof {
        assert(input@.to_multiset() =~= Seq::<String>::empty().to_multiset());
    }
    out
}

/// The scope pass, as a shape relation between the tree walked and the
/// tree produced: every node keeps its form, names and values; resolved
/// targets are fixed where the scopes in force are known (a definition's
/// left-hand side is always a local).
pub open spec fn scoped_all(a: Seq<AstNode>, b: Seq<AstNode>) -> bool
    decreases a,
{
    &&& a.len() == b.len()
    &&& (a.len() > 0 ==> scoped(a[0], b[0]) && scoped_all(a.drop_first(), b.drop_first()))
}

pub open spec fn scoped(a: AstNode, b: AstNode) -> bool
    decreases a,
{
    match a {
        AstNode::Identifier(sym) => b matches AstNode::Identifier(s2) && s2.original_sym
            == sym.original_sym && s2.unique_sym == sym.unique_sym,
        AstNode::DefinitionNode(sym, e) => b matches AstNode::DefinitionNode(s2, e2)
            && s2.original_sym == sym.original_sym && s2.target is LocalVar && scoped(*e, *e2),
        AstNode::AssignmentNode(sym, e) => b matches AstNode::AssignmentNode(s2, e2)
            && s2.original_sym == sym.original_sym && scoped(*e, *e2),
        AstNode::FunctionCall(fc) => b matches AstNode::FunctionCall(fc2) && ({
            &&& fc2.call_type == fc.call_type
            &&& fc2.func_name@ == fc.func_name@
            &&& fc2.identifier.original_sym == fc.identifier.original_sym
            &&& scoped_all(fc.arguments@, fc2.arguments@)
        }),
        AstNode::Message(id, fname, args) => b matches AstNode::Message(id2, f2, args2)
            && id2.original_sym == id.original_sym && f2@ == fname@ && scoped_all(args@, args2@),
        AstNode::ForeignCall(ff, args) => b matches AstNode::ForeignCall(ff2, args2) && ff2 == ff
            && scoped_all(args@, args2@),
        AstNode::Return(e) => b matches AstNode::Return(e2) && scoped(*e, *e2),
        AstNode::Await(e) => b matches AstNode::Await(e2) && scoped(*e, *e2),
        AstNode::Print(e) => b matches AstNode::Print(e2) && scoped(*e, *e2),
        AstNode::OperatorNode(x, op, y) => b matches AstNode::OperatorNode(x2, op2, y2) && op2
            == op && scoped(*x, *x2) && scoped(*y, *y2),
        AstNode::Index(x, y) => b matches AstNode::Index(x2, y2) && scoped(*x, *x2) && scoped(
            *y,
            *y2,
        ),
        AstNode::ValueNode(v) => b matches AstNode::ValueNode(v2) && v2@ == v@,
        AstNode::ImportModule(n) => b matches AstNode::ImportModule(n2) && n2@ == n@,
        _ => b is Error,
    }
}

pub proof fn lemma_scoped_all_elems(a: Seq<AstNode>, b: Seq<AstNode>)
    requires
        a.len() == b.len(),
        forall|i: int| 0 <= i < a.len() ==> scoped(#[trigger] a[i], b[i]),
    ensures
        scoped_all(a, b),
    decreases a.len(),
{
    if a.len() > 0 {
        assert forall|i: int| 0 <= i < a.drop_first().len() implies scoped(
            #[trigger] a.drop_first()[i],
            b.drop_first()[i],
        ) by {
            assert(a.drop_first()[i] == a[i + 1]);
            assert(b.drop_first()[i] == b[i + 1]);
        }
        lemma_scoped_all_elems(a.drop_first(), b.drop_first());
    }
}

/// The scope relation for one function definition node.
pub open spec fn scoped_fn(a: AstNode, b: AstNode) -> bool {
    match a {
        AstNode::Function { name, parameters, return_type, body } => b matches AstNode::Function {
            name: n2,
            parameters: p2,
            return_type: rt2,
            body: b2,
        } && ({
            &&& n2@ == name@
            &&& p2@.len() == parameters@.len()
            &&& (forall|i: int| 0 <= i < parameters@.len() ==> (#[trigger] p2@[i]).0
                == parameters@[i].0)
            &&& scoped_all(body@, b2@)
        }),
        _ => b is Error,
    }
}

/// The scope relation for one entity definition: names, fields and foreign
/// bindings kept, every function walked.
pub open spec fn scoped_def(a: EntityDef, b: EntityDef) -> bool {
    &&& b.name@ == a.name@
    &&& b.data_declarations@.len() == a.data_declarations@.len()
    &&& (forall|i: int| 0 <= i < a.data_declarations@.len()
        ==> (#[trigger] b.data_declarations@[i]).0 == a.data_declarations@[i].0)
    &&& b.inoculation_list@.len() == a.inoculation_list@.len()
    &&& (forall|i: int| 0 <= i < a.inoculation_list@.len()
        ==> (#[trigger] b.inoculation_list@[i]).0 == a.inoculation_list@[i].0)
    &&& b.foreign_functions@ == a.foreign_functions@
    &&& b.functions@.len() == a.functions@.len()
    &&& (forall|i: int| 0 <= i < a.functions@.len() ==> (#[trigger] b.functions@[i]).0
        == a.functions@[i].0 && scoped_fn(a.functions@[i].1, b.functions@[i].1))
}

/// The variable-flow pass: seeds entity scope with the implicit "self" and
/// the declared data fields, inoculation scope with inoculation fields, and
/// a fresh local scope per function with its parameters; definitions
/// register their left-hand name as local; every reference is classified by
/// lookup order local, entity, inoculation.
pub struct VariableFlow {
    pub inoc_vars: Vec<String>,
    pub entity_vars: Vec<String>,
    pub local_vars: Vec<String>,
}

impl VariableFlow {
    /// Classifies one reference by lookup order: local, then entity, then
    /// inoculation; a name in none of the scopes keeps its old target, so an
    /// unresolved reference stays `Undecided`.
    pub fn visit_identifier(&self, symbol: &Identifier) -> (r: Identifier)
        ensures
            r.original_sym == symbol.original_sym,
            r.unique_sym == symbol.unique_sym,
            r.target == (if name_in(self.local_vars@, symbol.original_sym@) {
                IdentifierTarget::LocalVar
            } else if name_in(self.entity_vars@, symbol.original_sym@) {
                IdentifierTarget::EntityVar
            } else if name_in(self.inoc_vars@, symbol.original_sym@) {
                IdentifierTarget::InocVar
            } else {
                symbol.target
            }),
    {
        let target = if names_contain(&self.local_vars, &symbol.original_sym) {
            IdentifierTarget::LocalVar
        } else if names_contain(&self.entity_vars, &symbol.original_sym) {
            IdentifierTarget::EntityVar
        } else if names_contain(&self.inoc_vars, &symbol.original_sym) {
            IdentifierTarget::InocVar
        } else {
            symbol.target
        };
        Identifier {
            original_sym: symbol.original_sym.clone(),
            unique_sym: symbol.unique_sym.clone(),
            target,
        }
    }

    /// A definition registers its left-hand name as a fresh local and marks
    /// it as such.
    pub fn visit_definition(&mut self, symbol: &Identifier, expr: &AstNode) -> (r: (
        Identifier,
        AstNode,
    ))
        ensures
            final(self).inoc_vars == old(self).inoc_vars,
            final(self).entity_vars == old(self).entity_vars,
            r.0.original_sym == symbol.original_sym,
            r.0.target == IdentifierTarget::LocalVar,
            name_in(final(self).local_vars@, symbol.original_sym@),
            scoped(*expr, r.1),
        decreases expr, 1int,
    {
        let expr = self.visit_node(expr);
        self.local_vars.push(symbol.original_sym.clone());
        proof {
            assert(self.local_vars@.last()@ == symbol.original_sym@);
        }
        (
            Identifier {
                original_sym: symbol.original_sym.clone(),
                unique_sym: symbol.unique_sym.clone(),
                target: IdentifierTarget::LocalVar,
            },
            expr,
        )
    }

    /// Walks one statement or expression, classifying every identifier. A
    /// node form that cannot stand in statement position is replaced by the
    /// error node, as the front end never produces one there.
    #[verifier::loop_isolation(false)]
    pub fn visit_node(&mut self, node: &AstNode) -> (r: AstNode)
        ensures
            final(self).inoc_vars == old(self).inoc_vars,
            final(self).entity_vars == old(self).entity_vars,
            scoped(*node, r),
            node matches AstNode::Identifier(sym) ==> (r matches AstNode::Identifier(s2)
                && s2.target == (if name_in(old(self).local_vars@, sym.original_sym@) {
                IdentifierTarget::LocalVar
            } else if name_in(old(self).entity_vars@, sym.original_sym@) {
                IdentifierTarget::EntityVar
            } else if name_in(old(self).inoc_vars@, sym.original_sym@) {
                IdentifierTarget::InocVar
            } else {
                sym.target
            })),
        decreases node, 0int,
    {
        match node {
            AstNode::DefinitionNode(sym, expr) => {
                let (sym, expr) = self.visit_definition(sym, expr);
                AstNode::DefinitionNode(sym, Box::new(expr))
            },
            AstNode::AssignmentNode(sym, expr) => {
                let sym = self.visit_identifier(sym);
                let expr = self.visit_node(expr);
                AstNode::AssignmentNode(sym, Box::new(expr))
            },
            AstNode::FunctionCall(fc) => {
                let n = fc.arguments.len();
                let mut out: Vec<AstNode> = Vec::new();
                let mut i: usize = 0;
                while i < n
                    invariant
                        self.inoc_vars == old(self).inoc_vars,
                        self.entity_vars == old(self).entity_vars,
                        0 <= i <= n,
                        out@.len() == i,
                        forall|j: int| 0 <= j < i ==> scoped(
                            #[trigger] fc.arguments@[j],
                            out@[j],
                        ),
                    decreases n - i,
                {
                    let a = self.visit_node(&fc.arguments[i]);
                    out.push(a);
                    i = i + 1;
                }
                proof {
                    lemma_scoped_all_elems(fc.arguments@, out@);
                }
                let identifier = self.visit_identifier(&fc.identifier);
                AstNode::FunctionCall(
                    FunctionCall {
                        call_type: fc.call_type,
                        identifier,
                        func_name: fc.func_name.clone(),
                        arguments: out,
                    },
                )
            },
            AstNode::Message(id, fname, args) => {
                let id = self.visit_identifier(id);
                let n = args.len();
                let mut out: Vec<AstNode> = Vec::new();
                let mut i: usize = 0;
                while i < n
                    invariant
                        self.inoc_vars == old(self).inoc_vars,
                        self.entity_vars == old(self).entity_vars,
                        0 <= i <= n,
                        out@.len() == i,
                        forall|j: int| 0 <= j < i ==> scoped(#[trigger] args@[j], out@[j]),
                    decreases n - i,
                {
                    let a = self.visit_node(&args[i]);
                    out.push(a);
                    i = i + 1;
                }
                proof {
                    lemma_scoped_all_elems(args@, out@);
                }
                AstNode::Message(id, fname.clone(), out)
            },
            AstNode::ForeignCall(ff, args) => {
                let n = args.len();
                let mut out: Vec<AstNode> = Vec::new();
                let mut i: usize = 0;
                while i < n
                    invariant
                        self.inoc_vars == old(self).inoc_vars,
                        self.entity_vars == old(self).entity_vars,
                        0 <= i <= n,
                        out@.len() == i,
                        forall|j: int| 0 <= j < i ==> scoped(#[trigger] args@[j], out@[j]),
                    decreases n - i,
                {
                    let a = self.visit_node(&args[i]);
                    out.push(a);
                    i = i + 1;
                }
                proof {
                    lemma_scoped_all_elems(args@, out@);
                }
                AstNode::ForeignCall(*ff, out)
            },
            AstNode::Return(e) => {
                let e = self.visit_node(e);
                AstNode::Return(Box::new(e))
            },
            AstNode::Await(e) => {
                let e = self.visit_node(e);
                AstNode::Await(Box::new(e))
            },
            AstNode::Print(e) => {
                let e = self.visit_node(e);
                AstNode::Print(Box::new(e))
            },
            AstNode::OperatorNode(a, op, b) => {
                let a2 = self.visit_node(a);
                let b2 = self.visit_node(b);
                AstNode::OperatorNode(Box::new(a2), *op, Box::new(b2))
            },
            AstNode::Index(a, b) => {
                let a2 = self.visit_node(a);
                let b2 = self.visit_node(b);
                AstNode::Index(Box::new(a2), Box::new(b2))
            },
            AstNode::Identifier(sym) => {
                let sym = self.visit_identifier(sym);
                AstNode::Identifier(sym)
            },
            AstNode::ValueNode(v) => AstNode::ValueNode(v.duplicate()),
            AstNode::ImportModule(s) => AstNode::ImportModule(s.clone()),
            _ => AstNode::Error,
        }
    }

    /// Walks one function: a fresh local scope seeded with the parameters.
    pub fn visit_function(
        &mut self,
        name: &String,
        parameters: &Vec<(String, CType)>,
        return_type: &CType,
        body: &Vec<AstNode>,
    ) -> (r: AstNode)
        ensures
            final(self).inoc_vars == old(self).inoc_vars,
            final(self).entity_vars == old(self).entity_vars,
            (r matches AstNode::Function { name: n2, parameters: p2, return_type: rt2, body: b2 }
                && n2@ == name@ && p2@.len() == parameters@.len() && (forall|i: int|
                0 <= i < parameters@.len() ==> (#[trigger] p2@[i]).0 == parameters@[i].0)
                && scoped_all(body@, b2@)),
    {
        self.local_vars = Vec::new();
        let np = parameters.len();
        let mut params: Vec<(String, CType)> = Vec::new();
        let mut i: usize = 0;
        while i < np
            invariant
                self.inoc_vars == old(self).inoc_vars,
                self.entity_vars == old(self).entity_vars,
                0 <= i <= np,
                np == parameters@.len(),
                params@.len() == i,
                forall|k: int| 0 <= k < i ==> (#[trigger] params@[k]).0 == parameters@[k].0,
            decreases np - i,
        {
            self.local_vars.push(parameters[i].0.clone());
            params.push((parameters[i].0.clone(), parameters[i].1.duplicate()));
            i = i + 1;
        }
        let n = body.len();
        let mut out: Vec<AstNode> = Vec::new();
        let mut j: usize = 0;
        while j < n
            invariant
                self.inoc_vars == old(self).inoc_vars,
                self.entity_vars == old(self).entity_vars,
                0 <= j <= n,
                n == body@.len(),
                out@.len() == j,
                forall|k: int| 0 <= k < j ==> scoped(#[trigger] body@[k], out@[k]),
            decreases n - j,
        {
            let stmt = self.visit_node(&body[j]);
            out.push(stmt);
            j = j + 1;
        }
        proof {
            lemma_scoped_all_elems(body@, out@);
        }
        AstNode::Function {
            name: name.clone(),
            parameters: params,
            return_type: return_type.duplicate(),
            body: out,
        }
    }

    /// Walks one entity definition: entity scope holds the implicit "self"
    /// and the data fields, inoculation scope the inoculation fields.
    pub fn visit_entity_def(&mut self, def: &EntityDef) -> (r: EntityDef)
        ensures
            scoped_def(*def, r),
    {
        self.entity_vars = Vec::new();
        self.entity_vars.push(String::from_str("self"));
        let ni = def.inoculation_list.len();
        let mut inoc: Vec<(String, CType)> = Vec::new();
        let mut i: usize = 0;
        while i < ni
            invariant
                0 <= i <= ni,
                ni == def.inoculation_list@.len(),
                inoc@.len() == i,
                forall|k: int| 0 <= k < i ==> (#[trigger] inoc@[k]).0
                    == def.inoculation_list@[k].0,
            decreases ni - i,
        {
            self.inoc_vars.push(def.inoculation_list[i].0.clone());
            inoc.push((def.inoculation_list[i].0.clone(), def.inoculation_list[i].1.duplicate()));
            i = i + 1;
        }
        let nd = def.data_declarations.len();
        let mut data: Vec<(String, CType)> = Vec::new();
        let mut d: usize = 0;
        while d < nd
            invariant
                0 <= d <= nd,
                nd == def.data_declarations@.len(),
                data@.len() == d,
                forall|k: int| 0 <= k < d ==> (#[trigger] data@[k]).0
                    == def.data_declarations@[k].0,
            decreases nd - d,
        {
            self.entity_vars.push(def.data_declarations[d].0.clone());
            data.push((def.data_declarations[d].0.clone(), def.data_declarations[d].1.duplicate()));
            d = d + 1;
        }
        let nf = def.functions.len();
        let mut out: Vec<(String, AstNode)> = Vec::new();
        let mut f: usize = 0;
        while f < nf
            invariant
                0 <= f <= nf,
                nf == def.functions@.len(),
                out@.len() == f,
                forall|k: int| 0 <= k < f ==> (#[trigger] out@[k]).0 == def.functions@[k].0
                    && scoped_fn(def.functions@[k].1, out@[k].1),
            decreases nf - f,
        {
            self.local_vars = Vec::new();
            let fdef = match &def.functions[f].1 {
                AstNode::Function { name, parameters, return_type, body } => {
                    let fr = self.visit_function(name, parameters, return_type, body);
                    proof {
                        assert(scoped_fn(def.functions@[f as int].1, fr));
                    }
                    fr
                },
                _ => AstNode::Error,
            };
            proof {
                assert(scoped_fn(def.functions@[f as int].1, fdef));
            }
            out.push((def.functions[f].0.clone(), fdef));
            f = f + 1;
        }
        let mut ffs: Vec<(u8, crate::ast::ForeignFunc)> = Vec::new();
        let nff = def.foreign_functions.len();
        let mut g: usize = 0;
        while g < nff
            invariant
                0 <= g <= nff,
                nff == def.foreign_functions@.len(),
                ffs@.len() == g,
                forall|k: int| 0 <= k < g ==> #[trigger] ffs@[k] == def.foreign_functions@[k],
            decreases nff - g,
        {
            ffs.push(def.foreign_functions[g]);
            g = g + 1;
        }
        proof {
            assert(ffs@ =~= def.foreign_functions@);
        }
        EntityDef {
            name: def.name.clone(),
            data_declarations: data,
            inoculation_list: inoc,
            functions: out,
            foreign_functions: ffs,
        }
    }

    /// Walks a whole module.
    pub fn visit_module(&mut self, module: &Module) -> (r: Module) {
        let n = module.entity_defs.len();
        let mut out: Vec<(String, AstNode)> = Vec::new();
        let mut i: usize = 0;
        while i < n
            invariant
                0 <= i <= n,
                n == module.entity_defs@.len(),
            decreases n - i,
        {
            let edef = match &module.entity_defs[i].1 {
                AstNode::EntityDef(d) => AstNode::EntityDef(self.visit_entity_def(d)),
                _ => AstNode::Error,
            };
            out.push((module.entity_defs[i].0.clone(), edef));
            i = i + 1;
        }
        Module { imports: Vec::new(), entity_defs: out }
    }
}

/// The type-gathering pass: for each entity type it assigns every function
/// a dense index, sorted with "create" forced first, and records declared
/// return types.
pub struct GatherModuleTypes {
    pub entity_function_types: Vec<(String, Vec<(String, CType)>)>,
    pub entities_and_functions: Vec<(String, Vec<(String, u32)>)>,
}

impl GatherModuleTypes {
    /// Function index determinism: the functions of an entity are assigned
    /// the dense indices 0, 1, ... in the index ordering — the constructor
    /// "create" first, the rest sorted by name.
    pub fn visit_entity_def(&mut self, entity_name: &String, functions: &Vec<(String, AstNode)>)
        requires
            functions@.len() < 0x1_0000_0000,
        ensures
            final(self).entity_function_types@.len() == old(self).entity_function_types@.len()
                + 1,
            final(self).entities_and_functions@.len() == old(
                self,
            ).entities_and_functions@.len() + 1,
            final(self).entities_and_functions@.subrange(
                0,
                old(self).entities_and_functions@.len() as int,
            ) == old(self).entities_and_functions@,
            final(self).entities_and_functions@.last().0@ == entity_name@,
            ({
                let fids = final(self).entities_and_functions@.last().1@;
                &&& fids.len() == functions@.len()
                &&& (forall|i: int, j: int| 0 <= i < j < fids.len() ==> func_name_le(
                    fids[i].0@,
                    fids[j].0@,
                ))
                &&& (forall|i: int| 0 <= i < fids.len() ==> (#[trigger] fids[i]).1 == i as u32)
                &&& Seq::new(fids.len(), |i: int| fids[i].0).to_multiset() == Seq::new(
                    functions@.len(),
                    |i: int| functions@[i].0,
                ).to_multiset()
            }),
    {
        let nf = functions.len();
        let mut names: Vec<String> = Vec::new();
        let mut types: Vec<(String, CType)> = Vec::new();
        let mut i: usize = 0;
        while i < nf
            invariant
                0 <= i <= nf,
                nf == functions@.len(),
                names@.len() == i,
                forall|j: int| 0 <= j < i ==> names@[j] == functions@[j].0,
            decreases nf - i,
        {
            names.push(functions[i].0.clone());
            match &functions[i].1 {
                AstNode::Function { return_type, .. } => {
                    types.push((functions[i].0.clone(), return_type.duplicate()));
                },
                _ => {
                },
            }
            i = i + 1;
        }
        proof {
            assert(names@ =~= Seq::new(functions@.len(), |i: int| functions@[i].0));
        }
        let sorted = sort_names(names);
        let mut fids: Vec<(String, u32)> = Vec::new();
        let nf2 = sorted.len();
        let mut k: usize = 0;
        while k < nf2
            invariant
                0 <= k <= nf2,
                nf2 == sorted@.len(),
                nf2 < 0x1_0000_0000,
                fids@.len() == k,
                forall|j: int| 0 <= j < k ==> (#[trigger] fids@[j]).0 == sorted@[j] && fids@[j].1
                    == j as u32,
            decreases nf2 - k,
        {
            fids.push((sorted[k].clone(), k as u32));
            proof {
                assert(fids@.last().0@ == sorted@[k as int]@);
            }
            k = k + 1;
        }
        self.entity_function_types.push((entity_name.clone(), types));
        self.entities_and_functions.push((entity_name.clone(), fids));
        proof {
            let gfids = self.entities_and_functions@.last().1@;
            assert(Seq::new(gfids.len(), |i: int| gfids[i].0) =~= sorted@);
            assert(self.entities_and_functions@.subrange(
                0,
                old(self).entities_and_functions@.len() as int,
            ) =~= old(self).entities_and_functions@);
        }
    }
}

/// The bytes of `code` with eight bytes starting at `at` replaced by `b`.
pub open spec fn write_bytes8(code: Seq<u8>, at: int, b: Seq<u8>) -> Seq<u8> {
    Seq::new(code.len(), |i: int| if at <= i < at + 8 { b[i - at] } else { code[i] })
}

/// The last recorded absolute location of `(ent, fid)`, if any.
pub open spec fn spec_lookup_abs(t: Seq<(u32, u32, usize)>, ent: u32, fid: u32) -> Option<usize>
    decreases t.len(),
{
    if t.len() == 0 {
        Option::None
    } else if t.last().0 == ent && t.last().1 == fid {
        Option::Some(t.last().2)
    } else {
        spec_lookup_abs(t.drop_last(), ent, fid)
    }
}

/// Applies every relocation in order: each patch site is overwritten with
/// the eight big-endian bytes of the function's recorded absolute start.
/// A relocation whose pair the table does not hold, or whose patch site
/// runs past the code, yields nothing.
pub open spec fn spec_relocate(
    code: Seq<u8>,
    relocs: Seq<(u32, u32, u64)>,
    abs: Seq<(u32, u32, usize)>,
) -> Option<Seq<u8>>
    decreases relocs.len(),
{
    if relocs.len() == 0 {
        Option::Some(code)
    } else {
        let r = relocs[0];
        match spec_lookup_abs(abs, r.0, r.1) {
            Option::None => Option::None,
            Option::Some(loc_abs) => if r.2 + 8 <= code.len() {
                spec_relocate(
                    write_bytes8(code, r.2 as int, be_bytes8(loc_abs as int)),
                    relocs.drop_first(),
                    abs,
                )
            } else {
                Option::None
            },
        }
    }
}

/// Relocation leaves the code's length alone.
pub proof fn lemma_relocate_len(
    code: Seq<u8>,
    relocs: Seq<(u32, u32, u64)>,
    abs: Seq<(u32, u32, usize)>,
)
    ensures
        spec_relocate(code, relocs, abs) matches Some(out) ==> out.len() == code.len(),
    decreases relocs.len(),
{
    if relocs.len() > 0 {
        let r = relocs[0];
        match spec_lookup_abs(abs, r.0, r.1) {
            Option::Some(loc_abs) => {
                if r.2 + 8 <= code.len() {
                    lemma_relocate_len(
                        write_bytes8(code, r.2 as int, be_bytes8(loc_abs as int)),
                        relocs.drop_first(),
                        abs,
                    );
                }
            },
            Option::None => {},
        }
    }
}

/// Relocation leaves every byte outside the patch sites alone.
pub proof fn lemma_relocate_preserves(
    code: Seq<u8>,
    relocs: Seq<(u32, u32, u64)>,
    abs: Seq<(u32, u32, usize)>,
    lo: int,
    hi: int,
)
    requires
        spec_relocate(code, relocs, abs) is Some,
        0 <= lo <= hi <= code.len(),
        forall|k: int| 0 <= k < relocs.len() ==> (#[trigger] relocs[k]).2 + 8 <= lo || relocs[k].2
            >= hi,
    ensures
        spec_relocate(code, relocs, abs) matches Some(out) ==> out.subrange(lo, hi)
            == code.subrange(lo, hi),
    decreases relocs.len(),
{
    if relocs.len() > 0 {
        let r = relocs[0];
        match spec_lookup_abs(abs, r.0, r.1) {
            Option::Some(loc_abs) => {
                let code1 = write_bytes8(code, r.2 as int, be_bytes8(loc_abs as int));
                assert(code1.subrange(lo, hi) =~= code.subrange(lo, hi));
                assert(forall|k: int| 0 <= k < relocs.drop_first().len() ==> (
                #[trigger] relocs.drop_first()[k]) == relocs[k + 1]);
                lemma_relocate_preserves(code1, relocs.drop_first(), abs, lo, hi);
            },
            Option::None => {},
        }
    }
}

/// Relocation correctness: when the patch sites do not overlap, every
/// same-module call site ends up holding exactly the recorded absolute
/// start offset of its (entity, function) pair, in big-endian bytes.
pub proof fn lemma_relocation_correctness(
    code: Seq<u8>,
    relocs: Seq<(u32, u32, u64)>,
    abs: Seq<(u32, u32, usize)>,
    i: int,
)
    requires
        spec_relocate(code, relocs, abs) is Some,
        forall|p: int, q: int| 0 <= p < q < relocs.len() ==> (#[trigger] relocs[p]).2 + 8 <= (
        #[trigger] relocs[q]).2 || relocs[q].2 + 8 <= relocs[p].2,
        0 <= i < relocs.len(),
    ensures
        spec_lookup_abs(abs, relocs[i].0, relocs[i].1) is Some,
        spec_relocate(code, relocs, abs) matches Some(out) ==> out.subrange(
            relocs[i].2 as int,
            relocs[i].2 + 8,
        ) == be_bytes8(spec_lookup_abs(abs, relocs[i].0, relocs[i].1)->Some_0 as int),
    decreases i,
{
    let r = relocs[0];
    let loc_abs = spec_lookup_abs(abs, r.0, r.1)->Some_0;
    let code1 = write_bytes8(code, r.2 as int, be_bytes8(loc_abs as int));
    assert(forall|k: int| 0 <= k < relocs.drop_first().len() ==> (
    #[trigger] relocs.drop_first()[k]) == relocs[k + 1]);
    if i == 0 {
        assert(code1.subrange(r.2 as int, r.2 + 8) =~= be_bytes8(loc_abs as int));
        lemma_relocate_preserves(code1, relocs.drop_first(), abs, r.2 as int, r.2 + 8);
    } else {
        lemma_relocation_correctness(code1, relocs.drop_first(), abs, i - 1);
    }
}

/// Looks up the last recorded absolute location of `(ent, fid)`.
fn lookup_abs(t: &Vec<(u32, u32, usize)>, ent: u32, fid: u32) -> (r: Option<usize>)
    ensures
        r == spec_lookup_abs(t@, ent, fid),
{
    let n = t.len();
    proof {
        assert(t@.subrange(0, n as int) =~= t@);
    }
    let mut i: usize = n;
    while i > 0
        invariant
            0 <= i <= n,
            n == t@.len(),
            spec_lookup_abs(t@, ent, fid) == spec_lookup_abs(t@.subrange(0, i as int), ent, fid),
        decreases i,
    {
        i = i - 1;
        let e = t[i];
        proof {
            assert(t@.subrange(0, i + 1 as int).last() == t@[i as int]);
            assert(t@.subrange(0, i + 1 as int).drop_last() =~= t@.subrange(0, i as int));
        }
        if e.0 == ent && e.1 == fid {
            return Option::Some(e.2);
        }
    }
    proof {
        assert(t@.subrange(0, 0) =~= Seq::<(u32, u32, usize)>::empty());
    }
    Option::None
}

/// The code generator: one instruction stream per function, the header
/// tables, and the relocation list resolved once every function's final
/// offset is known.
pub struct GenCode {
    pub header: Vec<u8>,
    pub code: Vec<u8>,
    pub entities_and_functions: Vec<(String, Vec<(String, u32)>)>,
    pub entity_function_locations: Vec<(u32, u32, usize, usize)>,
    pub entity_data_values: Vec<(u32, Vec<(String, Hvalue)>)>,
    pub entity_inoculation_values: Vec<(u32, Vec<(String, Hvalue)>)>,
    pub entity_function_types: Vec<(String, Vec<(String, CType)>)>,
    pub current_entity_id: u32,
    pub current_func_id: u32,
    pub function_num: Vec<(String, u32)>,
    pub symbol_table: Vec<(String, CType)>,
    pub absolute_entity_function_locations: Vec<(u32, u32, usize)>,
    pub relocations: Vec<(u32, u32, u64)>,
    pub entity_table: Vec<(String, u32)>,
}

impl GenCode {
    /// Every recorded patch site lies within the emitted code, and the
    /// sites are recorded in code order, each one past the previous one's
    /// eight placeholder bytes — so no two patch sites overlap.
    pub open spec fn relocs_wf(self) -> bool {
        &&& forall|k: int| 0 <= k < self.relocations@.len() ==> (
        #[trigger] self.relocations@[k]).2 + 8 <= self.code@.len()
        &&& forall|p: int, q: int| 0 <= p < q < self.relocations@.len() ==> (
        #[trigger] self.relocations@[p]).2 + 8 <= (#[trigger] self.relocations@[q]).2
    }

    pub fn emit_bytes_vec(l: &mut Vec<u8>, bytes: &mut Vec<u8>)
        ensures
            final(l)@ == old(l)@ + old(bytes)@,
    {
        l.append(bytes);
    }

    pub fn emit_bytes_slice(l: &mut Vec<u8>, bytes: &[u8])
        ensures
            final(l)@ == old(l)@ + bytes@,
    {
        let n = bytes.len();
        let mut i: usize = 0;
        while i < n
            invariant
                0 <= i <= n,
                n == bytes@.len(),
                l@ == old(l)@ + bytes@.subrange(0, i as int),
            decreases n - i,
        {
            l.push(bytes[i]);
            proof {
                assert(l@ =~= old(l)@ + bytes@.subrange(0, i + 1 as int));
            }
            i = i + 1;
        }
        proof {
            assert(bytes@.subrange(0, n as int) =~= bytes@);
        }
    }

    pub fn emit_u8(l: &mut Vec<u8>, v: u8)
        ensures
            final(l)@ == old(l)@.push(v),
    {
        l.push(v);
    }

    pub fn emit_u16(l: &mut Vec<u8>, v: u16)
        ensures
            final(l)@ == old(l)@ + crate::opcodes::be_bytes2(v as int),
    {
        l.push((v / 0x100) as u8);
        l.push((v % 0x100) as u8);
        proof {
            assert((v as int / 0x100) % 0x100 == v as int / 0x100) by {
                vstd::arithmetic::div_mod::lemma_multiply_divide_lt(v as int, 0x100, 0x100);
            }
            assert(final(l)@ =~= old(l)@ + crate::opcodes::be_bytes2(v as int));
        }
    }

    pub fn emit_u32(l: &mut Vec<u8>, v: u32)
        ensures
            final(l)@ == old(l)@ + crate::opcodes::be_bytes4(v as int),
    {
        crate::opcodes::emit_be4(l, v);
    }

    pub fn emit_u64(l: &mut Vec<u8>, v: u64)
        ensures
            final(l)@ == old(l)@ + be_bytes8(v as int),
    {
        crate::opcodes::emit_be8(l, v);
    }

    /// Emits a machine-word value as eight big-endian bytes.
    pub fn emit_usize(l: &mut Vec<u8>, v: usize)
        requires
            v <= u64::MAX,
        ensures
            final(l)@ == old(l)@ + be_bytes8(v as int),
    {
        crate::opcodes::emit_be8(l, v as u64);
    }

    /// Appends one encoded instruction to the code stream.
    pub fn emit_op(&mut self, op: &Op)
        requires
            instr_encodable(op@),
            old(self).relocs_wf(),
        ensures
            final(self).code@ == old(self).code@ + spec_encode_instruction(op@),
            final(self).header == old(self).header,
            final(self).relocations == old(self).relocations,
            final(self).symbol_table == old(self).symbol_table,
            final(self).absolute_entity_function_locations == old(
                self,
            ).absolute_entity_function_locations,
            final(self).entity_function_locations == old(self).entity_function_locations,
            final(self).function_num == old(self).function_num,
            final(self).entities_and_functions == old(self).entities_and_functions,
            final(self).entity_table == old(self).entity_table,
            final(self).entity_data_values == old(self).entity_data_values,
            final(self).entity_inoculation_values == old(self).entity_inoculation_values,
            final(self).current_entity_id == old(self).current_entity_id,
            final(self).current_func_id == old(self).current_func_id,
            final(self).relocs_wf(),
    {
        let mut bytes = encode_instruction(op);
        self.code.append(&mut bytes);
    }

    /// Overwrites each recorded call site with the final absolute offset of
    /// its (entity, function) pair; a pair absent from the location table is
    /// a link failure, reported before any bytes are taken as final.
    pub fn relocate_functions(&mut self) -> (r: Result<(), CompileError>)
        requires
            old(self).relocs_wf(),
        ensures
            final(self).relocs_wf(),
            final(self).header == old(self).header,
            final(self).relocations == old(self).relocations,
            final(self).absolute_entity_function_locations == old(
                self,
            ).absolute_entity_function_locations,
            match spec_relocate(
                old(self).code@,
                old(self).relocations@,
                old(self).absolute_entity_function_locations@,
            ) {
                Option::Some(out) => r is Ok && final(self).code@ == out,
                Option::None => (r matches Err(e) && e == CompileError::LinkError),
            },
            r is Ok ==> forall|k: int| 0 <= k < old(self).relocations@.len()
                ==> spec_lookup_abs(
                old(self).absolute_entity_function_locations@,
                (#[trigger] old(self).relocations@[k]).0,
                old(self).relocations@[k].1,
            ) is Some && final(self).code@.subrange(
                old(self).relocations@[k].2 as int,
                old(self).relocations@[k].2 + 8,
            ) == be_bytes8(
                spec_lookup_abs(
                    old(self).absolute_entity_function_locations@,
                    old(self).relocations@[k].0,
                    old(self).relocations@[k].1,
                )->Some_0 as int,
            ),
    {
        let ghost init_code = self.code@;
        let ghost abs = self.absolute_entity_function_locations@;
        let ghost all = self.relocations@;
        let n = self.relocations.len();
        proof {
            assert(all.subrange(0, n as int) =~= all);
        }
        let mut i: usize = 0;
        while i < n
            invariant
                0 <= i <= n,
                n == self.relocations@.len(),
                self.relocations == old(self).relocations,
                self.header == old(self).header,
                self.absolute_entity_function_locations == old(
                    self,
                ).absolute_entity_function_locations,
                abs == self.absolute_entity_function_locations@,
                all == self.relocations@,
                self.relocs_wf(),
                self.code@.len() == init_code.len(),
                init_code == old(self).code@,
                spec_relocate(init_code, all, abs) == spec_relocate(
                    self.code@,
                    all.subrange(i as int, n as int),
                    abs,
                ),
            decreases n - i,
        {
            let ghost pre_code = self.code@;
            let ghost rem = all.subrange(i as int, n as int);
            let (ent, fid, loc) = self.relocations[i];
            let new_loc = match lookup_abs(&self.absolute_entity_function_locations, ent, fid) {
                Option::Some(v) => v,
                Option::None => {
                    proof {
                        assert(rem[0] == (ent, fid, loc));
                    }
                    return Result::Err(CompileError::LinkError);
                },
            };
            proof {
                assert(rem[0] == (ent, fid, loc));
                assert(loc + 8 <= self.code@.len());
            }
            let mut patch: Vec<u8> = Vec::new();
            crate::opcodes::emit_be8(&mut patch, new_loc as u64);
            let cl = self.code.len();
            proof {
                assert(loc + 8 <= cl);
            }
            let base = loc as usize;
            proof {
                assert(base == loc);
            }
            let mut k: usize = 0;
            while k < 8
                invariant
                    0 <= k <= 8,
                    patch@ == be_bytes8(new_loc as int),
                    patch@.len() == 8,
                    cl == self.code@.len(),
                    base + 8 <= cl,
                    self.code@.len() == pre_code.len(),
                    self.relocations == old(self).relocations,
                    self.header == old(self).header,
                    self.absolute_entity_function_locations == old(
                        self,
                    ).absolute_entity_function_locations,
                    forall|j: int| 0 <= j < self.code@.len() ==> #[trigger] self.code@[j] == (
                    if base <= j < base + k { patch@[j - base] } else { pre_code[j] }),
                decreases 8 - k,
            {
                self.code[base + k] = patch[k];
                k = k + 1;
            }
            proof {
                assert(self.code@ =~= write_bytes8(pre_code, loc as int, be_bytes8(new_loc as int)));
                assert(rem.drop_first() =~= all.subrange(i + 1, n as int));
            }
            i = i + 1;
        }
        proof {
            assert(all.subrange(n as int, n as int) =~= Seq::<(u32, u32, u64)>::empty());
            assert forall|k: int| 0 <= k < all.len() implies spec_lookup_abs(
                abs,
                (#[trigger] all[k]).0,
                all[k].1,
            ) is Some && self.code@.subrange(all[k].2 as int, all[k].2 + 8) == be_bytes8(
                spec_lookup_abs(abs, all[k].0, all[k].1)->Some_0 as int,
            ) by {
                lemma_relocation_correctness(init_code, all, abs, k);
            }
        }
        Result::Ok(())
    }
}

/// The type a definition's right-hand side contributes to the symbol
/// table: a construction site contributes the constructed entity type,
/// anything else no type.
pub open spec fn derived_shape(e: AstNode, t: CType) -> bool {
    match e {
        AstNode::FunctionCall(fc) => fc.call_type is NewEntity && (t matches CType::Loc(p)
            && p matches PType::Entity(en) && en@ == fc.identifier.original_sym@),
        _ => t is Void,
    }
}

/// The function index an asynchronous send dispatches to: the callee
/// symbol's recorded entity type, then that entity's index table.
pub open spec fn spec_message_fid(
    symtab: Seq<(String, CType)>,
    eaf: Seq<(String, Vec<(String, u32)>)>,
    idname: Seq<char>,
    fname: Seq<char>,
) -> Option<u32> {
    match spec_lookup_entity(symtab, idname) {
        Option::Some(e) => spec_lookup_fid(eaf, e@, fname),
        Option::None => Option::None,
    }
}

/// What a successful store through an identifier guarantees: the code ends
/// with the store the resolved scope calls for, and a definition records
/// its symbol with the type its right-hand side contributes.
pub open spec fn lowered_store(
    sym: Identifier,
    e: AstNode,
    is_def: bool,
    pre: GenCode,
    post: GenCode,
) -> bool {
    &&& (sym.target is LocalVar || sym.target is EntityVar)
    &&& ends_with(post.code@, idstore_enc(sym))
    &&& post.code@.len() > pre.code@.len()
    &&& (is_def ==> post.symbol_table@.len() > pre.symbol_table@.len()
        && post.symbol_table@.last().0 == sym.original_sym && derived_shape(
        e,
        post.symbol_table@.last().1,
    ))
}

/// What a successful lowering of one node guarantees, by node kind: the
/// exact bytes for the single-instruction forms, the trailing opcode and
/// operand loads for the composite ones, and the relocation a same-module
/// call records.
pub open spec fn lowered_node(node: AstNode, pre: GenCode, post: GenCode) -> bool {
    match node {
        AstNode::ValueNode(v) => post.code@ == pre.code@ + spec_encode_instruction(OpV::Push(v@))
            && post.relocations == pre.relocations && post.symbol_table == pre.symbol_table,
        AstNode::Identifier(sym) => post.code@ == pre.code@ + idload_enc(sym)
            && post.relocations == pre.relocations && post.symbol_table == pre.symbol_table,
        AstNode::Print(_) => post.code == pre.code && post.relocations == pre.relocations
            && post.symbol_table == pre.symbol_table,
        AstNode::OperatorNode(_, op, _) => post.code@.len() > pre.code@.len() && ends_with(
            post.code@,
            spec_encode_instruction(
                match op {
                    BinOp::Add => OpV::Add,
                    BinOp::Sub => OpV::Sub,
                    BinOp::Mul => OpV::Mul,
                    BinOp::Div => OpV::Div,
                },
            ),
        ),
        AstNode::Return(_) => post.code@.len() > pre.code@.len() && ends_with(
            post.code@,
            spec_encode_instruction(OpV::Ret),
        ),
        AstNode::Await(_) => post.code@.len() > pre.code@.len() && ends_with(
            post.code@,
            spec_encode_instruction(OpV::Await),
        ),
        AstNode::DefinitionNode(sym, e) => lowered_store(sym, *e, true, pre, post),
        AstNode::AssignmentNode(sym, e) => lowered_store(sym, *e, false, pre, post),
        AstNode::Message(id, fname, args) => ({
            let fid = spec_message_fid(
                post.symbol_table@,
                post.entities_and_functions@,
                id.original_sym@,
                fname@,
            );
            &&& args@.len() <= 255
            &&& fid is Some
            &&& ends_with(
                post.code@,
                spec_encode_instruction(OpV::Message(fid->Some_0 as u64, args@.len() as u8)),
            )
            &&& post.code@.subrange(
                pre.code@.len() as int,
                (pre.code@.len() + idload_enc(id).len()) as int,
            ) == idload_enc(id)
        }),
        AstNode::FunctionCall(fc) => if fc.call_type is NewEntity {
            let eid = spec_lookup_name(pre.entity_table@, fc.identifier.original_sym@);
            &&& fc.arguments@.len() <= 255
            &&& eid is Some
            &&& ends_with(
                post.code@,
                spec_encode_instruction(
                    OpV::ConstructEntity(eid->Some_0, fc.arguments@.len() as u8),
                ),
            )
            &&& forall|k: int|
                pre.relocations@.len() <= k < post.relocations@.len() ==> (
                #[trigger] post.relocations@[k]).2 + 8 <= post.code@.len() - 6
        } else {
            let fnum = spec_lookup_name(pre.function_num@, fc.func_name@);
            &&& fc.arguments@.len() <= 255
            &&& fnum is Some
            &&& post.relocations@.len() > pre.relocations@.len()
            &&& post.relocations@.last() == (
            pre.current_entity_id,
            fnum->Some_0,
            (post.code@.len() - 9) as u64,
            )
            &&& ends_with(
                post.code@,
                spec_encode_instruction(OpV::Call(0, fc.arguments@.len() as u8)),
            )
            &&& post.code@.len() >= pre.code@.len() + idload_enc(fc.identifier).len() + 10
            &&& post.code@.subrange(
                post.code@.len() - 10 - idload_enc(fc.identifier).len(),
                post.code@.len() - 10,
            ) == idload_enc(fc.identifier)
        },
        _ => false,
    }
}

impl GenCode {
    /// What an identifier lowers to when read: a local load for a resolved
    /// local, an entity load otherwise.
    pub fn visit_identifier(&mut self, symbol: &Identifier)
        requires
            old(self).relocs_wf(),
            str_operand_ok(symbol.original_sym@),
        ensures
            final(self).relocs_wf(),
            gen_frame(*old(self), *final(self)),
            final(self).relocations == old(self).relocations,
            final(self).symbol_table == old(self).symbol_table,
            final(self).code@ == old(self).code@ + idload_enc(*symbol),
    {
        if let IdentifierTarget::LocalVar = symbol.target {
            self.emit_op(&Op::Lload(symbol.original_sym.clone()));
        } else {
            self.emit_op(&Op::Eload(symbol.original_sym.clone()));
        }
        proof {
            assert(self.code@.subrange(0, old(self).code@.len() as int) =~= old(self).code@);
            assert(self.relocations@.subrange(0, old(self).relocations@.len() as int) =~= old(
                self,
            ).relocations@);
            assert(self.symbol_table@.subrange(0, old(self).symbol_table@.len() as int) =~= old(
                self,
            ).symbol_table@);
        }
    }

    /// Lowers one statement or expression to stack code: operands push, an
    /// operator combines the two topmost values, assignments store into the
    /// resolved scope, a message send or call consumes its arguments, a
    /// same-module call records a relocation at the eight placeholder bytes
    /// after the Call opcode, and a construction site emits the construction
    /// opcode with the callee's entity id.
    pub fn visit_node(&mut self, node: &AstNode) -> (r: Result<(), CompileError>)
        requires
            old(self).relocs_wf(),
        ensures
            final(self).relocs_wf(),
            gen_frame(*old(self), *final(self)),
            r is Ok ==> lowered_node(*node, *old(self), *final(self)),
            node matches AstNode::ValueNode(v) ==> (r is Ok <==> value_encodable(v@)),
            node matches AstNode::Identifier(sym) ==> (r is Ok <==> str_operand_ok(
                sym.original_sym@,
            )),
            node matches AstNode::Print(e) ==> r is Ok,
        decreases node, 0int,
    {
        self.visit_node_inner(node)
    }

    /// The working body of `visit_node`; callers hold the relocation sites
    /// within the emitted code.
    #[verifier::loop_isolation(false)]
    #[verifier::rlimit(100)]
    #[verifier::spinoff_prover]
    fn visit_node_inner(&mut self, node: &AstNode) -> (r: Result<(), CompileError>)
        requires
            old(self).relocs_wf(),
        ensures
            final(self).relocs_wf(),
            gen_frame(*old(self), *final(self)),
            r is Ok ==> lowered_node(*node, *old(self), *final(self)),
            node matches AstNode::ValueNode(v) ==> (r is Ok <==> value_encodable(v@)),
            node matches AstNode::Identifier(sym) ==> (r is Ok <==> str_operand_ok(
                sym.original_sym@,
            )),
            node matches AstNode::Print(e) ==> r is Ok,
        decreases node, 1int,
    {
        match node {
            AstNode::ValueNode(v) => {
                if !crate::opcodes::value_encodable_exec(v) {
                    proof {
                        lemma_gen_frame_refl(*self);
                    }
                    return Result::Err(CompileError::FrontEndError);
                }
                self.emit_op(&Op::Push(v.duplicate()));
                proof {
                    assert(self.code@.subrange(0, old(self).code@.len() as int) =~= old(self).code@);
                    assert(self.relocations@.subrange(0, old(self).relocations@.len() as int) =~= old(self).relocations@);
                    assert(self.symbol_table@.subrange(0, old(self).symbol_table@.len() as int) =~= old(self).symbol_table@);
                    lemma_gen_frame_append(*old(self), *self);
                }
                Result::Ok(())
            },
            AstNode::Identifier(sym) => {
                if !crate::opcodes::str_ok_exec(&sym.original_sym) {
                    proof {
                        lemma_gen_frame_refl(*self);
                    }
                    return Result::Err(CompileError::FrontEndError);
                }
                self.visit_identifier(sym);
                Result::Ok(())
            },
            AstNode::OperatorNode(a, op, b) => {
                match self.visit_node_rec(a) {
                    Result::Ok(()) => (),
                    Result::Err(e) => {
                        return Result::Err(e);
                    },
                }
                let ghost mid1 = *self;
                match self.visit_node_rec(b) {
                    Result::Ok(()) => (),
                    Result::Err(e) => {
                        proof {
                            lemma_gen_frame_trans(*old(self), mid1, *self);
                        }
                        return Result::Err(e);
                    },
                }
                let ghost mid2 = *self;
                match op {
                    BinOp::Add => self.emit_op(&Op::Add),
                    BinOp::Sub => self.emit_op(&Op::Sub),
                    BinOp::Mul => self.emit_op(&Op::Mul),
                    BinOp::Div => self.emit_op(&Op::Div),
                }
                proof {
                    assert(self.code@.subrange(0, mid2.code@.len() as int) =~= mid2.code@);
                    assert(self.relocations@.subrange(0, mid2.relocations@.len() as int) =~= mid2.relocations@);
                    assert(self.symbol_table@.subrange(0, mid2.symbol_table@.len() as int) =~= mid2.symbol_table@);
                    lemma_gen_frame_append(mid2, *self);
                    lemma_gen_frame_trans(*old(self), mid1, mid2);
                    lemma_gen_frame_trans(*old(self), mid2, *self);
                    let enc = spec_encode_instruction(
                        match op {
                            BinOp::Add => OpV::Add,
                            BinOp::Sub => OpV::Sub,
                            BinOp::Mul => OpV::Mul,
                            BinOp::Div => OpV::Div,
                        },
                    );
                    assert(self.code@.subrange(
                        self.code@.len() - enc.len(),
                        self.code@.len() as int,
                    ) =~= enc);
                }
                Result::Ok(())
            },
            AstNode::Return(e) => {
                match self.visit_node_rec(e) {
                    Result::Ok(()) => (),
                    Result::Err(e2) => {
                        return Result::Err(e2);
                    },
                }
                let ghost mid = *self;
                self.emit_op(&Op::Ret);
                proof {
                    assert(self.code@.subrange(0, mid.code@.len() as int) =~= mid.code@);
                    assert(self.relocations@.subrange(0, mid.relocations@.len() as int) =~= mid.relocations@);
                    assert(self.symbol_table@.subrange(0, mid.symbol_table@.len() as int) =~= mid.symbol_table@);
                    lemma_gen_frame_append(mid, *self);
                    lemma_gen_frame_trans(*old(self), mid, *self);
                    let enc = spec_encode_instruction(OpV::Ret);
                    assert(self.code@.subrange(
                        self.code@.len() - enc.len(),
                        self.code@.len() as int,
                    ) =~= enc);
                }
                Result::Ok(())
            },
            AstNode::Await(e) => {
                match self.visit_node_rec(e) {
                    Result::Ok(()) => (),
                    Result::Err(e2) => {
                        return Result::Err(e2);
                    },
                }
                let ghost mid = *self;
                self.emit_op(&Op::Await);
                proof {
                    assert(self.code@.subrange(0, mid.code@.len() as int) =~= mid.code@);
                    assert(self.relocations@.subrange(0, mid.relocations@.len() as int) =~= mid.relocations@);
                    assert(self.symbol_table@.subrange(0, mid.symbol_table@.len() as int) =~= mid.symbol_table@);
                    lemma_gen_frame_append(mid, *self);
                    lemma_gen_frame_trans(*old(self), mid, *self);
                    let enc = spec_encode_instruction(OpV::Await);
                    assert(self.code@.subrange(
                        self.code@.len() - enc.len(),
                        self.code@.len() as int,
                    ) =~= enc);
                }
                Result::Ok(())
            },
            AstNode::Print(_) => {
                proof {
                    lemma_gen_frame_refl(*self);
                }
                Result::Ok(())
            },
            AstNode::DefinitionNode(sym, e) => self.visit_store(sym, e, true),
            AstNode::AssignmentNode(sym, e) => self.visit_store(sym, e, false),
            AstNode::Message(id, fname, args) => self.visit_message(id, fname, args),
            AstNode::FunctionCall(fc) => self.visit_function_call(fc),
            _ => {
                proof {
                    lemma_gen_frame_refl(*self);
                }
                Result::Err(CompileError::FrontEndError)
            },
        }
    }

    /// Lowers an asynchronous send: the target identifier, then the
    /// arguments, then the message opcode carrying the callee's function
    /// index and the argument count.
    #[verifier::loop_isolation(false)]
    #[verifier::rlimit(100)]
    #[verifier::spinoff_prover]
    pub fn visit_message(&mut self, id: &Identifier, fname: &String, args: &Vec<AstNode>) -> (r:
        Result<(), CompileError>)
        requires
            old(self).relocs_wf(),
        ensures
            final(self).relocs_wf(),
            gen_frame(*old(self), *final(self)),
            r is Ok ==> ({
                let fid = spec_message_fid(
                    final(self).symbol_table@,
                    final(self).entities_and_functions@,
                    id.original_sym@,
                    fname@,
                );
                &&& args@.len() <= 255
                &&& fid is Some
                &&& ends_with(
                    final(self).code@,
                    spec_encode_instruction(OpV::Message(fid->Some_0 as u64, args@.len() as u8)),
                )
                &&& final(self).code@.subrange(
                    old(self).code@.len() as int,
                    (old(self).code@.len() + idload_enc(*id).len()) as int,
                ) == idload_enc(*id)
            }),
        decreases args, 0int,
    {
        if !crate::opcodes::str_ok_exec(&id.original_sym) {
            proof {
                lemma_gen_frame_refl(*self);
            }
            return Result::Err(CompileError::FrontEndError);
        }
        self.visit_identifier(id);
        let ghost with_id = *self;
        proof {
            lemma_gen_frame_refl(*self);
        }
        let n = args.len();
        let mut i: usize = 0;
        while i < n
            invariant
                0 <= i <= n,
                self.relocs_wf(),
                gen_frame(with_id, *self),
                gen_frame(*old(self), *self),
            decreases n - i,
        {
            let ghost mid = *self;
            match self.visit_node_rec(&args[i]) {
                Result::Ok(()) => (),
                Result::Err(e) => {
                    proof {
                        lemma_gen_frame_trans(*old(self), mid, *self);
                    }
                    return Result::Err(e);
                },
            }
            proof {
                lemma_gen_frame_trans(with_id, mid, *self);
                lemma_gen_frame_trans(*old(self), mid, *self);
            }
            i = i + 1;
        }
        let ename = match lookup_ctype_entity(&self.symbol_table, &id.original_sym) {
            Option::Some(e) => e,
            Option::None => {
                return Result::Err(CompileError::FrontEndError);
            },
        };
        let fid = match lookup_fid(&self.entities_and_functions, &ename, fname) {
            Option::Some(f) => f,
            Option::None => {
                return Result::Err(CompileError::FrontEndError);
            },
        };
        if n > 255 {
            return Result::Err(CompileError::FrontEndError);
        }
        let ghost mid = *self;
        self.emit_op(&Op::Message(fid as u64, n as u8));
        proof {
            assert(self.code@.subrange(0, mid.code@.len() as int) =~= mid.code@);
                    assert(self.relocations@.subrange(0, mid.relocations@.len() as int) =~= mid.relocations@);
                    assert(self.symbol_table@.subrange(0, mid.symbol_table@.len() as int) =~= mid.symbol_table@);
                    lemma_gen_frame_append(mid, *self);
            lemma_gen_frame_trans(*old(self), mid, *self);
            let enc = spec_encode_instruction(OpV::Message(fid as u64, n as u8));
            assert(self.code@.subrange(
                self.code@.len() - enc.len(),
                self.code@.len() as int,
            ) =~= enc);
            assert(self.code@.subrange(0, with_id.code@.len() as int) == with_id.code@);
            assert(self.code@.subrange(
                old(self).code@.len() as int,
                (old(self).code@.len() + idload_enc(*id).len()) as int,
            ) =~= idload_enc(*id));
        }
        Result::Ok(())
    }

    /// Lowers a call. An ordinary call emits its arguments and the callee
    /// identifier load, records a relocation at the eight placeholder bytes
    /// after the Call opcode, and emits the call with a placeholder target.
    /// A construction site emits its arguments and then the construction
    /// opcode carrying the callee's entity id and the argument count; the
    /// construction opcode itself carries no placeholder, so no recorded
    /// relocation reaches into it.
    #[verifier::loop_isolation(false)]
    #[verifier::rlimit(100)]
    #[verifier::spinoff_prover]
    pub fn visit_function_call(&mut self, fc: &FunctionCall) -> (r: Result<(), CompileError>)
        requires
            old(self).relocs_wf(),
        ensures
            final(self).relocs_wf(),
            gen_frame(*old(self), *final(self)),
            r is Ok && fc.call_type is NewEntity ==> ({
                let eid = spec_lookup_name(
                    old(self).entity_table@,
                    fc.identifier.original_sym@,
                );
                &&& fc.arguments@.len() <= 255
                &&& eid is Some
                &&& ends_with(
                    final(self).code@,
                    spec_encode_instruction(
                        OpV::ConstructEntity(eid->Some_0, fc.arguments@.len() as u8),
                    ),
                )
                &&& forall|k: int|
                    old(self).relocations@.len() <= k < final(self).relocations@.len() ==> (
                    #[trigger] final(self).relocations@[k]).2 + 8 <= final(self).code@.len() - 6
            }),
            r is Ok && !(fc.call_type is NewEntity) ==> ({
                let fnum = spec_lookup_name(old(self).function_num@, fc.func_name@);
                &&& fc.arguments@.len() <= 255
                &&& fnum is Some
                &&& final(self).relocations@.len() > old(self).relocations@.len()
                &&& final(self).relocations@.last() == (
                old(self).current_entity_id,
                fnum->Some_0,
                (final(self).code@.len() - 9) as u64,
                )
                &&& ends_with(
                    final(self).code@,
                    spec_encode_instruction(OpV::Call(0, fc.arguments@.len() as u8)),
                )
                &&& final(self).code@.len() >= old(self).code@.len() + idload_enc(
                    fc.identifier,
                ).len() + 10
                &&& final(self).code@.subrange(
                    final(self).code@.len() - 10 - idload_enc(fc.identifier).len(),
                    final(self).code@.len() - 10,
                ) == idload_enc(fc.identifier)
            }),
        decreases fc, 0int,
    {
        proof {
            lemma_gen_frame_refl(*self);
        }
        let n = fc.arguments.len();
        let mut i: usize = 0;
        while i < n
            invariant
                0 <= i <= n,
                self.relocs_wf(),
                gen_frame(*old(self), *self),
            decreases n - i,
        {
            let ghost mid = *self;
            match self.visit_node_rec(&fc.arguments[i]) {
                Result::Ok(()) => (),
                Result::Err(e) => {
                    proof {
                        lemma_gen_frame_trans(*old(self), mid, *self);
                    }
                    return Result::Err(e);
                },
            }
            proof {
                lemma_gen_frame_trans(*old(self), mid, *self);
            }
            i = i + 1;
        }
        if n > 255 {
            return Result::Err(CompileError::FrontEndError);
        }
        match fc.call_type {
            CallType::NewEntity => {
                let eid = match lookup_u32(&self.entity_table, &fc.identifier.original_sym) {
                    Option::Some(e) => e,
                    Option::None => {
                        return Result::Err(CompileError::FrontEndError);
                    },
                };
                let ghost mid = *self;
                self.emit_op(&Op::ConstructEntity(eid, n as u8));
                proof {
                    assert(self.code@.subrange(0, mid.code@.len() as int) =~= mid.code@);
                    assert(self.relocations@.subrange(0, mid.relocations@.len() as int)
                        =~= mid.relocations@);
                    assert(self.symbol_table@.subrange(0, mid.symbol_table@.len() as int)
                        =~= mid.symbol_table@);
                    lemma_gen_frame_append(mid, *self);
                    lemma_gen_frame_trans(*old(self), mid, *self);
                    let enc = spec_encode_instruction(
                        OpV::ConstructEntity(eid, n as u8),
                    );
                    assert(enc.len() == 6);
                    assert(self.code@.subrange(
                        self.code@.len() - 6,
                        self.code@.len() as int,
                    ) =~= enc);
                    assert forall|k: int|
                        old(self).relocations@.len() <= k
                            < self.relocations@.len() implies (
                    #[trigger] self.relocations@[k]).2 + 8 <= self.code@.len() - 6 by {
                        assert(self.relocations@[k] == mid.relocations@[k]);
                    }
                }
                return Result::Ok(());
            },
            CallType::Ordinary => {},
        }
        if !crate::opcodes::str_ok_exec(&fc.identifier.original_sym) {
            return Result::Err(CompileError::FrontEndError);
        }
        let ghost pre_id = *self;
        self.visit_identifier(&fc.identifier);
        let ghost with_id = *self;
        proof {
            lemma_gen_frame_trans(*old(self), pre_id, *self);
        }
        let fnum = match lookup_u32(&self.function_num, &fc.func_name) {
            Option::Some(f) => f,
            Option::None => {
                return Result::Err(CompileError::FrontEndError);
            },
        };
        let cl = self.code.len();
        if cl as u64 > u64::MAX - 1 {
            return Result::Err(CompileError::FrontEndError);
        }
        let patch: u64 = cl as u64 + 1;
        let ghost mid = *self;
        self.emit_op(&Op::Call(0, n as u8));
        self.relocations.push((self.current_entity_id, fnum, patch));
        proof {
            assert(self.code@.subrange(0, mid.code@.len() as int) =~= mid.code@);
                    assert(self.relocations@.subrange(0, mid.relocations@.len() as int) =~= mid.relocations@);
                    assert(self.symbol_table@.subrange(0, mid.symbol_table@.len() as int) =~= mid.symbol_table@);
                    lemma_gen_frame_append(mid, *self);
            assert(self.relocations@.subrange(0, mid.relocations@.len() as int) =~= mid.relocations@);
            lemma_gen_frame_trans(*old(self), mid, *self);
            let enc = spec_encode_instruction(OpV::Call(0, n as u8));
            assert(enc.len() == 10);
            assert(self.code@.subrange(
                self.code@.len() - 10,
                self.code@.len() as int,
            ) =~= enc);
            assert(self.code@ == mid.code@ + enc);
            assert(with_id.code@ == pre_id.code@ + idload_enc(fc.identifier));
            assert(mid.code@ == with_id.code@);
            assert(self.code@.subrange(
                self.code@.len() - 10 - idload_enc(fc.identifier).len(),
                self.code@.len() - 10,
            ) =~= idload_enc(fc.identifier));
        }
        Result::Ok(())
    }

    /// Recursion helper with the same contract as `visit_node_inner`.
    fn visit_node_rec(&mut self, node: &AstNode) -> (r: Result<(), CompileError>)
        requires
            old(self).relocs_wf(),
        ensures
            final(self).relocs_wf(),
            gen_frame(*old(self), *final(self)),
            r is Ok ==> lowered_node(*node, *old(self), *final(self)),
        decreases node, 2int,
    {
        self.visit_node_inner(node)
    }

    /// Lowers a store into the scope an identifier resolved to; an
    /// unresolved target, or a definition whose right-hand call is not a
    /// construction, is a front-end defect and aborts compilation.
    #[verifier::rlimit(100)]
    #[verifier::spinoff_prover]
    fn visit_store(&mut self, sym: &Identifier, e: &AstNode, is_definition: bool) -> (r: Result<
        (),
        CompileError,
    >)
        requires
            old(self).relocs_wf(),
        ensures
            final(self).relocs_wf(),
            gen_frame(*old(self), *final(self)),
            r is Ok ==> lowered_store(*sym, *e, is_definition, *old(self), *final(self)),
        decreases e, 2int,
    {
        match self.visit_node_inner(e) {
            Result::Ok(()) => (),
            Result::Err(e2) => {
                return Result::Err(e2);
            },
        }
        let ghost with_expr = *self;
        if is_definition {
            match e {
                AstNode::FunctionCall(fc2) => {
                    match fc2.call_type {
                        CallType::Ordinary => {
                            return Result::Err(CompileError::FrontEndError);
                        },
                        CallType::NewEntity => {},
                    }
                },
                _ => {},
            }
            self.symbol_table.push((sym.original_sym.clone(), derive_type(e)));
            proof {
                assert(self.symbol_table@.subrange(0, with_expr.symbol_table@.len() as int)
                    =~= with_expr.symbol_table@);
                assert(self.code@.subrange(0, with_expr.code@.len() as int) =~= with_expr.code@);
                assert(self.relocations@.subrange(0, with_expr.relocations@.len() as int)
                    =~= with_expr.relocations@);
                lemma_gen_frame_trans(*old(self), with_expr, *self);
            }
        }
        if !crate::opcodes::str_ok_exec(&sym.original_sym) {
            return Result::Err(CompileError::FrontEndError);
        }
        let ghost mid = *self;
        match sym.target {
            IdentifierTarget::LocalVar => {
                self.emit_op(&Op::Lstore(sym.original_sym.clone()));
            },
            IdentifierTarget::EntityVar => {
                self.emit_op(&Op::Estore(sym.original_sym.clone()));
            },
            _ => {
                return Result::Err(CompileError::FrontEndError);
            },
        }
        proof {
            assert(self.code@.subrange(0, mid.code@.len() as int) =~= mid.code@);
                    assert(self.relocations@.subrange(0, mid.relocations@.len() as int) =~= mid.relocations@);
                    assert(self.symbol_table@.subrange(0, mid.symbol_table@.len() as int) =~= mid.symbol_table@);
                    lemma_gen_frame_append(mid, *self);
            lemma_gen_frame_trans(*old(self), mid, *self);
            let enc = idstore_enc(*sym);
            assert(self.code@.subrange(
                self.code@.len() - enc.len(),
                self.code@.len() as int,
            ) =~= enc);
        }
        Result::Ok(())
    }
}

/// A step that only appended code preserves the frame.
proof fn lemma_gen_frame_append(pre: GenCode, post: GenCode)
    requires
        post.code@.len() >= pre.code@.len(),
        post.code@.subrange(0, pre.code@.len() as int) == pre.code@,
        post.header == pre.header,
        post.relocations@.len() >= pre.relocations@.len(),
        post.relocations@.subrange(0, pre.relocations@.len() as int) == pre.relocations@,
        post.symbol_table@.len() >= pre.symbol_table@.len(),
        post.symbol_table@.subrange(0, pre.symbol_table@.len() as int) == pre.symbol_table@,
        post.absolute_entity_function_locations == pre.absolute_entity_function_locations,
        post.entity_function_locations == pre.entity_function_locations,
        post.function_num == pre.function_num,
        post.entities_and_functions == pre.entities_and_functions,
        post.entity_table == pre.entity_table,
        post.entity_data_values == pre.entity_data_values,
        post.entity_inoculation_values == pre.entity_inoculation_values,
        post.current_entity_id == pre.current_entity_id,
        post.current_func_id == pre.current_func_id,
    ensures
        gen_frame(pre, post),
{
}

/// The frame relation is reflexive.
proof fn lemma_gen_frame_refl(a: GenCode)
    ensures
        gen_frame(a, a),
{
    assert(a.code@.subrange(0, a.code@.len() as int) =~= a.code@);
    assert(a.relocations@.subrange(0, a.relocations@.len() as int) =~= a.relocations@);
    assert(a.symbol_table@.subrange(0, a.symbol_table@.len() as int) =~= a.symbol_table@);
}

impl GenCode {
    /// Lowers one function: stores for the parameters (all arguments stand
    /// on the operand stack at entry), then the body, and records the
    /// function's start offset and byte length under the current entity and
    /// function indices; the function index then advances.
    #[verifier::rlimit(100)]
    #[verifier::spinoff_prover]
    pub fn visit_function(
        &mut self,
        parameters: &Vec<(String, CType)>,
        body: &Vec<AstNode>,
    ) -> (r: Result<(), CompileError>)
        requires
            old(self).relocs_wf(),
        ensures
            final(self).relocs_wf(),
            final(self).header == old(self).header,
            final(self).code@.len() >= old(self).code@.len(),
            final(self).code@.subrange(0, old(self).code@.len() as int) == old(self).code@,
            final(self).relocations@.len() >= old(self).relocations@.len(),
            final(self).relocations@.subrange(0, old(self).relocations@.len() as int) == old(
                self,
            ).relocations@,
            final(self).symbol_table@.len() >= old(self).symbol_table@.len(),
            final(self).symbol_table@.subrange(0, old(self).symbol_table@.len() as int) == old(
                self,
            ).symbol_table@,
            final(self).entity_data_values == old(self).entity_data_values,
            final(self).entity_inoculation_values == old(self).entity_inoculation_values,
            final(self).function_num == old(self).function_num,
            final(self).entities_and_functions == old(self).entities_and_functions,
            final(self).entity_table == old(self).entity_table,
            final(self).absolute_entity_function_locations == old(
                self,
            ).absolute_entity_function_locations,
            final(self).current_entity_id == old(self).current_entity_id,
            r is Ok ==> ({
                &&& final(self).entity_function_locations@ == old(
                    self,
                ).entity_function_locations@.push(
                    (
                        old(self).current_entity_id,
                        old(self).current_func_id,
                        old(self).code@.len() as usize,
                        (final(self).code@.len() - old(self).code@.len()) as usize,
                    ),
                )
                &&& final(self).current_func_id == (if old(self).current_func_id < u32::MAX {
                    (old(self).current_func_id + 1) as u32
                } else {
                    old(self).current_func_id
                })
                &&& final(self).code@.len() >= old(self).code@.len() + param_stores(
                    parameters@,
                ).len()
                &&& final(self).code@.subrange(
                    old(self).code@.len() as int,
                    (old(self).code@.len() + param_stores(parameters@).len()) as int,
                ) == param_stores(parameters@)
            }),
            !(r is Ok) ==> final(self).entity_function_locations == old(
                self,
            ).entity_function_locations && final(self).current_func_id == old(
                self,
            ).current_func_id,
    {
        let fun_start = self.code.len();
        let np = parameters.len();
        let mut i: usize = 0;
        proof {
            assert(parameters@.subrange(0, 0) =~= Seq::<(String, CType)>::empty());
        }
        while i < np
            invariant
                0 <= i <= np,
                np == parameters@.len(),
                self.relocs_wf(),
                self.header == old(self).header,
                self.relocations == old(self).relocations,
                self.symbol_table == old(self).symbol_table,
                self.entity_data_values == old(self).entity_data_values,
                self.entity_inoculation_values == old(self).entity_inoculation_values,
                self.function_num == old(self).function_num,
                self.entities_and_functions == old(self).entities_and_functions,
                self.entity_table == old(self).entity_table,
                self.absolute_entity_function_locations == old(
                    self,
                ).absolute_entity_function_locations,
                self.entity_function_locations == old(self).entity_function_locations,
                self.current_entity_id == old(self).current_entity_id,
                self.current_func_id == old(self).current_func_id,
                self.code@ == old(self).code@ + param_stores(parameters@.subrange(0, i as int)),
            decreases np - i,
        {
            if !crate::opcodes::str_ok_exec(&parameters[i].0) {
                proof {
                    assert(self.code@.subrange(0, old(self).code@.len() as int) =~= old(
                        self,
                    ).code@);
                    assert(self.relocations@.subrange(
                        0,
                        old(self).relocations@.len() as int,
                    ) =~= old(self).relocations@);
                    assert(self.symbol_table@.subrange(
                        0,
                        old(self).symbol_table@.len() as int,
                    ) =~= old(self).symbol_table@);
                }
                return Result::Err(CompileError::FrontEndError);
            }
            self.emit_op(&Op::Lstore(parameters[i].0.clone()));
            proof {
                lemma_param_stores_snoc(parameters@, i as int);
            }
            i = i + 1;
        }
        proof {
            assert(parameters@.subrange(0, np as int) =~= parameters@);
        }
        let ghost ap = *self;
        proof {
            lemma_gen_frame_refl(*self);
        }
        let nb = body.len();
        let mut j: usize = 0;
        while j < nb
            invariant
                0 <= j <= nb,
                nb == body@.len(),
                self.relocs_wf(),
                gen_frame(ap, *self),
                ap.code@ == old(self).code@ + param_stores(parameters@),
                ap.header == old(self).header,
                ap.relocations == old(self).relocations,
                ap.entity_data_values == old(self).entity_data_values,
                ap.entity_inoculation_values == old(self).entity_inoculation_values,
                ap.function_num == old(self).function_num,
                ap.entities_and_functions == old(self).entities_and_functions,
                ap.entity_table == old(self).entity_table,
                ap.absolute_entity_function_locations == old(
                    self,
                ).absolute_entity_function_locations,
                ap.entity_function_locations == old(self).entity_function_locations,
                ap.current_entity_id == old(self).current_entity_id,
                ap.current_func_id == old(self).current_func_id,
                ap.symbol_table == old(self).symbol_table,
            decreases nb - j,
        {
            let ghost mid = *self;
            match self.visit_node_rec(&body[j]) {
                Result::Ok(()) => (),
                Result::Err(e) => {
                    proof {
                        lemma_gen_frame_trans(ap, mid, *self);
                        assert(self.code@.subrange(0, old(self).code@.len() as int) =~= old(
                            self,
                        ).code@);
                        assert(self.relocations@.subrange(
                            0,
                            old(self).relocations@.len() as int,
                        ) =~= old(self).relocations@);
                        assert(self.symbol_table@.subrange(
                            0,
                            ap.symbol_table@.len() as int,
                        ) == ap.symbol_table@);
                        assert(self.symbol_table@.subrange(
                            0,
                            old(self).symbol_table@.len() as int,
                        ) =~= old(self).symbol_table@);
                    }
                    return Result::Err(e);
                },
            }
            proof {
                lemma_gen_frame_trans(ap, mid, *self);
            }
            j = j + 1;
        }
        proof {
            let ghost ps = param_stores(parameters@);
            assert(self.code@.subrange(0, ap.code@.len() as int) == ap.code@);
            assert(self.code@.subrange(0, old(self).code@.len() as int) =~= old(self).code@);
            assert(self.relocations@.subrange(0, old(self).relocations@.len() as int) =~= old(
                self,
            ).relocations@);
            assert(self.symbol_table@.subrange(0, old(self).symbol_table@.len() as int) =~= old(
                self,
            ).symbol_table@);
            assert forall|j: int| 0 <= j < ps.len() implies self.code@[old(self).code@.len() + j]
                == ps[j] by {
                assert(self.code@.subrange(0, ap.code@.len() as int)[old(self).code@.len() + j]
                    == ap.code@[old(self).code@.len() + j]);
            }
            assert(self.code@.subrange(
                old(self).code@.len() as int,
                (old(self).code@.len() + ps.len()) as int,
            ) =~= ps);
        }
        let fun_size = self.code.len() - fun_start;
        self.entity_function_locations.push(
            (self.current_entity_id, self.current_func_id, fun_start, fun_size),
        );
        if self.current_func_id < u32::MAX {
            self.current_func_id = self.current_func_id + 1;
        }
        Result::Ok(())
    }

    /// Lowers one entity definition: seeds the symbol table with "self" and
    /// the data fields, records this entity's data and inoculation defaults,
    /// assigns the function numbers in index order — "create" first, the
    /// rest sorted by name — and lowers the functions in that order, each
    /// recording its location under the next dense function index.
    #[verifier::rlimit(100)]
    #[verifier::spinoff_prover]
    pub fn visit_entity_def(&mut self, def: &EntityDef) -> (r: Result<(), CompileError>)
        requires
            old(self).relocs_wf(),
        ensures
            final(self).relocs_wf(),
            final(self).header == old(self).header,
            final(self).code@.len() >= old(self).code@.len(),
            final(self).code@.subrange(0, old(self).code@.len() as int) == old(self).code@,
            final(self).entities_and_functions == old(self).entities_and_functions,
            final(self).entity_table == old(self).entity_table,
            final(self).absolute_entity_function_locations == old(
                self,
            ).absolute_entity_function_locations,
            final(self).entity_data_values@.len() >= old(self).entity_data_values@.len(),
            final(self).entity_data_values@.subrange(
                0,
                old(self).entity_data_values@.len() as int,
            ) == old(self).entity_data_values@,
            final(self).entity_inoculation_values@.len() >= old(
                self,
            ).entity_inoculation_values@.len(),
            final(self).entity_inoculation_values@.subrange(
                0,
                old(self).entity_inoculation_values@.len() as int,
            ) == old(self).entity_inoculation_values@,
            final(self).entity_function_locations@.len() >= old(
                self,
            ).entity_function_locations@.len(),
            final(self).entity_function_locations@.subrange(
                0,
                old(self).entity_function_locations@.len() as int,
            ) == old(self).entity_function_locations@,
            r is Ok ==> ({
                let nd = def.data_declarations@.len();
                let ni = def.inoculation_list@.len();
                let nf = def.functions@.len();
                let efl0 = old(self).entity_function_locations@.len() as int;
                &&& final(self).current_entity_id == (if old(self).current_entity_id < u32::MAX {
                    (old(self).current_entity_id + 1) as u32
                } else {
                    old(self).current_entity_id
                })
                &&& final(self).entity_data_values@.len() == old(
                    self,
                ).entity_data_values@.len() + 1
                &&& final(self).entity_data_values@.last().0 == old(self).current_entity_id
                &&& final(self).entity_data_values@.last().1@.len() == nd
                &&& (forall|i: int| 0 <= i < nd ==> (
                #[trigger] final(self).entity_data_values@.last().1@[i]).0
                    == def.data_declarations@[i].0
                    && (#[trigger] final(self).entity_data_values@.last().1@[i]).1 is HNone)
                &&& final(self).entity_inoculation_values@.len() == old(
                    self,
                ).entity_inoculation_values@.len() + 1
                &&& final(self).entity_inoculation_values@.last().0 == old(self).current_entity_id
                &&& final(self).entity_inoculation_values@.last().1@.len() == ni
                &&& (forall|i: int| 0 <= i < ni ==> (
                #[trigger] final(self).entity_inoculation_values@.last().1@[i]).0
                    == def.inoculation_list@[i].0
                    && (#[trigger] final(self).entity_inoculation_values@.last().1@[i]).1 is HNone)
                &&& final(self).function_num@.len() == nf
                &&& (forall|i: int| 0 <= i < nf ==> (#[trigger] final(self).function_num@[i]).1
                    == i as u32)
                &&& (forall|i: int, j: int| 0 <= i < j < nf ==> func_name_le(
                    (#[trigger] final(self).function_num@[i]).0@,
                    (#[trigger] final(self).function_num@[j]).0@,
                ))
                &&& Seq::new(nf, |i: int| final(self).function_num@[i].0).to_multiset()
                    == Seq::new(nf, |i: int| def.functions@[i].0).to_multiset()
                &&& final(self).entity_function_locations@.len() == efl0 + nf
                &&& (forall|k: int| 0 <= k < nf ==> (
                #[trigger] final(self).entity_function_locations@[efl0 + k]).0 == old(
                    self,
                ).current_entity_id && final(self).entity_function_locations@[efl0 + k].1
                    == k as u32)
                &&& final(self).symbol_table@.len() >= 1 + nd
                &&& final(self).symbol_table@[0].0@ == "self"@
                &&& (final(self).symbol_table@[0].1 matches CType::Loc(p) && p matches
                    PType::Entity(en) && en == def.name)
                &&& (forall|i: int| 0 <= i < nd ==> (#[trigger] final(self).symbol_table@[1 + i]).0
                    == def.data_declarations@[i].0)
            }),
    {
        self.symbol_table = Vec::new();
        self.current_func_id = 0;
        self.symbol_table.push(
            (String::from_str("self"), CType::Loc(PType::Entity(def.name.clone()))),
        );
        let nd = def.data_declarations.len();
        let mut data_map: Vec<(String, Hvalue)> = Vec::new();
        let mut d: usize = 0;
        while d < nd
            invariant
                0 <= d <= nd,
                nd == def.data_declarations@.len(),
                self.relocs_wf(),
                self.header == old(self).header,
                self.code == old(self).code,
                self.relocations == old(self).relocations,
                self.entity_data_values == old(self).entity_data_values,
                self.entity_inoculation_values == old(self).entity_inoculation_values,
                self.function_num == old(self).function_num,
                self.entities_and_functions == old(self).entities_and_functions,
                self.entity_table == old(self).entity_table,
                self.absolute_entity_function_locations == old(
                    self,
                ).absolute_entity_function_locations,
                self.entity_function_locations == old(self).entity_function_locations,
                self.current_entity_id == old(self).current_entity_id,
                self.current_func_id == 0,
                data_map@.len() == d,
                forall|i: int| 0 <= i < d ==> (#[trigger] data_map@[i]).0
                    == def.data_declarations@[i].0 && data_map@[i].1 is HNone,
                self.symbol_table@.len() == 1 + d,
                self.symbol_table@[0].0@ == "self"@,
                (self.symbol_table@[0].1 matches CType::Loc(p) && p matches PType::Entity(en)
                    && en == def.name),
                forall|i: int| 0 <= i < d ==> (#[trigger] self.symbol_table@[1 + i]).0
                    == def.data_declarations@[i].0,
            decreases nd - d,
        {
            data_map.push((def.data_declarations[d].0.clone(), Hvalue::HNone));
            self.symbol_table.push(
                (def.data_declarations[d].0.clone(), def.data_declarations[d].1.duplicate()),
            );
            d = d + 1;
        }
        let ghost symtab_built = self.symbol_table@;
        self.entity_data_values.push((self.current_entity_id, data_map));
        proof {
            assert(self.entity_data_values@.subrange(
                0,
                old(self).entity_data_values@.len() as int,
            ) =~= old(self).entity_data_values@);
        }
        let ghost s1 = *self;
        let ni = def.inoculation_list.len();
        let mut inoc_map: Vec<(String, Hvalue)> = Vec::new();
        let mut k: usize = 0;
        while k < ni
            invariant
                0 <= k <= ni,
                ni == def.inoculation_list@.len(),
                *self == s1,
                inoc_map@.len() == k,
                forall|i: int| 0 <= i < k ==> (#[trigger] inoc_map@[i]).0
                    == def.inoculation_list@[i].0 && inoc_map@[i].1 is HNone,
            decreases ni - k,
        {
            inoc_map.push((def.inoculation_list[k].0.clone(), Hvalue::HNone));
            k = k + 1;
        }
        self.entity_inoculation_values.push((self.current_entity_id, inoc_map));
        proof {
            assert(self.entity_inoculation_values@.subrange(
                0,
                old(self).entity_inoculation_values@.len() as int,
            ) =~= old(self).entity_inoculation_values@);
        }
        // assign the function numbers in index order
        let ghost s2 = *self;
        let mut names: Vec<String> = Vec::new();
        let nf = def.functions.len();
        let mut f: usize = 0;
        while f < nf
            invariant
                0 <= f <= nf,
                nf == def.functions@.len(),
                *self == s2,
                names@.len() == f,
                forall|i: int| 0 <= i < f ==> names@[i] == def.functions@[i].0,
            decreases nf - f,
        {
            names.push(def.functions[f].0.clone());
            f = f + 1;
        }
        proof {
            assert(names@ =~= Seq::new(nf as nat, |i: int| def.functions@[i].0));
        }
        let sorted = sort_names(names);
        self.function_num = Vec::new();
        let ns = sorted.len();
        if ns > u32::MAX as usize {
            return Result::Err(CompileError::FrontEndError);
        }
        let ghost s3 = *self;
        let mut q: usize = 0;
        while q < ns
            invariant
                0 <= q <= ns,
                ns == sorted@.len(),
                ns <= u32::MAX,
                self.header == s3.header,
                self.code == s3.code,
                self.relocations == s3.relocations,
                self.symbol_table == s3.symbol_table,
                self.entity_data_values == s3.entity_data_values,
                self.entity_inoculation_values == s3.entity_inoculation_values,
                self.entities_and_functions == s3.entities_and_functions,
                self.entity_table == s3.entity_table,
                self.absolute_entity_function_locations == s3.absolute_entity_function_locations,
                self.entity_function_locations == s3.entity_function_locations,
                self.current_entity_id == s3.current_entity_id,
                self.current_func_id == s3.current_func_id,
                self.function_num@.len() == q,
                forall|i: int| 0 <= i < q ==> (#[trigger] self.function_num@[i]).0 == sorted@[i]
                    && self.function_num@[i].1 == i as u32,
            decreases ns - q,
        {
            self.function_num.push((sorted[q].clone(), q as u32));
            q = q + 1;
        }
        proof {
            assert(Seq::new(ns as nat, |i: int| self.function_num@[i].0) =~= sorted@);
        }
        let ghost after_tables = *self;
        proof {
            lemma_gen_frame_refl(*self);
        }
        // lower the functions in index order
        let ghost eid0 = old(self).current_entity_id;
        let ghost efl0 = old(self).entity_function_locations@.len() as int;
        let mut w: usize = 0;
        while w < ns
            invariant
                0 <= w <= ns,
                ns == sorted@.len(),
                ns == def.functions@.len(),
                ns <= u32::MAX,
                self.relocs_wf(),
                self.header == after_tables.header,
                self.code@.len() >= after_tables.code@.len(),
                self.code@.subrange(0, after_tables.code@.len() as int) == after_tables.code@,
                self.relocations@.len() >= after_tables.relocations@.len(),
                self.relocations@.subrange(0, after_tables.relocations@.len() as int)
                    == after_tables.relocations@,
                self.symbol_table@.len() >= after_tables.symbol_table@.len(),
                self.symbol_table@.subrange(0, after_tables.symbol_table@.len() as int)
                    == after_tables.symbol_table@,
                self.entities_and_functions == after_tables.entities_and_functions,
                self.entity_table == after_tables.entity_table,
                self.absolute_entity_function_locations
                    == after_tables.absolute_entity_function_locations,
                self.entity_data_values == after_tables.entity_data_values,
                self.entity_inoculation_values == after_tables.entity_inoculation_values,
                self.function_num == after_tables.function_num,
                self.current_entity_id == eid0,
                self.current_func_id == w as u32,
                self.entity_function_locations@.len() == efl0 + w,
                self.entity_function_locations@.subrange(0, efl0) == old(
                    self,
                ).entity_function_locations@,
                forall|k: int| 0 <= k < w ==> (
                #[trigger] self.entity_function_locations@[efl0 + k]).0 == eid0
                    && self.entity_function_locations@[efl0 + k].1 == k as u32,
                after_tables.header == old(self).header,
                after_tables.code == old(self).code,
                after_tables.relocations == old(self).relocations,
                after_tables.entities_and_functions == old(self).entities_and_functions,
                after_tables.entity_table == old(self).entity_table,
                after_tables.absolute_entity_function_locations == old(
                    self,
                ).absolute_entity_function_locations,
                after_tables.entity_function_locations@.len() == efl0,
                after_tables.entity_function_locations@ == old(self).entity_function_locations@,
                after_tables.symbol_table@ == symtab_built,
                symtab_built.len() == 1 + def.data_declarations@.len(),
                symtab_built[0].0@ == "self"@,
                (symtab_built[0].1 matches CType::Loc(p) && p matches PType::Entity(en) && en
                    == def.name),
                forall|i: int| 0 <= i < def.data_declarations@.len()
                    ==> (#[trigger] symtab_built[1 + i]).0 == def.data_declarations@[i].0,
                after_tables.entity_data_values@.len() == old(self).entity_data_values@.len() + 1,
                after_tables.entity_data_values@.subrange(
                    0,
                    old(self).entity_data_values@.len() as int,
                ) == old(self).entity_data_values@,
                after_tables.entity_data_values@.last().0 == eid0,
                after_tables.entity_data_values@.last().1@.len() == def.data_declarations@.len(),
                forall|i: int| 0 <= i < def.data_declarations@.len() ==> (
                #[trigger] after_tables.entity_data_values@.last().1@[i]).0
                    == def.data_declarations@[i].0
                    && after_tables.entity_data_values@.last().1@[i].1 is HNone,
                after_tables.entity_inoculation_values@.len() == old(
                    self,
                ).entity_inoculation_values@.len() + 1,
                after_tables.entity_inoculation_values@.subrange(
                    0,
                    old(self).entity_inoculation_values@.len() as int,
                ) == old(self).entity_inoculation_values@,
                after_tables.entity_inoculation_values@.last().0 == eid0,
                after_tables.entity_inoculation_values@.last().1@.len()
                    == def.inoculation_list@.len(),
                forall|i: int| 0 <= i < def.inoculation_list@.len() ==> (
                #[trigger] after_tables.entity_inoculation_values@.last().1@[i]).0
                    == def.inoculation_list@[i].0
                    && after_tables.entity_inoculation_values@.last().1@[i].1 is HNone,
                after_tables.function_num@.len() == ns,
                forall|i: int| 0 <= i < ns ==> (#[trigger] after_tables.function_num@[i]).0
                    == sorted@[i] && after_tables.function_num@[i].1 == i as u32,
                forall|i: int, j: int| 0 <= i < j < ns ==> func_name_le(sorted@[i]@, sorted@[j]@),
                sorted@.to_multiset() == Seq::new(
                    def.functions@.len(),
                    |i: int| def.functions@[i].0,
                ).to_multiset(),
            decreases ns - w,
        {
            // find the definition carrying this name
            let nf2 = def.functions.len();
            let mut g: usize = 0;
            let mut found: usize = nf2;
            while g < nf2 && found == nf2
                invariant
                    0 <= g <= nf2,
                    nf2 == def.functions@.len(),
                    w < ns,
                    ns == sorted@.len(),
                    found == nf2 || (found < nf2 && def.functions@[found as int].0@
                        == sorted@[w as int]@),
                decreases nf2 - g,
            {
                if def.functions[g].0 == sorted[w] {
                    found = g;
                }
                g = g + 1;
            }
            if found == nf2 {
                proof {
                    assert(self.code@.subrange(0, old(self).code@.len() as int) =~= old(
                        self,
                    ).code@);
                    assert(self.entity_function_locations@.subrange(
                        0,
                        old(self).entity_function_locations@.len() as int,
                    ) =~= old(self).entity_function_locations@);
                    assert(self.entity_data_values@.subrange(
                        0,
                        old(self).entity_data_values@.len() as int,
                    ) =~= old(self).entity_data_values@);
                    assert(self.entity_inoculation_values@.subrange(
                        0,
                        old(self).entity_inoculation_values@.len() as int,
                    ) =~= old(self).entity_inoculation_values@);
                }
                return Result::Err(CompileError::FrontEndError);
            }
            let ghost mid = *self;
            match &def.functions[found].1 {
                AstNode::Function { parameters, body, .. } => {
                    match self.visit_function(parameters, body) {
                        Result::Ok(()) => (),
                        Result::Err(e) => {
                            proof {
                                assert(self.code@.subrange(0, after_tables.code@.len() as int)
                                    =~= after_tables.code@);
                                assert(self.code@.subrange(0, old(self).code@.len() as int)
                                    =~= old(self).code@);
                                assert(self.entity_function_locations@.subrange(
                                    0,
                                    old(self).entity_function_locations@.len() as int,
                                ) =~= old(self).entity_function_locations@);
                                assert(self.entity_data_values@.subrange(
                                    0,
                                    old(self).entity_data_values@.len() as int,
                                ) =~= old(self).entity_data_values@);
                                assert(self.entity_inoculation_values@.subrange(
                                    0,
                                    old(self).entity_inoculation_values@.len() as int,
                                ) =~= old(self).entity_inoculation_values@);
                            }
                            return Result::Err(e);
                        },
                    }
                },
                _ => {
                    proof {
                        assert(self.code@.subrange(0, old(self).code@.len() as int) =~= old(
                            self,
                        ).code@);
                        assert(self.entity_function_locations@.subrange(
                            0,
                            old(self).entity_function_locations@.len() as int,
                        ) =~= old(self).entity_function_locations@);
                        assert(self.entity_data_values@.subrange(
                            0,
                            old(self).entity_data_values@.len() as int,
                        ) =~= old(self).entity_data_values@);
                        assert(self.entity_inoculation_values@.subrange(
                            0,
                            old(self).entity_inoculation_values@.len() as int,
                        ) =~= old(self).entity_inoculation_values@);
                    }
                    return Result::Err(CompileError::FrontEndError);
                },
            }
            proof {
                assert(self.code@.subrange(0, after_tables.code@.len() as int)
                    =~= after_tables.code@);
                assert(self.relocations@.subrange(0, after_tables.relocations@.len() as int)
                    =~= after_tables.relocations@);
                assert(self.symbol_table@.subrange(0, after_tables.symbol_table@.len() as int)
                    =~= after_tables.symbol_table@);
                assert(self.entity_function_locations@.subrange(0, efl0) =~= old(
                    self,
                ).entity_function_locations@);
            }
            w = w + 1;
        }
        if self.current_entity_id < u32::MAX {
            self.current_entity_id = self.current_entity_id + 1;
        }
        proof {
            assert(self.symbol_table@.subrange(0, symtab_built.len() as int) == symtab_built);
            assert forall|i: int| 0 <= i < symtab_built.len() implies #[trigger] self.symbol_table@[i]
                == symtab_built[i] by {
                assert(self.symbol_table@.subrange(0, symtab_built.len() as int)[i]
                    == symtab_built[i]);
            }
            assert(self.code@.subrange(0, old(self).code@.len() as int) =~= old(self).code@);
            assert(self.entity_function_locations@.subrange(
                0,
                old(self).entity_function_locations@.len() as int,
            ) =~= old(self).entity_function_locations@);
            assert(self.entity_data_values@.subrange(
                0,
                old(self).entity_data_values@.len() as int,
            ) =~= old(self).entity_data_values@);
            assert(self.entity_inoculation_values@.subrange(
                0,
                old(self).entity_inoculation_values@.len() as int,
            ) =~= old(self).entity_inoculation_values@);
            assert(Seq::new(ns as nat, |i: int| self.function_num@[i].0) =~= sorted@);
        }
        Result::Ok(())
    }

    /// Emits a defaults table into the header: a 1-byte entry count, then
    /// (entity id, NUL-terminated field name, tagged value) per field. A
    /// default the tagged-value codec cannot carry — field defaults start
    /// out empty — is written as the zero byte value. It succeeds exactly
    /// when every record fits the table's encoded widths.
    #[verifier::rlimit(100)]
    #[verifier::spinoff_prover]
    fn build_defaults_table(
        &mut self,
        values: &Vec<(u32, Vec<(String, Hvalue)>)>,
    ) -> (r: Result<(), CompileError>)
        requires
            old(self).relocs_wf(),
        ensures
            final(self).relocs_wf(),
            final(self).code == old(self).code,
            final(self).relocations == old(self).relocations,
            final(self).symbol_table == old(self).symbol_table,
            final(self).function_num == old(self).function_num,
            final(self).entities_and_functions == old(self).entities_and_functions,
            final(self).entity_table == old(self).entity_table,
            final(self).entity_data_values == old(self).entity_data_values,
            final(self).entity_inoculation_values == old(self).entity_inoculation_values,
            final(self).current_entity_id == old(self).current_entity_id,
            final(self).current_func_id == old(self).current_func_id,
            final(self).absolute_entity_function_locations == old(
                self,
            ).absolute_entity_function_locations,
            final(self).entity_function_locations == old(self).entity_function_locations,
            final(self).header@.len() >= old(self).header@.len(),
            final(self).header@.subrange(0, old(self).header@.len() as int) == old(self).header@,
            r is Ok <==> defaults_fit(values@),
            r is Ok ==> final(self).header@ == old(self).header@ + (seq![
                total_fields(values@) as u8,
            ] + default_entries_bytes(expected_default_entries(values@))),
    {
        proof {
            lemma_gen_frame_refl(*self);
        }
        let mut sz: usize = 0;
        let ne = values.len();
        let mut i: usize = 0;
        proof {
            assert(values@.subrange(0, 0) =~= Seq::<(u32, Vec<(String, Hvalue)>)>::empty());
        }
        while i < ne
            invariant
                0 <= i <= ne,
                ne == values@.len(),
                self == old(self),
                self.relocs_wf(),
                sz == total_fields(values@.subrange(0, i as int)),
            decreases ne - i,
        {
            let m = values[i].1.len();
            proof {
                lemma_total_fields_snoc(values@, i as int);
            }
            if sz > usize::MAX - m {
                proof {
                    lemma_total_fields_mono(values@, i + 1);
                    assert(!defaults_fit(values@));
                    lemma_header_prefix_refl(*self);
                }
                return Result::Err(CompileError::FrontEndError);
            }
            sz = sz + m;
            i = i + 1;
        }
        proof {
            assert(values@.subrange(0, ne as int) =~= values@);
        }
        if sz > 255 {
            proof {
                lemma_header_prefix_refl(*self);
            }
            return Result::Err(CompileError::FrontEndError);
        }
        let mut edt: Vec<u8> = Vec::new();
        edt.push(sz as u8);
        let ghost szb = sz as u8;
        let mut e: usize = 0;
        proof {
            assert(expected_default_entries(values@.subrange(0, 0)) =~= Seq::<
                crate::pbin::DataEntryV,
            >::empty());
            assert(edt@ =~= seq![szb] + default_entries_bytes(
                expected_default_entries(values@.subrange(0, 0)),
            ));
        }
        while e < ne
            invariant
                0 <= e <= ne,
                ne == values@.len(),
                self == old(self),
                self.relocs_wf(),
                szb == total_fields(values@) as u8,
                total_fields(values@) <= 255,
                forall|x: int| 0 <= x < e ==> (#[trigger] values@[x]).0 <= 255,
                forall|x: int, t: int| 0 <= x < e && 0 <= t < values@[x].1@.len()
                    ==> str_operand_ok((#[trigger] values@[x].1@[t]).0@),
                edt@ == seq![szb] + default_entries_bytes(
                    expected_default_entries(values@.subrange(0, e as int)),
                ),
            decreases ne - e,
        {
            let ent_id = values[e].0;
            if ent_id > 255 {
                proof {
                    assert(!defaults_fit(values@));
                    lemma_header_prefix_refl(*self);
                }
                return Result::Err(CompileError::FrontEndError);
            }
            let nm = values[e].1.len();
            let ghost base_es = expected_default_entries(values@.subrange(0, e as int));
            let ghost entity_es = Seq::new(
                values@[e as int].1@.len(),
                |j: int| crate::pbin::DataEntryV {
                    entity_id: values@[e as int].0 as u8,
                    name: values@[e as int].1@[j].0@,
                    value: written_default(values@[e as int].1@[j].1@),
                },
            );
            let mut j: usize = 0;
            proof {
                assert(entity_es.subrange(0, 0) =~= Seq::<crate::pbin::DataEntryV>::empty());
                assert(base_es + entity_es.subrange(0, 0) =~= base_es);
            }
            while j < nm
                invariant
                    0 <= j <= nm,
                    nm == values[e as int].1@.len(),
                    e < ne,
                    ne == values@.len(),
                    ent_id == values@[e as int].0,
                    ent_id <= 255,
                    self == old(self),
                    self.relocs_wf(),
                    total_fields(values@) <= 255,
                    szb == total_fields(values@) as u8,
                    forall|x: int| 0 <= x < e ==> (#[trigger] values@[x]).0 <= 255,
                    forall|x: int, t: int| 0 <= x < e && 0 <= t < values@[x].1@.len()
                        ==> str_operand_ok((#[trigger] values@[x].1@[t]).0@),
                    forall|t: int| 0 <= t < j ==> str_operand_ok((
                    #[trigger] values@[e as int].1@[t]).0@),
                    base_es == expected_default_entries(values@.subrange(0, e as int)),
                    entity_es == Seq::new(
                        values@[e as int].1@.len(),
                        |t: int| crate::pbin::DataEntryV {
                            entity_id: values@[e as int].0 as u8,
                            name: values@[e as int].1@[t].0@,
                            value: written_default(values@[e as int].1@[t].1@),
                        },
                    ),
                    edt@ == seq![szb] + default_entries_bytes(
                        base_es + entity_es.subrange(0, j as int),
                    ),
                decreases nm - j,
            {
                let ghost cur = base_es + entity_es.subrange(0, j as int);
                edt.push(ent_id as u8);
                if !crate::opcodes::str_ok_exec(&values[e].1[j].0) {
                    proof {
                        assert(!defaults_fit(values@));
                        lemma_header_prefix_refl(*self);
                    }
                    return Result::Err(CompileError::FrontEndError);
                }
                Self::emit_bytes_slice(&mut edt, values[e].1[j].0.as_str().as_bytes());
                edt.push(0x0);
                let val = &values[e].1[j].1;
                if crate::opcodes::value_encodable_exec(val) {
                    let mut vb = crate::opcodes::encode_value(val);
                    edt.append(&mut vb);
                } else {
                    let mut vb = crate::opcodes::encode_value(&Hvalue::Hu8(0));
                    edt.append(&mut vb);
                }
                proof {
                    let entry = entity_es[j as int];
                    assert(edt@ =~= (seq![szb] + default_entries_bytes(cur))
                        + data_entry_bytes(entry));
                    lemma_default_entries_bytes_snoc(cur.push(entry), cur.len() as int);
                    assert(cur.push(entry).subrange(0, cur.len() as int) =~= cur);
                    assert(cur.push(entry).subrange(0, (cur.len() + 1) as int) =~= cur.push(entry));
                    assert(base_es + entity_es.subrange(0, j + 1) =~= cur.push(entry));
                    assert(edt@ =~= seq![szb] + default_entries_bytes(
                        base_es + entity_es.subrange(0, j + 1),
                    ));
                }
                j = j + 1;
            }
            proof {
                lemma_expected_defaults_snoc(values@, e as int);
                assert(entity_es.subrange(0, nm as int) =~= entity_es);
                assert(base_es + entity_es =~= expected_default_entries(
                    values@.subrange(0, e + 1),
                ));
            }
            e = e + 1;
        }
        proof {
            assert(values@.subrange(0, ne as int) =~= values@);
        }
        let ghost hpre = self.header@;
        self.header.append(&mut edt);
        proof {
            assert(self.header@.subrange(0, hpre.len() as int) =~= hpre);
        }
        Result::Ok(())
    }

    /// Emits the entity data-defaults table into the header: it succeeds
    /// exactly when the recorded defaults fit the table's widths, and then
    /// the header gains precisely their count byte and entry images.
    pub fn build_entity_data_table(&mut self) -> (r: Result<(), CompileError>)
        requires
            old(self).relocs_wf(),
        ensures
            final(self).relocs_wf(),
            final(self).code == old(self).code,
            final(self).relocations == old(self).relocations,
            final(self).symbol_table == old(self).symbol_table,
            final(self).function_num == old(self).function_num,
            final(self).entities_and_functions == old(self).entities_and_functions,
            final(self).entity_table == old(self).entity_table,
            final(self).entity_data_values == old(self).entity_data_values,
            final(self).entity_inoculation_values == old(self).entity_inoculation_values,
            final(self).current_entity_id == old(self).current_entity_id,
            final(self).current_func_id == old(self).current_func_id,
            final(self).absolute_entity_function_locations == old(
                self,
            ).absolute_entity_function_locations,
            final(self).entity_function_locations == old(self).entity_function_locations,
            final(self).header@.len() >= old(self).header@.len(),
            final(self).header@.subrange(0, old(self).header@.len() as int) == old(self).header@,
            r is Ok <==> defaults_fit(old(self).entity_data_values@),
            r is Ok ==> final(self).header@ == old(self).header@ + (seq![
                total_fields(old(self).entity_data_values@) as u8,
            ] + default_entries_bytes(
                expected_default_entries(old(self).entity_data_values@),
            )),
    {
        let mut values: Vec<(u32, Vec<(String, Hvalue)>)> = Vec::new();
        core::mem::swap(&mut values, &mut self.entity_data_values);
        let r = self.build_defaults_table(&values);
        self.entity_data_values = values;
        r
    }

    /// Emits the entity inoculation-defaults table into the header, with the
    /// same shape and success condition as the data-defaults table.
    pub fn build_entity_inoculation_table(&mut self) -> (r: Result<(), CompileError>)
        requires
            old(self).relocs_wf(),
        ensures
            final(self).relocs_wf(),
            final(self).code == old(self).code,
            final(self).relocations == old(self).relocations,
            final(self).symbol_table == old(self).symbol_table,
            final(self).function_num == old(self).function_num,
            final(self).entities_and_functions == old(self).entities_and_functions,
            final(self).entity_table == old(self).entity_table,
            final(self).entity_data_values == old(self).entity_data_values,
            final(self).entity_inoculation_values == old(self).entity_inoculation_values,
            final(self).current_entity_id == old(self).current_entity_id,
            final(self).current_func_id == old(self).current_func_id,
            final(self).absolute_entity_function_locations == old(
                self,
            ).absolute_entity_function_locations,
            final(self).entity_function_locations == old(self).entity_function_locations,
            final(self).header@.len() >= old(self).header@.len(),
            final(self).header@.subrange(0, old(self).header@.len() as int) == old(self).header@,
            r is Ok <==> defaults_fit(old(self).entity_inoculation_values@),
            r is Ok ==> final(self).header@ == old(self).header@ + (seq![
                total_fields(old(self).entity_inoculation_values@) as u8,
            ] + default_entries_bytes(
                expected_default_entries(old(self).entity_inoculation_values@),
            )),
    {
        let mut values: Vec<(u32, Vec<(String, Hvalue)>)> = Vec::new();
        core::mem::swap(&mut values, &mut self.entity_inoculation_values);
        let r = self.build_defaults_table(&values);
        self.entity_inoculation_values = values;
        r
    }

    /// Emits the function-location table into the header and records each
    /// function's final absolute start: its position-independent offset
    /// shifted by the table's own size and everything already in the
    /// header. It succeeds exactly when every recorded location fits the
    /// table's encoded widths, and then the header gains precisely the
    /// count byte and entry images.
    #[verifier::rlimit(100)]
    #[verifier::spinoff_prover]
    pub fn build_entity_function_location_table(&mut self) -> (r: Result<(), CompileError>)
        requires
            old(self).relocs_wf(),
        ensures
            final(self).relocs_wf(),
            final(self).code == old(self).code,
            final(self).relocations == old(self).relocations,
            final(self).symbol_table == old(self).symbol_table,
            final(self).function_num == old(self).function_num,
            final(self).entities_and_functions == old(self).entities_and_functions,
            final(self).entity_table == old(self).entity_table,
            final(self).entity_data_values == old(self).entity_data_values,
            final(self).entity_inoculation_values == old(self).entity_inoculation_values,
            final(self).current_entity_id == old(self).current_entity_id,
            final(self).current_func_id == old(self).current_func_id,
            final(self).entity_function_locations == old(self).entity_function_locations,
            final(self).header@.len() >= old(self).header@.len(),
            final(self).header@.subrange(0, old(self).header@.len() as int) == old(self).header@,
            final(self).absolute_entity_function_locations@.subrange(
                0,
                old(self).absolute_entity_function_locations@.len() as int,
            ) == old(self).absolute_entity_function_locations@,
            r is Ok <==> func_table_fits(
                old(self).entity_function_locations@,
                old(self).header@.len() as int,
            ),
            r is Ok ==> final(self).header@ == old(self).header@ + (seq![
                old(self).entity_function_locations@.len() as u8,
            ] + func_entries_bytes(
                expected_func_entries(
                    old(self).entity_function_locations@,
                    old(self).header@.len() as int,
                ),
            )),
            r is Ok ==> final(self).absolute_entity_function_locations@.len() == old(
                self,
            ).absolute_entity_function_locations@.len() + old(
                self,
            ).entity_function_locations@.len(),
            r is Ok ==> forall|k: int| 0 <= k < old(self).entity_function_locations@.len()
                ==> #[trigger] final(self).absolute_entity_function_locations@[old(
                self,
            ).absolute_entity_function_locations@.len() + k] == (
            (old(self).entity_function_locations@[k].0, old(
                self,
            ).entity_function_locations@[k].1, (old(self).entity_function_locations@[k].2 + 1
                + old(self).entity_function_locations@.len() * 6 + old(self).header@.len())
                as usize)),
    {
        let loc_offset = self.header.len();
        let sz = self.entity_function_locations.len();
        if sz > 255 {
            proof {
                lemma_header_prefix_refl(*self);
                lemma_abs_prefix_refl(*self);
            }
            return Result::Err(CompileError::FrontEndError);
        }
        let mut efl: Vec<u8> = Vec::new();
        efl.push(sz as u8);
        let ghost abs0 = self.absolute_entity_function_locations@;
        let ghost efl0 = self.entity_function_locations@;
        let ghost h0 = self.header@;
        let ghost expected = expected_func_entries(efl0, h0.len() as int);
        let mut i: usize = 0;
        proof {
            assert(expected.subrange(0, 0) =~= Seq::<crate::pbin::FuncEntry>::empty());
            assert(efl@ =~= seq![sz as u8] + func_entries_bytes(expected.subrange(0, 0)));
        }
        while i < sz
            invariant
                0 <= i <= sz,
                sz == self.entity_function_locations@.len(),
                sz <= 255,
                self.entity_function_locations == old(self).entity_function_locations,
                efl0 == old(self).entity_function_locations@,
                abs0 == old(self).absolute_entity_function_locations@,
                h0 == self.header@,
                h0 == old(self).header@,
                loc_offset == h0.len(),
                expected == expected_func_entries(efl0, h0.len() as int),
                self.code == old(self).code,
                self.relocations == old(self).relocations,
                self.symbol_table == old(self).symbol_table,
                self.function_num == old(self).function_num,
                self.entities_and_functions == old(self).entities_and_functions,
                self.entity_table == old(self).entity_table,
                self.entity_data_values == old(self).entity_data_values,
                self.entity_inoculation_values == old(self).entity_inoculation_values,
                self.current_entity_id == old(self).current_entity_id,
                self.current_func_id == old(self).current_func_id,
                self.relocs_wf(),
                self.absolute_entity_function_locations@.len() == abs0.len() + i,
                self.absolute_entity_function_locations@.subrange(0, abs0.len() as int) == abs0,
                forall|k: int| 0 <= k < i
                    ==> #[trigger] self.absolute_entity_function_locations@[abs0.len() + k] == (
                (efl0[k].0, efl0[k].1, (efl0[k].2 + 1 + sz * 6 + h0.len()) as usize)),
                forall|k: int| 0 <= k < i ==> (#[trigger] efl0[k]).0 <= 255 && efl0[k].1 <= 255
                    && efl0[k].2 + 1 + sz * 6 + h0.len() <= 0xFFFF && efl0[k].3 <= 0xFFFF,
                efl@ == seq![sz as u8] + func_entries_bytes(expected.subrange(0, i as int)),
            decreases sz - i,
        {
            let ghost cur = expected.subrange(0, i as int);
            let (ent_id, func_id, loc_start, fun_size) = self.entity_function_locations[i];
            if ent_id > 255 || func_id > 255 {
                proof {
                    assert(!func_table_fits(efl0, h0.len() as int));
                    lemma_header_prefix_refl(*self);
                }
                return Result::Err(CompileError::FrontEndError);
            }
            efl.push(ent_id as u8);
            efl.push(func_id as u8);
            // table size byte + table entries + what the header already holds
            let shift = 1 + sz * 6;
            if loc_start > usize::MAX - shift || loc_start + shift > usize::MAX - loc_offset {
                proof {
                    assert(!func_table_fits(efl0, h0.len() as int));
                    lemma_header_prefix_refl(*self);
                }
                return Result::Err(CompileError::FrontEndError);
            }
            if loc_start + shift + loc_offset > 0xFFFF {
                proof {
                    assert(!func_table_fits(efl0, h0.len() as int));
                    lemma_header_prefix_refl(*self);
                }
                return Result::Err(CompileError::FrontEndError);
            }
            let final_loc_start: u16 = (loc_start + shift + loc_offset) as u16;
            self.absolute_entity_function_locations.push(
                (ent_id, func_id, final_loc_start as usize),
            );
            Self::emit_u16(&mut efl, final_loc_start);
            if fun_size > u16::MAX as usize {
                proof {
                    assert(!func_table_fits(efl0, h0.len() as int));
                    lemma_header_prefix_refl(*self);
                    assert(self.absolute_entity_function_locations@.subrange(
                        0,
                        abs0.len() as int,
                    ) =~= abs0);
                }
                return Result::Err(CompileError::FrontEndError);
            }
            Self::emit_u16(&mut efl, fun_size as u16);
            proof {
                assert(self.absolute_entity_function_locations@.subrange(0, abs0.len() as int)
                    =~= abs0);
                let entry = expected[i as int];
                assert(entry.entity_id == ent_id as u8 && entry.func_id == func_id as u8);
                assert(entry.start == final_loc_start);
                assert(entry.flen == fun_size as u16);
                assert(efl@ =~= (seq![sz as u8] + func_entries_bytes(cur))
                    + func_entry_bytes(entry));
                lemma_func_entries_bytes_snoc(cur.push(entry), cur.len() as int);
                assert(cur.push(entry).subrange(0, cur.len() as int) =~= cur);
                assert(cur.push(entry).subrange(0, (cur.len() + 1) as int) =~= cur.push(entry));
                assert(expected.subrange(0, i + 1) =~= cur.push(entry));
                assert(efl@ =~= seq![sz as u8] + func_entries_bytes(expected.subrange(0, i + 1)));
            }
            i = i + 1;
        }
        proof {
            assert(expected.subrange(0, sz as int) =~= expected);
        }
        let ghost hpre = self.header@;
        self.header.append(&mut efl);
        proof {
            assert(self.header@.subrange(0, hpre.len() as int) =~= hpre);
        }
        Result::Ok(())
    }
}

/// The byte image of one defaults-table entry: entity id, NUL-terminated
/// field name, tagged value.
pub open spec fn data_entry_bytes(e: crate::pbin::DataEntryV) -> Seq<u8> {
    seq![e.entity_id] + spec_encode_str(e.name) + crate::opcodes::spec_encode_value(e.value)
}

/// The byte image of a defaults entry list, in order.
pub open spec fn default_entries_bytes(es: Seq<crate::pbin::DataEntryV>) -> Seq<u8>
    decreases es.len(),
{
    if es.len() == 0 {
        Seq::empty()
    } else {
        data_entry_bytes(es[0]) + default_entries_bytes(es.drop_first())
    }
}

pub proof fn lemma_default_entries_bytes_snoc(es: Seq<crate::pbin::DataEntryV>, i: int)
    requires
        0 <= i < es.len(),
    ensures
        default_entries_bytes(es.subrange(0, i + 1)) == default_entries_bytes(es.subrange(0, i))
            + data_entry_bytes(es[i]),
    decreases i,
{
    let a = es.subrange(0, i + 1);
    if i == 0 {
        assert(a.drop_first() =~= Seq::<crate::pbin::DataEntryV>::empty());
        assert(es.subrange(0, 0) =~= Seq::<crate::pbin::DataEntryV>::empty());
        assert(default_entries_bytes(a) =~= default_entries_bytes(es.subrange(0, i))
            + data_entry_bytes(es[i]));
    } else {
        lemma_default_entries_bytes_snoc(es.drop_first(), i - 1);
        assert(a.drop_first() =~= es.drop_first().subrange(0, i));
        assert(es.subrange(0, i).drop_first() =~= es.drop_first().subrange(0, i - 1));
        assert(es.drop_first()[i - 1] == es[i]);
        assert(default_entries_bytes(a) =~= default_entries_bytes(es.subrange(0, i))
            + data_entry_bytes(es[i]));
    }
}

/// The default actually written for a field: its value when the tagged
/// codec carries it, the zero byte otherwise — field defaults start out
/// empty and the format has no tag for the empty value.
pub open spec fn written_default(v: HvalueV) -> HvalueV {
    if value_encodable(v) {
        v
    } else {
        HvalueV::VU8(0)
    }
}

/// The defaults entries a record list contributes, entity by entity, field
/// by field.
pub open spec fn expected_default_entries(values: Seq<(u32, Vec<(String, Hvalue)>)>) -> Seq<
    crate::pbin::DataEntryV,
>
    decreases values.len(),
{
    if values.len() == 0 {
        Seq::empty()
    } else {
        Seq::new(
            values[0].1@.len(),
            |j: int| crate::pbin::DataEntryV {
                entity_id: values[0].0 as u8,
                name: values[0].1@[j].0@,
                value: written_default(values[0].1@[j].1@),
            },
        ) + expected_default_entries(values.drop_first())
    }
}

pub proof fn lemma_expected_defaults_snoc(values: Seq<(u32, Vec<(String, Hvalue)>)>, e: int)
    requires
        0 <= e < values.len(),
    ensures
        expected_default_entries(values.subrange(0, e + 1)) == expected_default_entries(
            values.subrange(0, e),
        ) + Seq::new(
            values[e].1@.len(),
            |j: int| crate::pbin::DataEntryV {
                entity_id: values[e].0 as u8,
                name: values[e].1@[j].0@,
                value: written_default(values[e].1@[j].1@),
            },
        ),
    decreases e,
{
    let a = values.subrange(0, e + 1);
    if e == 0 {
        assert(a.drop_first() =~= Seq::<(u32, Vec<(String, Hvalue)>)>::empty());
        assert(values.subrange(0, 0) =~= Seq::<(u32, Vec<(String, Hvalue)>)>::empty());
        assert(expected_default_entries(a) =~= expected_default_entries(values.subrange(0, e))
            + Seq::new(
            values[e].1@.len(),
            |j: int| crate::pbin::DataEntryV {
                entity_id: values[e].0 as u8,
                name: values[e].1@[j].0@,
                value: written_default(values[e].1@[j].1@),
            },
        ));
    } else {
        lemma_expected_defaults_snoc(values.drop_first(), e - 1);
        assert(a.drop_first() =~= values.drop_first().subrange(0, e));
        assert(values.subrange(0, e).drop_first() =~= values.drop_first().subrange(0, e - 1));
        assert(values.drop_first()[e - 1] == values[e]);
        assert(expected_default_entries(a) =~= expected_default_entries(values.subrange(0, e))
            + Seq::new(
            values[e].1@.len(),
            |j: int| crate::pbin::DataEntryV {
                entity_id: values[e].0 as u8,
                name: values[e].1@[j].0@,
                value: written_default(values[e].1@[j].1@),
            },
        ));
    }
}

/// How many fields the record list holds in all.
pub open spec fn total_fields(values: Seq<(u32, Vec<(String, Hvalue)>)>) -> int
    decreases values.len(),
{
    if values.len() == 0 {
        0
    } else {
        values[0].1@.len() + total_fields(values.drop_first())
    }
}

pub proof fn lemma_total_fields_snoc(values: Seq<(u32, Vec<(String, Hvalue)>)>, e: int)
    requires
        0 <= e < values.len(),
    ensures
        total_fields(values.subrange(0, e + 1)) == total_fields(values.subrange(0, e))
            + values[e].1@.len(),
        total_fields(values.subrange(0, e)) >= 0,
    decreases e,
{
    let a = values.subrange(0, e + 1);
    if e == 0 {
        assert(a.drop_first() =~= Seq::<(u32, Vec<(String, Hvalue)>)>::empty());
        assert(values.subrange(0, 0) =~= Seq::<(u32, Vec<(String, Hvalue)>)>::empty());
    } else {
        lemma_total_fields_snoc(values.drop_first(), e - 1);
        assert(a.drop_first() =~= values.drop_first().subrange(0, e));
        assert(values.subrange(0, e).drop_first() =~= values.drop_first().subrange(0, e - 1));
        assert(values.drop_first()[e - 1] == values[e]);
    }
}

/// A prefix holds no more fields than the whole.
pub proof fn lemma_total_fields_mono(values: Seq<(u32, Vec<(String, Hvalue)>)>, i: int)
    requires
        0 <= i <= values.len(),
    ensures
        total_fields(values.subrange(0, i)) <= total_fields(values),
        total_fields(values.subrange(0, i)) >= 0,
    decreases values.len() - i,
{
    if i < values.len() {
        lemma_total_fields_snoc(values, i);
        lemma_total_fields_mono(values, i + 1);
    } else {
        assert(values.subrange(0, i) =~= values);
        lemma_total_fields_nonneg(values);
    }
}

pub proof fn lemma_total_fields_nonneg(values: Seq<(u32, Vec<(String, Hvalue)>)>)
    ensures
        total_fields(values) >= 0,
    decreases values.len(),
{
    if values.len() > 0 {
        lemma_total_fields_nonneg(values.drop_first());
    }
}

/// The header is its own prefix.
proof fn lemma_header_prefix_refl(a: GenCode)
    ensures
        a.header@.subrange(0, a.header@.len() as int) == a.header@,
{
    assert(a.header@.subrange(0, a.header@.len() as int) =~= a.header@);
}

/// The absolute-location table is its own prefix.
proof fn lemma_abs_prefix_refl(a: GenCode)
    ensures
        a.absolute_entity_function_locations@.subrange(
            0,
            a.absolute_entity_function_locations@.len() as int,
        ) == a.absolute_entity_function_locations@,
{
    assert(a.absolute_entity_function_locations@.subrange(
        0,
        a.absolute_entity_function_locations@.len() as int,
    ) =~= a.absolute_entity_function_locations@);
}

pub proof fn lemma_expected_defaults_len(values: Seq<(u32, Vec<(String, Hvalue)>)>)
    ensures
        expected_default_entries(values).len() == total_fields(values),
        total_fields(values) >= 0,
    decreases values.len(),
{
    if values.len() > 0 {
        lemma_expected_defaults_len(values.drop_first());
    }
}

/// Whether the defaults of a record list fit the table's encoded widths:
/// the total field count in one byte, every entity id in one byte, and
/// every field name free of NUL.
pub open spec fn defaults_fit(values: Seq<(u32, Vec<(String, Hvalue)>)>) -> bool {
    &&& total_fields(values) <= 255
    &&& forall|e: int| 0 <= e < values.len() ==> (#[trigger] values[e]).0 <= 255
    &&& forall|e: int, j: int| 0 <= e < values.len() && 0 <= j < values[e].1@.len()
        ==> str_operand_ok((#[trigger] values[e].1@[j]).0@)
}

/// Under the fit condition every expected defaults entry can be read back:
/// its name carries no NUL and its written value is one the codec covers.
pub proof fn lemma_expected_defaults_ok(values: Seq<(u32, Vec<(String, Hvalue)>)>)
    requires
        forall|e: int, j: int| 0 <= e < values.len() && 0 <= j < values[e].1@.len()
            ==> str_operand_ok((#[trigger] values[e].1@[j]).0@),
    ensures
        forall|k: int| 0 <= k < expected_default_entries(values).len()
            ==> str_operand_ok((#[trigger] expected_default_entries(values)[k]).name)
            && value_encodable(expected_default_entries(values)[k].value),
    decreases values.len(),
{
    if values.len() > 0 {
        let head = Seq::new(
            values[0].1@.len(),
            |j: int| crate::pbin::DataEntryV {
                entity_id: values[0].0 as u8,
                name: values[0].1@[j].0@,
                value: written_default(values[0].1@[j].1@),
            },
        );
        assert forall|e: int, j: int|
            0 <= e < values.drop_first().len() && 0 <= j < values.drop_first()[e].1@.len() implies str_operand_ok(
            (#[trigger] values.drop_first()[e].1@[j]).0@,
        ) by {
            assert(values.drop_first()[e] == values[e + 1]);
        }
        lemma_expected_defaults_ok(values.drop_first());
        assert forall|k: int| 0 <= k < expected_default_entries(values).len() implies str_operand_ok(
            (#[trigger] expected_default_entries(values)[k]).name,
        ) && value_encodable(expected_default_entries(values)[k].value) by {
            if k < head.len() {
                assert(expected_default_entries(values)[k] == head[k]);
            } else {
                assert(expected_default_entries(values)[k] == expected_default_entries(
                    values.drop_first(),
                )[k - head.len()]);
            }
        }
    }
}

/// Loading inverts the defaults builder: a table emitted as a count byte and
/// entry images parses back to exactly those entries, whatever bytes follow.
pub proof fn lemma_defaults_table_parses(
    pre: Seq<u8>,
    cnt: u8,
    es: Seq<crate::pbin::DataEntryV>,
    rest: Seq<u8>,
)
    requires
        es.len() == cnt,
        forall|k: int| 0 <= k < es.len() ==> str_operand_ok((#[trigger] es[k]).name)
            && value_encodable(es[k].value),
    ensures
        crate::pbin::spec_parse_data_table(
            pre + (seq![cnt] + default_entries_bytes(es)) + rest,
            pre.len() as int,
        ) == Option::Some(
            ((pre.len() + 1 + default_entries_bytes(es).len()) as int, es),
        ),
{
    let b = pre + (seq![cnt] + default_entries_bytes(es)) + rest;
    assert(b[pre.len() as int] == cnt);
    assert(b =~= (pre + seq![cnt]) + default_entries_bytes(es) + rest);
    lemma_parse_default_entries(pre + seq![cnt], es, rest);
}

#[verifier::rlimit(100)]
#[verifier::spinoff_prover]
proof fn lemma_parse_default_entries(
    pre: Seq<u8>,
    es: Seq<crate::pbin::DataEntryV>,
    rest: Seq<u8>,
)
    requires
        forall|k: int| 0 <= k < es.len() ==> str_operand_ok((#[trigger] es[k]).name)
            && value_encodable(es[k].value),
    ensures
        crate::pbin::spec_parse_data_entries(
            pre + default_entries_bytes(es) + rest,
            pre.len() as int,
            es.len() as nat,
        ) == Option::Some(((pre.len() + default_entries_bytes(es).len()) as int, es)),
    decreases es.len(),
{
    let b = pre + default_entries_bytes(es) + rest;
    if es.len() == 0 {
        assert(default_entries_bytes(es) =~= Seq::<u8>::empty());
        assert(es =~= Seq::<crate::pbin::DataEntryV>::empty());
    } else {
        let head = es[0];
        let hb = data_entry_bytes(head);
        let tail_bytes = default_entries_bytes(es.drop_first());
        let pos = pre.len() as int;
        assert(b[pos] == head.entity_id) by {
            assert(hb[0] == head.entity_id);
            assert(b =~= pre + (hb + tail_bytes) + rest);
        }
        let name_enc = encode_utf8(head.name);
        let venc = crate::opcodes::spec_encode_value(head.value);
        assert(b.subrange(pos + 1, b.len() as int) =~= name_enc + seq![0u8] + (venc + (tail_bytes
            + rest)));
        crate::bin_helpers::lemma_read_str_of_encoded(head.name, venc + (tail_bytes + rest));
        let nlen = name_enc.len() + 1;
        assert(b.subrange(pos + 1 + nlen, b.len() as int) =~= venc + (tail_bytes + rest));
        crate::opcodes::lemma_value_round_trip(head.value, tail_bytes + rest);
        let vlen = venc.len() as int;
        assert(pre + hb =~= b.subrange(0, pos + 1 + nlen + vlen));
        lemma_parse_default_entries(pre + hb, es.drop_first(), rest);
        assert((pre + hb) + tail_bytes + rest =~= b);
        assert(seq![head] + es.drop_first() =~= es);
        assert(default_entries_bytes(es) =~= hb + tail_bytes);
    }
}

/// The byte image of one function-location entry.
pub open spec fn func_entry_bytes(e: crate::pbin::FuncEntry) -> Seq<u8> {
    seq![e.entity_id, e.func_id] + crate::opcodes::be_bytes2(e.start as int)
        + crate::opcodes::be_bytes2(e.flen as int)
}

/// The byte image of a function-location entry list, in order.
pub open spec fn func_entries_bytes(es: Seq<crate::pbin::FuncEntry>) -> Seq<u8>
    decreases es.len(),
{
    if es.len() == 0 {
        Seq::empty()
    } else {
        func_entry_bytes(es[0]) + func_entries_bytes(es.drop_first())
    }
}

pub proof fn lemma_func_entries_bytes_snoc(es: Seq<crate::pbin::FuncEntry>, i: int)
    requires
        0 <= i < es.len(),
    ensures
        func_entries_bytes(es.subrange(0, i + 1)) == func_entries_bytes(es.subrange(0, i))
            + func_entry_bytes(es[i]),
    decreases i,
{
    let a = es.subrange(0, i + 1);
    if i == 0 {
        assert(a.drop_first() =~= Seq::<crate::pbin::FuncEntry>::empty());
        assert(es.subrange(0, 0) =~= Seq::<crate::pbin::FuncEntry>::empty());
        assert(func_entries_bytes(a) =~= func_entries_bytes(es.subrange(0, i))
            + func_entry_bytes(es[i]));
    } else {
        lemma_func_entries_bytes_snoc(es.drop_first(), i - 1);
        assert(a.drop_first() =~= es.drop_first().subrange(0, i));
        assert(es.subrange(0, i).drop_first() =~= es.drop_first().subrange(0, i - 1));
        assert(es.drop_first()[i - 1] == es[i]);
        assert(func_entries_bytes(a) =~= func_entries_bytes(es.subrange(0, i))
            + func_entry_bytes(es[i]));
    }
}

/// The function-location entries the builder writes: each start shifted
/// past the count byte, the table's own entries and everything already in
/// the header.
pub open spec fn expected_func_entries(
    efl: Seq<(u32, u32, usize, usize)>,
    header_len: int,
) -> Seq<crate::pbin::FuncEntry> {
    Seq::new(
        efl.len(),
        |k: int| crate::pbin::FuncEntry {
            entity_id: efl[k].0 as u8,
            func_id: efl[k].1 as u8,
            start: (efl[k].2 + 1 + efl.len() * 6 + header_len) as u16,
            flen: efl[k].3 as u16,
        },
    )
}

/// Whether the recorded locations fit the table's encoded widths.
pub open spec fn func_table_fits(efl: Seq<(u32, u32, usize, usize)>, header_len: int) -> bool {
    &&& efl.len() <= 255
    &&& forall|k: int| 0 <= k < efl.len() ==> (#[trigger] efl[k]).0 <= 255 && efl[k].1 <= 255
        && efl[k].2 + 1 + efl.len() * 6 + header_len <= 0xFFFF && efl[k].3 <= 0xFFFF
}

/// Loading inverts the location-table builder: a table emitted as a count
/// byte and entry images parses back to exactly those entries, whatever
/// bytes follow.
pub proof fn lemma_func_table_parses(
    pre: Seq<u8>,
    cnt: u8,
    es: Seq<crate::pbin::FuncEntry>,
    rest: Seq<u8>,
)
    requires
        es.len() == cnt,
    ensures
        crate::pbin::spec_parse_func_table(
            pre + (seq![cnt] + func_entries_bytes(es)) + rest,
            pre.len() as int,
        ) == Option::Some(((pre.len() + 1 + func_entries_bytes(es).len()) as int, es)),
{
    let b = pre + (seq![cnt] + func_entries_bytes(es)) + rest;
    assert(b[pre.len() as int] == cnt);
    assert(b =~= (pre + seq![cnt]) + func_entries_bytes(es) + rest);
    lemma_parse_func_entries(pre + seq![cnt], es, rest);
}

proof fn lemma_parse_func_entries(pre: Seq<u8>, es: Seq<crate::pbin::FuncEntry>, rest: Seq<u8>)
    ensures
        crate::pbin::spec_parse_func_entries(
            pre + func_entries_bytes(es) + rest,
            pre.len() as int,
            es.len() as nat,
        ) == Option::Some(((pre.len() + func_entries_bytes(es).len()) as int, es)),
    decreases es.len(),
{
    let b = pre + func_entries_bytes(es) + rest;
    if es.len() == 0 {
        assert(func_entries_bytes(es) =~= Seq::<u8>::empty());
        assert(es =~= Seq::<crate::pbin::FuncEntry>::empty());
    } else {
        let head = es[0];
        let hb = func_entry_bytes(head);
        let tail_bytes = func_entries_bytes(es.drop_first());
        let pos = pre.len() as int;
        assert(b =~= pre + (hb + tail_bytes) + rest);
        assert(hb.len() == 6);
        assert(b[pos] == head.entity_id);
        assert(b[pos + 1] == head.func_id);
        crate::opcodes::lemma_be2_round_trip(head.start);
        crate::opcodes::lemma_be2_round_trip(head.flen);
        assert(b[pos + 2] == crate::opcodes::be_bytes2(head.start as int)[0]);
        assert(b[pos + 3] == crate::opcodes::be_bytes2(head.start as int)[1]);
        assert(b[pos + 4] == crate::opcodes::be_bytes2(head.flen as int)[0]);
        assert(b[pos + 5] == crate::opcodes::be_bytes2(head.flen as int)[1]);
        assert(pre + hb =~= b.subrange(0, pos + 6));
        lemma_parse_func_entries(pre + hb, es.drop_first(), rest);
        assert((pre + hb) + tail_bytes + rest =~= b);
        assert(seq![head] + es.drop_first() =~= es);
        assert(func_entries_bytes(es) =~= hb + tail_bytes);
    }
}


/// The first number recorded under a name.
pub open spec fn spec_lookup_name(t: Seq<(String, u32)>, name: Seq<char>) -> Option<u32>
    decreases t.len(),
{
    if t.len() == 0 {
        Option::None
    } else if t[0].0@ == name {
        Option::Some(t[0].1)
    } else {
        spec_lookup_name(t.drop_first(), name)
    }
}

/// The function index assigned to `fname` within the first entity entry
/// named `ename`.
pub open spec fn spec_lookup_fid(
    t: Seq<(String, Vec<(String, u32)>)>,
    ename: Seq<char>,
    fname: Seq<char>,
) -> Option<u32>
    decreases t.len(),
{
    if t.len() == 0 {
        Option::None
    } else if t[0].0@ == ename {
        spec_lookup_name(t[0].1@, fname)
    } else {
        spec_lookup_fid(t.drop_first(), ename, fname)
    }
}

/// The entity type name the first record under `name` declares, when that
/// record types it as an entity.
pub open spec fn spec_lookup_entity(t: Seq<(String, CType)>, name: Seq<char>) -> Option<String>
    decreases t.len(),
{
    if t.len() == 0 {
        Option::None
    } else if t[0].0@ == name {
        match t[0].1 {
            CType::Loc(p) => match p {
                PType::Entity(e) => Option::Some(e),
                _ => Option::None,
            },
            _ => Option::None,
        }
    } else {
        spec_lookup_entity(t.drop_first(), name)
    }
}

/// The load instruction a read of this identifier lowers to.
pub open spec fn idload_enc(sym: Identifier) -> Seq<u8> {
    if sym.target is LocalVar {
        spec_encode_instruction(OpV::Lload(sym.original_sym@))
    } else {
        spec_encode_instruction(OpV::Eload(sym.original_sym@))
    }
}

/// The store instruction a write of this identifier lowers to (the target
/// must be resolved).
pub open spec fn idstore_enc(sym: Identifier) -> Seq<u8> {
    if sym.target is LocalVar {
        spec_encode_instruction(OpV::Lstore(sym.original_sym@))
    } else {
        spec_encode_instruction(OpV::Estore(sym.original_sym@))
    }
}

/// The buffer ends with exactly these bytes.
pub open spec fn ends_with(code: Seq<u8>, tail: Seq<u8>) -> bool {
    code.len() >= tail.len() && code.subrange(code.len() - tail.len(), code.len() as int) == tail
}

/// The stores a function prologue emits, one per parameter in order.
pub open spec fn param_stores(params: Seq<(String, CType)>) -> Seq<u8>
    decreases params.len(),
{
    if params.len() == 0 {
        Seq::empty()
    } else {
        spec_encode_instruction(OpV::Lstore(params[0].0@)) + param_stores(params.drop_first())
    }
}

pub proof fn lemma_param_stores_snoc(params: Seq<(String, CType)>, i: int)
    requires
        0 <= i < params.len(),
    ensures
        param_stores(params.subrange(0, i + 1)) == param_stores(params.subrange(0, i))
            + spec_encode_instruction(OpV::Lstore(params[i].0@)),
    decreases i,
{
    let a = params.subrange(0, i + 1);
    if i == 0 {
        assert(a.drop_first() =~= Seq::<(String, CType)>::empty());
        assert(params.subrange(0, 0) =~= Seq::<(String, CType)>::empty());
        assert(param_stores(a) =~= param_stores(params.subrange(0, i)) + spec_encode_instruction(
            OpV::Lstore(params[i].0@),
        ));
    } else {
        lemma_param_stores_snoc(params.drop_first(), i - 1);
        assert(a.drop_first() =~= params.drop_first().subrange(0, i));
        assert(params.subrange(0, i).drop_first() =~= params.drop_first().subrange(0, i - 1));
        assert(params.drop_first()[i - 1] == params[i]);
        assert(param_stores(a) =~= param_stores(params.subrange(0, i)) + spec_encode_instruction(
            OpV::Lstore(params[i].0@),
        ));
    }
}

/// What every lowering step preserves of the generator: the header, the
/// already-emitted code, the already-recorded relocations and symbols, and
/// every table the entity walk owns.
pub open spec fn gen_frame(pre: GenCode, post: GenCode) -> bool {
    &&& post.header == pre.header
    &&& post.code@.len() >= pre.code@.len()
    &&& post.code@.subrange(0, pre.code@.len() as int) == pre.code@
    &&& post.relocations@.len() >= pre.relocations@.len()
    &&& post.relocations@.subrange(0, pre.relocations@.len() as int) == pre.relocations@
    &&& post.symbol_table@.len() >= pre.symbol_table@.len()
    &&& post.symbol_table@.subrange(0, pre.symbol_table@.len() as int) == pre.symbol_table@
    &&& post.absolute_entity_function_locations == pre.absolute_entity_function_locations
    &&& post.entity_function_locations == pre.entity_function_locations
    &&& post.function_num == pre.function_num
    &&& post.entities_and_functions == pre.entities_and_functions
    &&& post.entity_table == pre.entity_table
    &&& post.entity_data_values == pre.entity_data_values
    &&& post.entity_inoculation_values == pre.entity_inoculation_values
    &&& post.current_entity_id == pre.current_entity_id
    &&& post.current_func_id == pre.current_func_id
}

pub proof fn lemma_gen_frame_trans(a: GenCode, b: GenCode, c: GenCode)
    requires
        gen_frame(a, b),
        gen_frame(b, c),
    ensures
        gen_frame(a, c),
{
    assert(c.code@.subrange(0, a.code@.len() as int) =~= a.code@);
    assert(c.relocations@.subrange(0, a.relocations@.len() as int) =~= a.relocations@);
    assert(c.symbol_table@.subrange(0, a.symbol_table@.len() as int) =~= a.symbol_table@);
}

/// Looks a name up in an association list of entity or function numbers.
fn lookup_u32(t: &Vec<(String, u32)>, name: &String) -> (r: Option<u32>)
    ensures
        r == spec_lookup_name(t@, name@),
{
    let n = t.len();
    let mut i: usize = 0;
    proof {
        assert(t@.subrange(0, n as int) =~= t@);
    }
    while i < n
        invariant
            0 <= i <= n,
            n == t@.len(),
            spec_lookup_name(t@, name@) == spec_lookup_name(
                t@.subrange(i as int, n as int),
                name@,
            ),
        decreases n - i,
    {
        let ghost rest = t@.subrange(i as int, n as int);
        if t[i].0 == *name {
            proof {
                assert(rest[0] == t@[i as int]);
            }
            return Option::Some(t[i].1);
        }
        proof {
            assert(rest[0] == t@[i as int]);
            assert(rest.drop_first() =~= t@.subrange(i + 1, n as int));
        }
        i = i + 1;
    }
    proof {
        assert(t@.subrange(n as int, n as int) =~= Seq::<(String, u32)>::empty());
    }
    Option::None
}

/// Looks up the function index assigned to `fname` within entity `ename`.
fn lookup_fid(
    t: &Vec<(String, Vec<(String, u32)>)>,
    ename: &String,
    fname: &String,
) -> (r: Option<u32>)
    ensures
        r == spec_lookup_fid(t@, ename@, fname@),
{
    let n = t.len();
    let mut i: usize = 0;
    proof {
        assert(t@.subrange(0, n as int) =~= t@);
    }
    while i < n
        invariant
            0 <= i <= n,
            n == t@.len(),
            spec_lookup_fid(t@, ename@, fname@) == spec_lookup_fid(
                t@.subrange(i as int, n as int),
                ename@,
                fname@,
            ),
        decreases n - i,
    {
        let ghost rest = t@.subrange(i as int, n as int);
        if t[i].0 == *ename {
            proof {
                assert(rest[0] == t@[i as int]);
            }
            return lookup_u32(&t[i].1, fname);
        }
        proof {
            assert(rest[0] == t@[i as int]);
            assert(rest.drop_first() =~= t@.subrange(i + 1, n as int));
        }
        i = i + 1;
    }
    proof {
        assert(t@.subrange(n as int, n as int) =~= Seq::<(String, Vec<(String, u32)>)>::empty());
    }
    Option::None
}

/// Finds the entity type name a symbol was declared with, if its recorded
/// type is an entity type.
fn lookup_ctype_entity(t: &Vec<(String, CType)>, name: &String) -> (r: Option<String>)
    ensures
        match spec_lookup_entity(t@, name@) {
            Option::Some(e) => (r matches Some(e2) && e2 == e),
            Option::None => r is None,
        },
{
    let n = t.len();
    let mut i: usize = 0;
    proof {
        assert(t@.subrange(0, n as int) =~= t@);
    }
    while i < n
        invariant
            0 <= i <= n,
            n == t@.len(),
            spec_lookup_entity(t@, name@) == spec_lookup_entity(
                t@.subrange(i as int, n as int),
                name@,
            ),
        decreases n - i,
    {
        let ghost rest = t@.subrange(i as int, n as int);
        if t[i].0 == *name {
            proof {
                assert(rest[0] == t@[i as int]);
            }
            match &t[i].1 {
                CType::Loc(PType::Entity(e)) => {
                    return Option::Some(e.clone());
                },
                _ => {
                    return Option::None;
                },
            }
        }
        proof {
            assert(rest[0] == t@[i as int]);
            assert(rest.drop_first() =~= t@.subrange(i + 1, n as int));
        }
        i = i + 1;
    }
    proof {
        assert(t@.subrange(n as int, n as int) =~= Seq::<(String, CType)>::empty());
    }
    Option::None
}

} // verus!
