//! The parsed-program model: entity definitions, statements, expressions and
//! the tagged runtime value type shared with the interpreter.

use vstd::prelude::*;
use crate::vm_core;

verus! {

/// A parsed module: imports plus entity definitions keyed by entity name.
/// The front end hands definitions over sorted by name; entity ids are
/// assigned in that order.
#[derive(Debug)]
pub struct Module {
    pub imports: Vec<AstNode>,
    pub entity_defs: Vec<(String, AstNode)>,
}

/// How a call site is to be lowered: an ordinary function call, or the
/// construction of a new entity (callee identifier starting upper-case).
#[derive(Debug, Clone, Copy, PartialEq, Eq, Structural)]
pub enum CallType {
    Ordinary,
    NewEntity,
}

#[derive(Debug)]
pub struct FunctionCall {
    pub call_type: CallType,
    pub identifier: Identifier,
    pub func_name: String,
    pub arguments: Vec<AstNode>,
}

#[derive(Debug)]
pub enum AstNode {
    Module(Module),
    ImportModule(String),
    EntityDef(EntityDef),
    Function {
        name: String,
        parameters: Vec<(String, CType)>,
        return_type: CType,
        body: Vec<AstNode>,
    },
    DefinitionNode(Identifier, Box<AstNode>),
    AssignmentNode(Identifier, Box<AstNode>),
    FunctionCall(FunctionCall),
    Message(Identifier, String, Vec<AstNode>),
    ForeignCall(ForeignFunc, Vec<AstNode>),
    EntityConstruction(Identifier, Box<Option<AstNode>>),
    Return(Box<AstNode>),
    Await(Box<AstNode>),
    Print(Box<AstNode>),
    OperatorNode(Box<AstNode>, BinOp, Box<AstNode>),
    Index(Box<AstNode>, Box<AstNode>),
    Identifier(Identifier),
    ValueNode(Hvalue),
    Error,
}

/// A registered host-native function, identified by the numeric index the
/// foreign-call opcode carries; the host resolves the index at run time.
#[derive(Debug, Clone, Copy, PartialEq, Eq, Structural)]
pub struct ForeignFunc {
    pub fc_id: u64,
}

/// The scope a name resolved to, assigned by the variable-flow pass.
#[derive(Debug, Clone, Copy, PartialEq, Eq, Structural)]
pub enum IdentifierTarget {
    Undecided,
    LocalVar,
    EntityVar,
    InocVar,
}

#[derive(Debug, Clone)]
pub struct Identifier {
    pub original_sym: String,
    pub unique_sym: String,
    pub target: IdentifierTarget,
}

impl Identifier {
    /// An exact copy.
    pub fn duplicate(&self) -> (r: Identifier)
        ensures
            r.original_sym == self.original_sym,
            r.unique_sym == self.unique_sym,
            r.target == self.target,
    {
        Identifier {
            original_sym: self.original_sym.clone(),
            unique_sym: self.unique_sym.clone(),
            target: self.target,
        }
    }
}

#[derive(Debug)]
pub struct EntityDef {
    pub name: String,
    pub data_declarations: Vec<(String, CType)>,
    pub inoculation_list: Vec<(String, CType)>,
    pub functions: Vec<(String, AstNode)>,
    pub foreign_functions: Vec<(u8, ForeignFunc)>,
}

impl EntityDef {
    /// Registers a host-native function under the next free foreign index and
    /// gives it a bytecode stub whose body is a single foreign call.
    pub fn register_foreign_function(&mut self, name: &String, fc_id: u64)
        requires
            old(self).foreign_functions@.len() < 256,
        ensures
            final(self).name == old(self).name,
            final(self).data_declarations == old(self).data_declarations,
            final(self).inoculation_list == old(self).inoculation_list,
            final(self).foreign_functions@ == old(self).foreign_functions@.push(
                ((old(self).foreign_functions@.len() as u8), ForeignFunc { fc_id }),
            ),
            final(self).functions@.len() == old(self).functions@.len() + 1,
            final(self).functions@.subrange(0, old(self).functions@.len() as int) == old(
                self,
            ).functions@,
            final(self).functions@.last().0@ == name@,
            ({
                let stub = final(self).functions@.last().1;
                &&& stub matches AstNode::Function { name: n2, parameters, return_type, body }
                &&& n2@ == name@
                &&& parameters@.len() == 0
                &&& body@.len() == 1
                &&& (body@[0] matches AstNode::ForeignCall(ff, args) && ff.fc_id == fc_id
                    && args@.len() == 0)
            }),
    {
        let idx = self.foreign_functions.len() as u8;
        self.foreign_functions.push((idx, ForeignFunc { fc_id }));
        let body = vec![AstNode::ForeignCall(ForeignFunc { fc_id }, Vec::new())];
        self.functions.push(
            (
                name.clone(),
                AstNode::Function {
                    name: name.clone(),
                    parameters: Vec::new(),
                    return_type: CType::Loc(PType::Pu32),
                    body,
                },
            ),
        );
    }
}

/// A runtime value: the tagged union used both as AST literal and as the
/// interpreter's operand type. A list packs plain values, as when foreign-call
/// arguments are marshalled into a single operand.
#[derive(Debug)]
pub enum Hvalue {
    HNone,
    PString(String),
    Hu8(u8),
    EntityAddress(vm_core::EntityAddress),
    List(Vec<Hvalue>),
    Promise(u8),
}

/// The mathematical shape of an `Hvalue`: strings and lists become sequences.
#[verifier::ext_equal]
pub ghost enum HvalueV {
    VNone,
    VStr(Seq<char>),
    VU8(u8),
    VAddr(vm_core::EntityAddress),
    VList(Seq<HvalueV>),
    VPromise(u8),
}

/// The views of a sequence of values, in order.
pub open spec fn hvalues_view(s: Seq<Hvalue>) -> Seq<HvalueV>
    decreases s,
{
    if s.len() == 0 {
        Seq::empty()
    } else {
        seq![hvalue_view(s[0])] + hvalues_view(s.drop_first())
    }
}

/// The mathematical value an `Hvalue` denotes.
pub open spec fn hvalue_view(v: Hvalue) -> HvalueV
    decreases v,
{
    match v {
        Hvalue::HNone => HvalueV::VNone,
        Hvalue::PString(s) => HvalueV::VStr(s@),
        Hvalue::Hu8(x) => HvalueV::VU8(x),
        Hvalue::EntityAddress(a) => HvalueV::VAddr(a),
        Hvalue::List(items) => HvalueV::VList(hvalues_view(items@)),
        Hvalue::Promise(p) => HvalueV::VPromise(p),
    }
}

impl View for Hvalue {
    type V = HvalueV;

    open spec fn view(&self) -> HvalueV {
        hvalue_view(*self)
    }
}

pub proof fn lemma_hvalues_view_elems(s: Seq<Hvalue>)
    ensures
        hvalues_view(s).len() == s.len(),
        forall|i: int| 0 <= i < s.len() ==> hvalues_view(s)[i] == s[i]@,
    decreases s.len(),
{
    if s.len() > 0 {
        lemma_hvalues_view_elems(s.drop_first());
        assert forall|i: int| 0 <= i < s.len() implies hvalues_view(s)[i] == s[i]@ by {
            if i > 0 {
                assert(hvalues_view(s.drop_first())[i - 1] == s.drop_first()[i - 1]@);
            }
        }
    }
}

impl Hvalue {
    /// An exact copy: the copy and the original have the same view.
    #[verifier::loop_isolation(false)]
    pub fn duplicate(&self) -> (r: Hvalue)
        ensures
            r@ == self@,
        decreases self,
    {
        match self {
            Hvalue::HNone => Hvalue::HNone,
            Hvalue::PString(s) => Hvalue::PString(s.clone()),
            Hvalue::Hu8(v) => Hvalue::Hu8(*v),
            Hvalue::EntityAddress(a) => Hvalue::EntityAddress(*a),
            Hvalue::List(items) => {
                let n = items.len();
                let mut out: Vec<Hvalue> = Vec::new();
                let mut i: usize = 0;
                while i < n
                    invariant
                        0 <= i <= n,
                        out@.len() == i,
                        forall|j: int| 0 <= j < i ==> out@[j]@ == items@[j]@,
                    decreases n - i,
                {
                    out.push(items[i].duplicate());
                    i = i + 1;
                }
                proof {
                    lemma_hvalues_view_elems(out@);
                    lemma_hvalues_view_elems(items@);
                    assert(hvalues_view(out@) =~= hvalues_view(items@));
                }
                Hvalue::List(out)
            },
            Hvalue::Promise(p) => Hvalue::Promise(*p),
        }
    }
}

#[derive(Debug, Clone, Copy, PartialEq, Eq, Structural)]
pub enum BinOp {
    Mul,
    Div,
    Add,
    Sub,
}

#[derive(Debug, Clone, Copy, PartialEq, Eq, Structural)]
pub enum Distance {
    Local,
    Far,
    Alien,
}

#[derive(Debug)]
pub enum PType {
    Void,
    Pu32,
    Pi32,
    Pstr,
    Pbool,
    Entity(String),
    List(Box<CType>),
    Promise(Box<CType>),
}

#[derive(Debug)]
pub enum CType {
    Loc(PType),
    Far(PType),
    Alien(PType),
    Void,
}

impl PType {
    /// A structural copy.
    pub fn duplicate(&self) -> (r: PType)
        decreases self,
    {
        match self {
            PType::Void => PType::Void,
            PType::Pu32 => PType::Pu32,
            PType::Pi32 => PType::Pi32,
            PType::Pstr => PType::Pstr,
            PType::Pbool => PType::Pbool,
            PType::Entity(s) => PType::Entity(s.clone()),
            PType::List(t) => PType::List(Box::new(t.duplicate())),
            PType::Promise(t) => PType::Promise(Box::new(t.duplicate())),
        }
    }
}

impl CType {
    /// A structural copy.
    pub fn duplicate(&self) -> (r: CType)
        decreases self,
    {
        match self {
            CType::Loc(t) => CType::Loc(t.duplicate()),
            CType::Far(t) => CType::Far(t.duplicate()),
            CType::Alien(t) => CType::Alien(t.duplicate()),
            CType::Void => CType::Void,
        }
    }
}

} // verus!
