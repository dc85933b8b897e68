//! The compilation pipeline: entity id assignment, the entity-construction
//! rewrite, variable-scope resolution, type gathering and code generation,
//! producing one module's bytes — header tables first, code after.

use vstd::prelude::*;
use crate::ast::{AstNode, CallType, EntityDef, FunctionCall, Module};
use crate::codegen::{
    default_entries_bytes, expected_default_entries, func_entries_bytes,
    lemma_defaults_table_parses, lemma_expected_defaults_len, lemma_expected_defaults_ok,
    lemma_func_table_parses, total_fields, CompileError, GatherModuleTypes, GenCode, VariableFlow,
};
use crate::pbin::{spec_parse_data_table, spec_parse_func_table, DataEntryV, FuncEntry};

verus! {

/// Assigns each entity type a dense id, in the order the module's
/// definitions stand.
pub struct ConstructSymbolTable {
    pub entity_ids: Vec<(String, u32)>,
    pub current_id: u32,
}

impl ConstructSymbolTable {
    pub fn new() -> (r: ConstructSymbolTable)
        ensures
            r.entity_ids@.len() == 0,
            r.current_id == 0,
    {
        ConstructSymbolTable { entity_ids: Vec::new(), current_id: 0 }
    }

    /// Records one entity definition under the next free id.
    pub fn visit_entity_def(&mut self, name: &String)
        requires
            old(self).current_id < u32::MAX,
        ensures
            final(self).entity_ids@.len() == old(self).entity_ids@.len() + 1,
            final(self).entity_ids@.subrange(0, old(self).entity_ids@.len() as int) == old(
                self,
            ).entity_ids@,
            final(self).entity_ids@.last().0@ == name@,
            final(self).entity_ids@.last().1 == old(self).current_id,
            final(self).current_id == old(self).current_id + 1,
    {
        self.entity_ids.push((name.clone(), self.current_id));
        self.current_id = self.current_id + 1;
        proof {
            assert(self.entity_ids@.subrange(0, old(self).entity_ids@.len() as int) =~= old(
                self,
            ).entity_ids@);
        }
    }

    /// Walks a module, assigning dense ids in definition order: the k-th
    /// definition gets id `current_id + k`. It succeeds exactly when the id
    /// space does not run out.
    pub fn visit_module(&mut self, module: &Module) -> (r: Result<(), CompileError>)
        ensures
            final(self).entity_ids@.subrange(0, old(self).entity_ids@.len() as int) == old(
                self,
            ).entity_ids@,
            r is Ok <==> old(self).current_id + module.entity_defs@.len() <= u32::MAX,
            r is Ok ==> ({
                &&& final(self).entity_ids@.len() == old(self).entity_ids@.len()
                    + module.entity_defs@.len()
                &&& (forall|k: int| 0 <= k < module.entity_defs@.len()
                    ==> (#[trigger] final(self).entity_ids@[old(self).entity_ids@.len() + k]).0@
                    == module.entity_defs@[k].0@ && final(self).entity_ids@[old(
                    self,
                ).entity_ids@.len() + k].1 == old(self).current_id + k)
                &&& final(self).current_id == old(self).current_id
                    + module.entity_defs@.len()
            }),
    {
        let n = module.entity_defs.len();
        let mut i: usize = 0;
        proof {
            assert(self.entity_ids@.subrange(0, old(self).entity_ids@.len() as int) =~= old(
                self,
            ).entity_ids@);
        }
        while i < n
            invariant
                0 <= i <= n,
                n == module.entity_defs@.len(),
                self.entity_ids@.len() == old(self).entity_ids@.len() + i,
                self.entity_ids@.subrange(0, old(self).entity_ids@.len() as int) == old(
                    self,
                ).entity_ids@,
                self.current_id == old(self).current_id + i,
                forall|k: int| 0 <= k < i ==> (#[trigger] self.entity_ids@[old(
                    self,
                ).entity_ids@.len() + k]).0@ == module.entity_defs@[k].0@
                    && self.entity_ids@[old(self).entity_ids@.len() + k].1 == old(
                    self,
                ).current_id + k,
            decreases n - i,
        {
            if self.current_id == u32::MAX {
                return Result::Err(CompileError::FrontEndError);
            }
            let ghost pre = self.entity_ids@;
            self.visit_entity_def(&module.entity_defs[i].0);
            proof {
                assert(self.entity_ids@.subrange(0, old(self).entity_ids@.len() as int) =~= old(
                    self,
                ).entity_ids@);
                assert forall|k: int| 0 <= k < i + 1 implies (#[trigger] self.entity_ids@[old(
                    self,
                ).entity_ids@.len() + k]).0@ == module.entity_defs@[k].0@
                    && self.entity_ids@[old(self).entity_ids@.len() + k].1 == old(
                    self,
                ).current_id + k by {
                    if k < i {
                        assert(self.entity_ids@.subrange(0, pre.len() as int)[old(
                            self,
                        ).entity_ids@.len() + k] == pre[old(self).entity_ids@.len() + k]);
                    }
                }
            }
            i = i + 1;
        }
        Result::Ok(())
    }
}

/// Whether a character is upper case, as the host's Unicode tables have it;
/// the answer depends on the character alone.
pub uninterp spec fn uppercase_char(c: char) -> bool;

/// Relies on `char::is_uppercase`: whether a character is upper case is a
/// function of the character alone.
#[verifier::external_body]
fn char_is_uppercase(c: char) -> (r: bool)
    ensures
        r == uppercase_char(c),
{
    c.is_uppercase()
}


/// The construction rewrite, as a relation between the tree walked and the
/// tree produced: every node keeps its form, names and values, and every
/// call site's kind follows the upper-case rule.
pub open spec fn emplaced_all(a: Seq<AstNode>, b: Seq<AstNode>) -> bool
    decreases a,
{
    &&& a.len() == b.len()
    &&& (a.len() > 0 ==> emplaced(a[0], b[0]) && emplaced_all(a.drop_first(), b.drop_first()))
}

pub open spec fn emplaced(a: AstNode, b: AstNode) -> bool
    decreases a,
{
    match a {
        AstNode::FunctionCall(fc) => b matches AstNode::FunctionCall(fc2) && ({
            &&& fc2.identifier == fc.identifier
            &&& fc2.func_name@ == fc.func_name@
            &&& fc2.call_type == (if fc.identifier.original_sym@.len() > 0 && uppercase_char(
                fc.identifier.original_sym@[0],
            ) {
                CallType::NewEntity
            } else {
                fc.call_type
            })
            &&& emplaced_all(fc.arguments@, fc2.arguments@)
        }),
        AstNode::DefinitionNode(sym, e) => b matches AstNode::DefinitionNode(s2, e2) && s2 == sym
            && emplaced(*e, *e2),
        AstNode::AssignmentNode(sym, e) => b matches AstNode::AssignmentNode(s2, e2) && s2 == sym
            && emplaced(*e, *e2),
        AstNode::Message(id, fname, args) => b matches AstNode::Message(id2, f2, args2) && id2
            == id && f2@ == fname@ && emplaced_all(args@, args2@),
        AstNode::ForeignCall(ff, args) => b matches AstNode::ForeignCall(ff2, args2) && ff2 == ff
            && emplaced_all(args@, args2@),
        AstNode::Return(e) => b matches AstNode::Return(e2) && emplaced(*e, *e2),
        AstNode::Await(e) => b matches AstNode::Await(e2) && emplaced(*e, *e2),
        AstNode::Print(e) => b matches AstNode::Print(e2) && emplaced(*e, *e2),
        AstNode::OperatorNode(x, op, y) => b matches AstNode::OperatorNode(x2, op2, y2) && op2
            == op && emplaced(*x, *x2) && emplaced(*y, *y2),
        AstNode::Index(x, y) => b matches AstNode::Index(x2, y2) && emplaced(*x, *x2) && emplaced(
            *y,
            *y2,
        ),
        AstNode::Identifier(sym) => b matches AstNode::Identifier(s2) && s2 == sym,
        AstNode::ValueNode(v) => b matches AstNode::ValueNode(v2) && v2@ == v@,
        AstNode::ImportModule(n) => b matches AstNode::ImportModule(n2) && n2@ == n@,
        _ => b is Error,
    }
}

/// The rewrite relation for one function definition node.
pub open spec fn emplaced_fn(a: AstNode, b: AstNode) -> bool {
    match a {
        AstNode::Function { name, parameters, return_type, body } => b matches AstNode::Function {
            name: n2,
            parameters: p2,
            return_type: rt2,
            body: b2,
        } && ({
            &&& n2@ == name@
            &&& p2@.len() == parameters@.len()
            &&& (forall|i: int| 0 <= i < parameters@.len() ==> (#[trigger] p2@[i]).0
                == parameters@[i].0)
            &&& emplaced_all(body@, b2@)
        }),
        _ => b is Error,
    }
}

/// The rewrite relation for one entity definition: names, fields and
/// foreign bindings kept, every function rewritten.
pub open spec fn emplaced_def(a: EntityDef, b: EntityDef) -> bool {
    &&& b.name@ == a.name@
    &&& b.data_declarations@.len() == a.data_declarations@.len()
    &&& (forall|i: int| 0 <= i < a.data_declarations@.len()
        ==> (#[trigger] b.data_declarations@[i]).0 == a.data_declarations@[i].0)
    &&& b.inoculation_list@.len() == a.inoculation_list@.len()
    &&& (forall|i: int| 0 <= i < a.inoculation_list@.len()
        ==> (#[trigger] b.inoculation_list@[i]).0 == a.inoculation_list@[i].0)
    &&& b.foreign_functions@ == a.foreign_functions@
    &&& b.functions@.len() == a.functions@.len()
    &&& (forall|i: int| 0 <= i < a.functions@.len() ==> (#[trigger] b.functions@[i]).0
        == a.functions@[i].0 && emplaced_fn(a.functions@[i].1, b.functions@[i].1))
}

pub proof fn lemma_emplaced_all_elems(a: Seq<AstNode>, b: Seq<AstNode>)
    requires
        a.len() == b.len(),
        forall|i: int| 0 <= i < a.len() ==> emplaced(#[trigger] a[i], b[i]),
    ensures
        emplaced_all(a, b),
    decreases a.len(),
{
    if a.len() > 0 {
        assert forall|i: int| 0 <= i < a.drop_first().len() implies emplaced(
            #[trigger] a.drop_first()[i],
            b.drop_first()[i],
        ) by {
            assert(a.drop_first()[i] == a[i + 1]);
            assert(b.drop_first()[i] == b[i + 1]);
        }
        lemma_emplaced_all_elems(a.drop_first(), b.drop_first());
    }
}

/// The entity-construction rewrite: a call whose callee identifier starts
/// with an upper-case letter constructs a new entity rather than calling an
/// ordinary function.
pub struct EmplaceEntityConstruction {}

impl EmplaceEntityConstruction {
    /// Reclassifies one call site.
    pub fn visit_function_call(&self, fc: &FunctionCall, arguments: Vec<AstNode>) -> (r:
        FunctionCall)
        ensures
            r.identifier == fc.identifier,
            r.func_name@ == fc.func_name@,
            r.call_type == (if fc.identifier.original_sym@.len() > 0 && uppercase_char(
                fc.identifier.original_sym@[0],
            ) {
                CallType::NewEntity
            } else {
                fc.call_type
            }),
            r.arguments == arguments,
    {
        let name: &str = fc.identifier.original_sym.as_str();
        let call_type = if name.unicode_len() > 0 {
            let c0 = name.get_char(0);
            if char_is_uppercase(c0) {
                CallType::NewEntity
            } else {
                fc.call_type
            }
        } else {
            fc.call_type
        };
        FunctionCall {
            call_type,
            identifier: crate::ast::Identifier {
                original_sym: fc.identifier.original_sym.clone(),
                unique_sym: fc.identifier.unique_sym.clone(),
                target: fc.identifier.target,
            },
            func_name: fc.func_name.clone(),
            arguments,
        }
    }

    /// Walks one statement or expression, reclassifying every call site.
    #[verifier::loop_isolation(false)]
    pub fn visit_node(&self, node: &AstNode) -> (r: AstNode)
        ensures
            emplaced(*node, r),
        decreases node,
    {
        match node {
            AstNode::FunctionCall(fc) => {
                let n = fc.arguments.len();
                let mut out: Vec<AstNode> = Vec::new();
                let mut i: usize = 0;
                while i < n
                    invariant
                        0 <= i <= n,
                        out@.len() == i,
                        forall|j: int| 0 <= j < i ==> emplaced(
                            #[trigger] fc.arguments@[j],
                            out@[j],
                        ),
                    decreases n - i,
                {
                    let a = self.visit_node(&fc.arguments[i]);
                    out.push(a);
                    i = i + 1;
                }
                proof {
                    lemma_emplaced_all_elems(fc.arguments@, out@);
                }
                AstNode::FunctionCall(self.visit_function_call(fc, out))
            },
            AstNode::DefinitionNode(sym, e) => {
                let e2 = self.visit_node(e);
                AstNode::DefinitionNode(sym.duplicate(), Box::new(e2))
            },
            AstNode::AssignmentNode(sym, e) => {
                let e2 = self.visit_node(e);
                AstNode::AssignmentNode(sym.duplicate(), Box::new(e2))
            },
            AstNode::Message(id, fname, args) => {
                let n = args.len();
                let mut out: Vec<AstNode> = Vec::new();
                let mut i: usize = 0;
                while i < n
                    invariant
                        0 <= i <= n,
                        out@.len() == i,
                        forall|j: int| 0 <= j < i ==> emplaced(#[trigger] args@[j], out@[j]),
                    decreases n - i,
                {
                    let a = self.visit_node(&args[i]);
                    out.push(a);
                    i = i + 1;
                }
                proof {
                    lemma_emplaced_all_elems(args@, out@);
                }
                AstNode::Message(id.duplicate(), fname.clone(), out)
            },
            AstNode::ForeignCall(ff, args) => {
                let n = args.len();
                let mut out: Vec<AstNode> = Vec::new();
                let mut i: usize = 0;
                while i < n
                    invariant
                        0 <= i <= n,
                        out@.len() == i,
                        forall|j: int| 0 <= j < i ==> emplaced(#[trigger] args@[j], out@[j]),
                    decreases n - i,
                {
                    let a = self.visit_node(&args[i]);
                    out.push(a);
                    i = i + 1;
                }
                proof {
                    lemma_emplaced_all_elems(args@, out@);
                }
                AstNode::ForeignCall(*ff, out)
            },
            AstNode::Return(e) => AstNode::Return(Box::new(self.visit_node(e))),
            AstNode::Await(e) => AstNode::Await(Box::new(self.visit_node(e))),
            AstNode::Print(e) => AstNode::Print(Box::new(self.visit_node(e))),
            AstNode::OperatorNode(a, op, b) => AstNode::OperatorNode(
                Box::new(self.visit_node(a)),
                *op,
                Box::new(self.visit_node(b)),
            ),
            AstNode::Index(a, b) => AstNode::Index(
                Box::new(self.visit_node(a)),
                Box::new(self.visit_node(b)),
            ),
            AstNode::Identifier(sym) => AstNode::Identifier(sym.duplicate()),
            AstNode::ValueNode(v) => AstNode::ValueNode(v.duplicate()),
            AstNode::ImportModule(s) => AstNode::ImportModule(s.clone()),
            _ => AstNode::Error,
        }
    }

    /// Walks one function body.
    pub fn visit_function(
        &self,
        name: &String,
        parameters: &Vec<(String, crate::ast::CType)>,
        return_type: &crate::ast::CType,
        body: &Vec<AstNode>,
    ) -> (r: AstNode)
        ensures
            (r matches AstNode::Function { name: n2, parameters: p2, return_type: rt2, body: b2 }
                && n2@ == name@ && p2@.len() == parameters@.len() && (forall|i: int|
                0 <= i < parameters@.len() ==> (#[trigger] p2@[i]).0 == parameters@[i].0)
                && emplaced_all(body@, b2@)),
    {
        let np = parameters.len();
        let mut params: Vec<(String, crate::ast::CType)> = Vec::new();
        let mut i: usize = 0;
        while i < np
            invariant
                0 <= i <= np,
                np == parameters@.len(),
                params@.len() == i,
                forall|k: int| 0 <= k < i ==> (#[trigger] params@[k]).0 == parameters@[k].0,
            decreases np - i,
        {
            params.push((parameters[i].0.clone(), parameters[i].1.duplicate()));
            i = i + 1;
        }
        let n = body.len();
        let mut out: Vec<AstNode> = Vec::new();
        let mut j: usize = 0;
        while j < n
            invariant
                0 <= j <= n,
                n == body@.len(),
                out@.len() == j,
                forall|k: int| 0 <= k < j ==> emplaced(#[trigger] body@[k], out@[k]),
            decreases n - j,
        {
            out.push(self.visit_node(&body[j]));
            j = j + 1;
        }
        proof {
            lemma_emplaced_all_elems(body@, out@);
        }
        AstNode::Function {
            name: name.clone(),
            parameters: params,
            return_type: return_type.duplicate(),
            body: out,
        }
    }

    /// Walks a whole module: every entity definition, in order.
    pub fn visit_module(&self, module: &Module) -> (r: Module)
        ensures
            r.entity_defs@.len() == module.entity_defs@.len(),
            forall|i: int| 0 <= i < module.entity_defs@.len() ==> ({
                &&& (#[trigger] r.entity_defs@[i]).0@ == module.entity_defs@[i].0@
                &&& (module.entity_defs@[i].1 matches AstNode::EntityDef(d)
                    ==> (r.entity_defs@[i].1 matches AstNode::EntityDef(d2) && emplaced_def(
                    d,
                    d2,
                )))
                &&& (!(module.entity_defs@[i].1 is EntityDef) ==> r.entity_defs@[i].1 is Error)
            }),
    {
        let n = module.entity_defs.len();
        let mut out: Vec<(String, AstNode)> = Vec::new();
        let mut i: usize = 0;
        while i < n
            invariant
                0 <= i <= n,
                n == module.entity_defs@.len(),
                out@.len() == i,
                forall|k: int| 0 <= k < i ==> ({
                    &&& (#[trigger] out@[k]).0@ == module.entity_defs@[k].0@
                    &&& (module.entity_defs@[k].1 matches AstNode::EntityDef(d) ==> (out@[k].1
                        matches AstNode::EntityDef(d2) && emplaced_def(d, d2)))
                    &&& (!(module.entity_defs@[k].1 is EntityDef) ==> out@[k].1 is Error)
                }),
            decreases n - i,
        {
            let edef = match &module.entity_defs[i].1 {
                AstNode::EntityDef(d) => {
                    let nf = d.functions.len();
                    let mut funcs: Vec<(String, AstNode)> = Vec::new();
                    let mut f: usize = 0;
                    while f < nf
                        invariant
                            0 <= f <= nf,
                            nf == d.functions@.len(),
                            funcs@.len() == f,
                            forall|k: int| 0 <= k < f ==> (#[trigger] funcs@[k]).0
                                == d.functions@[k].0 && emplaced_fn(
                                d.functions@[k].1,
                                funcs@[k].1,
                            ),
                        decreases nf - f,
                    {
                        let fdef = match &d.functions[f].1 {
                            AstNode::Function { name, parameters, return_type, body } => self
                                .visit_function(name, parameters, return_type, body),
                            _ => AstNode::Error,
                        };
                        funcs.push((d.functions[f].0.clone(), fdef));
                        f = f + 1;
                    }
                    let nd = d.data_declarations.len();
                    let mut data: Vec<(String, crate::ast::CType)> = Vec::new();
                    let mut x: usize = 0;
                    while x < nd
                        invariant
                            0 <= x <= nd,
                            nd == d.data_declarations@.len(),
                            data@.len() == x,
                            forall|k: int| 0 <= k < x ==> (#[trigger] data@[k]).0
                                == d.data_declarations@[k].0,
                        decreases nd - x,
                    {
                        data.push(
                            (d.data_declarations[x].0.clone(), d.data_declarations[x].1.duplicate()),
                        );
                        x = x + 1;
                    }
                    let ninoc = d.inoculation_list.len();
                    let mut inoc: Vec<(String, crate::ast::CType)> = Vec::new();
                    let mut y: usize = 0;
                    while y < ninoc
                        invariant
                            0 <= y <= ninoc,
                            ninoc == d.inoculation_list@.len(),
                            inoc@.len() == y,
                            forall|k: int| 0 <= k < y ==> (#[trigger] inoc@[k]).0
                                == d.inoculation_list@[k].0,
                        decreases ninoc - y,
                    {
                        inoc.push(
                            (d.inoculation_list[y].0.clone(), d.inoculation_list[y].1.duplicate()),
                        );
                        y = y + 1;
                    }
                    let nff = d.foreign_functions.len();
                    let mut ffs: Vec<(u8, crate::ast::ForeignFunc)> = Vec::new();
                    let mut z: usize = 0;
                    while z < nff
                        invariant
                            0 <= z <= nff,
                            nff == d.foreign_functions@.len(),
                            ffs@.len() == z,
                            forall|k: int| 0 <= k < z ==> #[trigger] ffs@[k]
                                == d.foreign_functions@[k],
                        decreases nff - z,
                    {
                        ffs.push(d.foreign_functions[z]);
                        z = z + 1;
                    }
                    proof {
                        assert(ffs@ =~= d.foreign_functions@);
                    }
                    AstNode::EntityDef(
                        EntityDef {
                            name: d.name.clone(),
                            data_declarations: data,
                            inoculation_list: inoc,
                            functions: funcs,
                            foreign_functions: ffs,
                        },
                    )
                },
                _ => AstNode::Error,
            };
            out.push((module.entity_defs[i].0.clone(), edef));
            i = i + 1;
        }
        Module { imports: Vec::new(), entity_defs: out }
    }
}

/// Compiles one well-formed module to its byte image: the data-defaults,
/// inoculation-defaults and function-location tables in that order, then
/// the code, with every same-module call site patched to its final
/// absolute target. A compiled image's three header tables always parse
/// back, one after the other, from the front of the image.
#[verifier::rlimit(100)]
#[verifier::spinoff_prover]
pub fn compile_from_ast(module: &Module) -> (r: Result<Vec<u8>, CompileError>)
    ensures
        r matches Ok(b) ==> exists|
            d: Seq<DataEntryV>,
            it: Seq<DataEntryV>,
            ft: Seq<FuncEntry>,
            z: int,
            q: int,
            cend: int,
        |
            {
                &&& #[trigger] spec_parse_data_table(b@, 0) == Option::Some((z, d))
                &&& spec_parse_data_table(b@, z) == Option::Some((q, it))
                &&& spec_parse_func_table(b@, q) == Option::Some((cend, ft))
                &&& 0 < z <= q <= cend <= b@.len()
            },
{
    let mut est = ConstructSymbolTable::new();
    match est.visit_module(module) {
        Result::Ok(()) => (),
        Result::Err(e) => {
            return Result::Err(e);
        },
    }
    let ec = EmplaceEntityConstruction {};
    let module = ec.visit_module(module);
    let mut vf = VariableFlow { inoc_vars: Vec::new(), entity_vars: Vec::new(), local_vars: Vec::new() };
    let module = vf.visit_module(&module);
    let mut gt = GatherModuleTypes {
        entity_function_types: Vec::new(),
        entities_and_functions: Vec::new(),
    };
    let n = module.entity_defs.len();
    let mut i: usize = 0;
    while i < n
        invariant
            0 <= i <= n,
            n == module.entity_defs@.len(),
        decreases n - i,
    {
        match &module.entity_defs[i].1 {
            AstNode::EntityDef(d) => {
                if d.functions.len() as u64 >= 0x1_0000_0000u64 {
                    return Result::Err(CompileError::FrontEndError);
                }
                gt.visit_entity_def(&module.entity_defs[i].0, &d.functions);
            },
            _ => {
                return Result::Err(CompileError::FrontEndError);
            },
        }
        i = i + 1;
    }
    let mut cg = GenCode {
        header: Vec::new(),
        code: Vec::new(),
        symbol_table: Vec::new(),
        entities_and_functions: gt.entities_and_functions,
        entity_function_locations: Vec::new(),
        entity_data_values: Vec::new(),
        entity_inoculation_values: Vec::new(),
        entity_function_types: gt.entity_function_types,
        current_entity_id: 0,
        current_func_id: 0,
        absolute_entity_function_locations: Vec::new(),
        function_num: Vec::new(),
        relocations: Vec::new(),
        entity_table: est.entity_ids,
    };
    proof {
        assert(cg.header@ =~= Seq::<u8>::empty());
    }
    let mut j: usize = 0;
    while j < n
        invariant
            0 <= j <= n,
            n == module.entity_defs@.len(),
            cg.relocs_wf(),
            cg.header@ == Seq::<u8>::empty(),
        decreases n - j,
    {
        match &module.entity_defs[j].1 {
            AstNode::EntityDef(d) => {
                match cg.visit_entity_def(d) {
                    Result::Ok(()) => (),
                    Result::Err(e) => {
                        return Result::Err(e);
                    },
                }
            },
            _ => {
                return Result::Err(CompileError::FrontEndError);
            },
        }
        j = j + 1;
    }
    let ghost pre_tables = cg;
    match cg.build_entity_data_table() {
        Result::Ok(()) => (),
        Result::Err(e) => {
            return Result::Err(e);
        },
    }
    let ghost dvals = pre_tables.entity_data_values@;
    let ghost dcnt = total_fields(dvals) as u8;
    let ghost dents = expected_default_entries(dvals);
    let ghost dbytes = seq![dcnt] + default_entries_bytes(dents);
    let ghost after_data = cg;
    match cg.build_entity_inoculation_table() {
        Result::Ok(()) => (),
        Result::Err(e) => {
            return Result::Err(e);
        },
    }
    let ghost ivals = after_data.entity_inoculation_values@;
    let ghost icnt = total_fields(ivals) as u8;
    let ghost ients = expected_default_entries(ivals);
    let ghost ibytes = seq![icnt] + default_entries_bytes(ients);
    let ghost after_inoc = cg;
    match cg.build_entity_function_location_table() {
        Result::Ok(()) => (),
        Result::Err(e) => {
            return Result::Err(e);
        },
    }
    let ghost fvals = after_inoc.entity_function_locations@;
    let ghost fcnt = fvals.len() as u8;
    let ghost fents = crate::codegen::expected_func_entries(
        fvals,
        after_inoc.header@.len() as int,
    );
    let ghost fbytes = seq![fcnt] + func_entries_bytes(fents);
    match cg.relocate_functions() {
        Result::Ok(()) => (),
        Result::Err(e) => {
            return Result::Err(e);
        },
    }
    let ghost code_bytes = cg.code@;
    let mut complete_output: Vec<u8> = cg.header;
    let mut code = cg.code;
    complete_output.append(&mut code);
    proof {
        assert(pre_tables.header@ =~= Seq::<u8>::empty());
        assert(after_data.header@ =~= dbytes);
        assert(after_inoc.header@ =~= dbytes + ibytes);
        assert(complete_output@ =~= (dbytes + ibytes + fbytes) + code_bytes);
        lemma_expected_defaults_len(dvals);
        lemma_expected_defaults_len(ivals);
        lemma_expected_defaults_ok(dvals);
        lemma_expected_defaults_ok(ivals);
        lemma_defaults_table_parses(
            Seq::<u8>::empty(),
            dcnt,
            dents,
            ibytes + fbytes + code_bytes,
        );
        assert(Seq::<u8>::empty() + (seq![dcnt] + default_entries_bytes(dents)) + (ibytes
            + fbytes + code_bytes) =~= complete_output@);
        let z0 = 1 + default_entries_bytes(dents).len() as int;
        lemma_defaults_table_parses(dbytes, icnt, ients, fbytes + code_bytes);
        assert(dbytes + (seq![icnt] + default_entries_bytes(ients)) + (fbytes + code_bytes)
            =~= complete_output@);
        let q0 = dbytes.len() + 1 + default_entries_bytes(ients).len() as int;
        lemma_func_table_parses(dbytes + ibytes, fcnt, fents, code_bytes);
        assert((dbytes + ibytes) + (seq![fcnt] + func_entries_bytes(fents)) + code_bytes
            =~= complete_output@);
        let c0 = (dbytes + ibytes).len() + 1 + func_entries_bytes(fents).len() as int;
        assert(spec_parse_data_table(complete_output@, 0) == Option::Some((z0 as int, dents)));
        assert(spec_parse_data_table(complete_output@, z0 as int) == Option::Some(
            (q0 as int, ients),
        ));
        assert(spec_parse_func_table(complete_output@, q0 as int) == Option::Some(
            (c0 as int, fents),
        ));
    }
    Result::Ok(complete_output)
}

} // verus!
