//! The compiler passes: index assignment, scope resolution, the
//! construction rewrite and relocation.

use pleroma::ast::{
    AstNode, CType, CallType, FunctionCall, Identifier, IdentifierTarget, Module, EntityDef, PType,
};
use pleroma::codegen::{compare_function_names, GatherModuleTypes, GenCode, VariableFlow};
use pleroma::codegen::derive_type;
use pleroma::compile::{compile_from_ast, ConstructSymbolTable, EmplaceEntityConstruction};

fn func_stub(name: &str) -> (String, AstNode) {
    (
        String::from(name),
        AstNode::Function {
            name: String::from(name),
            parameters: Vec::new(),
            return_type: CType::Void,
            body: Vec::new(),
        },
    )
}

fn ident(name: &str) -> Identifier {
    Identifier {
        original_sym: String::from(name),
        unique_sym: String::from(name),
        target: IdentifierTarget::Undecided,
    }
}

#[test]
fn function_index_determinism() {
    let mut gt = GatherModuleTypes {
        entity_function_types: Vec::new(),
        entities_and_functions: Vec::new(),
    };
    let functions = vec![func_stub("create"), func_stub("b"), func_stub("a")];
    gt.visit_entity_def(&String::from("Counter"), &functions);
    let (ename, fids) = &gt.entities_and_functions[0];
    assert_eq!(ename, "Counter");
    let order: Vec<(String, u32)> = fids.clone();
    assert_eq!(order[0], (String::from("create"), 0));
    assert_eq!(order[1], (String::from("a"), 1));
    assert_eq!(order[2], (String::from("b"), 2));
}

#[test]
fn create_always_sorts_first() {
    assert!(compare_function_names(&String::from("create"), &String::from("aaa")));
    assert!(!compare_function_names(&String::from("aaa"), &String::from("create")));
    assert!(compare_function_names(&String::from("alpha"), &String::from("beta")));
    assert!(!compare_function_names(&String::from("beta"), &String::from("alpha")));
}

#[test]
fn variable_resolution_by_scope_order() {
    let vf = VariableFlow {
        inoc_vars: vec![String::from("dep")],
        entity_vars: vec![String::from("self"), String::from("x")],
        local_vars: vec![String::from("y")],
    };
    let rx = vf.visit_identifier(&ident("x"));
    assert_eq!(rx.target, IdentifierTarget::EntityVar);
    let ry = vf.visit_identifier(&ident("y"));
    assert_eq!(ry.target, IdentifierTarget::LocalVar);
    let rd = vf.visit_identifier(&ident("dep"));
    assert_eq!(rd.target, IdentifierTarget::InocVar);
    let rz = vf.visit_identifier(&ident("z"));
    assert_eq!(rz.target, IdentifierTarget::Undecided);
}

#[test]
fn construction_rewrite_on_uppercase_callees() {
    let ec = EmplaceEntityConstruction {};
    let call = FunctionCall {
        call_type: CallType::Ordinary,
        identifier: ident("Counter"),
        func_name: String::from("create"),
        arguments: Vec::new(),
    };
    let r = ec.visit_function_call(&call, Vec::new());
    assert_eq!(r.call_type, CallType::NewEntity);
    let plain = FunctionCall {
        call_type: CallType::Ordinary,
        identifier: ident("counter"),
        func_name: String::from("tick"),
        arguments: Vec::new(),
    };
    let r2 = ec.visit_function_call(&plain, Vec::new());
    assert_eq!(r2.call_type, CallType::Ordinary);
}

#[test]
fn entity_ids_in_definition_order() {
    let mut est = ConstructSymbolTable::new();
    est.visit_entity_def(&String::from("Monad"));
    est.visit_entity_def(&String::from("Worker"));
    assert_eq!(est.entity_ids[0], (String::from("Monad"), 0));
    assert_eq!(est.entity_ids[1], (String::from("Worker"), 1));
    assert_eq!(est.current_id, 2);
}

fn empty_gencode() -> GenCode {
    GenCode {
        header: Vec::new(),
        code: Vec::new(),
        symbol_table: Vec::new(),
        entities_and_functions: Vec::new(),
        entity_function_locations: Vec::new(),
        entity_data_values: Vec::new(),
        entity_inoculation_values: Vec::new(),
        entity_function_types: Vec::new(),
        current_entity_id: 0,
        current_func_id: 0,
        absolute_entity_function_locations: Vec::new(),
        function_num: Vec::new(),
        relocations: Vec::new(),
        entity_table: Vec::new(),
    }
}

#[test]
fn a_construction_site_emits_the_exact_opcode_and_no_relocation() {
    let mut g = empty_gencode();
    g.entity_table = vec![(String::from("Monad"), 0), (String::from("Worker"), 1)];
    let call = FunctionCall {
        call_type: CallType::NewEntity,
        identifier: ident("Worker"),
        func_name: String::from("create"),
        arguments: vec![
            AstNode::ValueNode(pleroma::ast::Hvalue::Hu8(4)),
            AstNode::ValueNode(pleroma::ast::Hvalue::Hu8(2)),
        ],
    };
    g.visit_function_call(&call).unwrap();
    // the arguments, then the construction opcode with (entity id, argc)
    let mut expect = Vec::new();
    expect.extend_from_slice(&pleroma::opcodes::encode_instruction(
        &pleroma::opcodes::Op::Push(pleroma::ast::Hvalue::Hu8(4)),
    ));
    expect.extend_from_slice(&pleroma::opcodes::encode_instruction(
        &pleroma::opcodes::Op::Push(pleroma::ast::Hvalue::Hu8(2)),
    ));
    expect.extend_from_slice(&pleroma::opcodes::encode_instruction(
        &pleroma::opcodes::Op::ConstructEntity(1, 2),
    ));
    assert_eq!(g.code, expect);
    assert!(g.relocations.is_empty());
}

#[test]
fn relocation_patches_the_recorded_absolute_target() {
    let mut cg = empty_gencode();
    cg.code = vec![8, 0, 0, 0, 0, 0, 0, 0, 0, 0];  // a call opcode and its placeholder
    cg.relocations = vec![(0, 0, 1)];
    cg.absolute_entity_function_locations = vec![(0, 0, 42)];
    cg.relocate_functions().unwrap();
    assert_eq!(&cg.code[1..9], &[0, 0, 0, 0, 0, 0, 0, 42]);
}

#[test]
fn relocation_of_an_unknown_pair_is_a_link_error() {
    let mut cg = empty_gencode();
    cg.code = vec![8, 0, 0, 0, 0, 0, 0, 0, 0, 0];
    cg.relocations = vec![(0, 3, 1)];
    cg.absolute_entity_function_locations = vec![(0, 0, 42)];
    assert!(cg.relocate_functions().is_err());
}

#[test]
fn whole_module_compiles_and_loads() {
    // one entity, one constructor returning a byte
    let body = vec![AstNode::Return(Box::new(AstNode::ValueNode(
        pleroma::ast::Hvalue::Hu8(3),
    )))];
    let def = EntityDef {
        name: String::from("Monad"),
        data_declarations: Vec::new(),
        inoculation_list: Vec::new(),
        functions: vec![(
            String::from("create"),
            AstNode::Function {
                name: String::from("create"),
                parameters: Vec::new(),
                return_type: CType::Void,
                body,
            },
        )],
        foreign_functions: Vec::new(),
    };
    let module = Module {
        imports: Vec::new(),
        entity_defs: vec![(String::from("Monad"), AstNode::EntityDef(def))],
    };
    let bytes = compile_from_ast(&module).unwrap();
    // the compiled module boots a vat whose constructor yields the byte
    let mut vat = pleroma::monad::load_monad(bytes).unwrap();
    let request = pleroma::vm_core::Msg {
        src_address: pleroma::vm_core::EntityAddress::new(0, 0, 5),
        dst_address: pleroma::vm_core::EntityAddress::new(0, 1, 0),
        contents: pleroma::vm_core::MsgContents::Request {
            args: Vec::new(),
            function_id: 0,
            src_promise: Some(2),
            no_response: false,
        },
    };
    let r = pleroma::vm::run_msg(&mut vat, &request, 10_000).unwrap();
    match r {
        pleroma::vm::RunMsgOutcome::Done(Some(m)) => match m.contents {
            pleroma::vm_core::MsgContents::Response { result, dst_promise } => {
                assert!(matches!(result, pleroma::ast::Hvalue::Hu8(3)));
                assert_eq!(dst_promise, Some(2));
            },
            other => panic!("unexpected contents {:?}", other),
        },
        other => panic!("expected a response, got {:?}", other),
    }
}

#[test]
fn definitions_record_the_constructed_entity_type() {
    let construction = AstNode::FunctionCall(FunctionCall {
        call_type: CallType::NewEntity,
        identifier: ident("Counter"),
        func_name: String::from("create"),
        arguments: Vec::new(),
    });
    match derive_type(&construction) {
        CType::Loc(PType::Entity(e)) => assert_eq!(e, "Counter"),
        other => panic!("unexpected type {:?}", other),
    }
    assert!(matches!(derive_type(&AstNode::Error), CType::Void));
}

#[test]
fn construction_sites_lower_to_the_construction_opcode() {
    // Monad.create constructs a Worker: the upper-case callee drives the
    // rewrite, and code generation emits the construction opcode carrying
    // the Worker entity's id and the argument count, with no relocation
    let body = vec![AstNode::Return(Box::new(AstNode::FunctionCall(FunctionCall {
        call_type: CallType::Ordinary,
        identifier: ident("Worker"),
        func_name: String::from("create"),
        arguments: Vec::new(),
    })))];
    let monad = EntityDef {
        name: String::from("Monad"),
        data_declarations: Vec::new(),
        inoculation_list: Vec::new(),
        functions: vec![(
            String::from("create"),
            AstNode::Function {
                name: String::from("create"),
                parameters: Vec::new(),
                return_type: CType::Void,
                body,
            },
        )],
        foreign_functions: Vec::new(),
    };
    let worker = EntityDef {
        name: String::from("Worker"),
        data_declarations: Vec::new(),
        inoculation_list: Vec::new(),
        functions: vec![(
            String::from("create"),
            AstNode::Function {
                name: String::from("create"),
                parameters: Vec::new(),
                return_type: CType::Void,
                body: Vec::new(),
            },
        )],
        foreign_functions: Vec::new(),
    };
    let module = Module {
        imports: Vec::new(),
        entity_defs: vec![
            (String::from("Monad"), AstNode::EntityDef(monad)),
            (String::from("Worker"), AstNode::EntityDef(worker)),
        ],
    };
    let bytes = compile_from_ast(&module).expect("a constructing module compiles");
    let listing = pleroma::pbin::disassemble(&bytes).expect("the module disassembles");
    let mut found = false;
    for (fe, ops) in &listing {
        for (_, op) in ops {
            if let pleroma::opcodes::Op::ConstructEntity(ent, argc) = op {
                // the Monad (entity 0) constructor builds a Worker (entity 1)
                assert_eq!((fe.entity_id, fe.func_id), (0, 0));
                assert_eq!((*ent, *argc), (1, 0));
                found = true;
            }
        }
    }
    assert!(found, "a construction instruction is emitted");
}

#[test]
fn compiled_module_disassembles() {
    let body = vec![AstNode::Return(Box::new(AstNode::ValueNode(
        pleroma::ast::Hvalue::Hu8(3),
    )))];
    let def = EntityDef {
        name: String::from("Monad"),
        data_declarations: Vec::new(),
        inoculation_list: Vec::new(),
        functions: vec![(
            String::from("create"),
            AstNode::Function {
                name: String::from("create"),
                parameters: Vec::new(),
                return_type: CType::Void,
                body,
            },
        )],
        foreign_functions: Vec::new(),
    };
    let module = Module {
        imports: Vec::new(),
        entity_defs: vec![(String::from("Monad"), AstNode::EntityDef(def))],
    };
    let bytes = compile_from_ast(&module).unwrap();
    let listing = pleroma::pbin::disassemble(&bytes).unwrap();
    assert_eq!(listing.len(), 1);
    assert_eq!(listing[0].0.entity_id, 0);
    assert_eq!(listing[0].0.func_id, 0);
    let ops = &listing[0].1;
    assert_eq!(ops.len(), 2);
    assert!(matches!(ops[0].1, pleroma::opcodes::Op::Push(pleroma::ast::Hvalue::Hu8(3))));
    assert!(matches!(ops[1].1, pleroma::opcodes::Op::Ret));
}
