//! The stack machine: arithmetic, errors, and the step budget.

use pleroma::ast::Hvalue;
use pleroma::opcodes::{encode_instruction, Op};
use pleroma::vm::{run_expr, RunOutcome, VmError};
use pleroma::vm_core::{EntityAddress, Msg, MsgContents, StackFrame, ValMap, Vat};

fn assemble(ops: &[Op]) -> Vec<u8> {
    let mut code = Vec::new();
    for op in ops {
        code.extend_from_slice(&encode_instruction(op));
    }
    code
}

fn vat_with(code: Vec<u8>) -> (Vat, Msg) {
    let mut vat = Vat::new(0, code);
    vat.create_entity_code(0, 0, &ValMap::new());
    vat.call_stack.push(StackFrame {
        entity_id: 0,
        locals: ValMap::new(),
        return_address: None,
    });
    let msg = Msg {
        src_address: EntityAddress::new(0, 0, 0),
        dst_address: EntityAddress::new(0, 0, 0),
        contents: MsgContents::Request {
            args: Vec::new(),
            function_id: 0,
            src_promise: None,
            no_response: false,
        },
    };
    (vat, msg)
}

#[test]
fn arithmetic_addition() {
    let code = assemble(&[
        Op::Push(Hvalue::Hu8(3)),
        Op::Push(Hvalue::Hu8(4)),
        Op::Add,
        Op::Ret,
    ]);
    let (mut vat, msg) = vat_with(code);
    let r = run_expr(0, &mut vat, &msg, None, 1000).unwrap();
    assert!(matches!(r, RunOutcome::Completed(Hvalue::Hu8(7))));
}

#[test]
fn arithmetic_integer_division() {
    let code = assemble(&[
        Op::Push(Hvalue::Hu8(9)),
        Op::Push(Hvalue::Hu8(2)),
        Op::Div,
        Op::Ret,
    ]);
    let (mut vat, msg) = vat_with(code);
    let r = run_expr(0, &mut vat, &msg, None, 1000).unwrap();
    assert!(matches!(r, RunOutcome::Completed(Hvalue::Hu8(4))));
}

#[test]
fn arithmetic_subtraction_and_multiplication() {
    let code = assemble(&[
        Op::Push(Hvalue::Hu8(9)),
        Op::Push(Hvalue::Hu8(2)),
        Op::Sub,
        Op::Push(Hvalue::Hu8(3)),
        Op::Mul,
        Op::Ret,
    ]);
    let (mut vat, msg) = vat_with(code);
    let r = run_expr(0, &mut vat, &msg, None, 1000).unwrap();
    assert!(matches!(r, RunOutcome::Completed(Hvalue::Hu8(21))));
}

#[test]
fn locals_store_and_load() {
    let code = assemble(&[
        Op::Push(Hvalue::Hu8(11)),
        Op::Lstore(String::from("x")),
        Op::Lload(String::from("x")),
        Op::Ret,
    ]);
    let (mut vat, msg) = vat_with(code);
    let r = run_expr(0, &mut vat, &msg, None, 1000).unwrap();
    assert!(matches!(r, RunOutcome::Completed(Hvalue::Hu8(11))));
}

#[test]
fn entity_fields_store_and_load() {
    let code = assemble(&[
        Op::Push(Hvalue::Hu8(5)),
        Op::Estore(String::from("stock")),
        Op::Eload(String::from("stock")),
        Op::Ret,
    ]);
    let (mut vat, msg) = vat_with(code);
    let r = run_expr(0, &mut vat, &msg, None, 1000).unwrap();
    assert!(matches!(r, RunOutcome::Completed(Hvalue::Hu8(5))));
}

#[test]
fn type_error_on_non_byte_operand() {
    let code = assemble(&[
        Op::Push(Hvalue::Hu8(1)),
        Op::Push(Hvalue::Promise(0)),
        Op::Add,
        Op::Ret,
    ]);
    let (mut vat, msg) = vat_with(code);
    let r = run_expr(0, &mut vat, &msg, None, 1000);
    assert_eq!(r.unwrap_err(), VmError::RuntimeTypeError);
}

#[test]
fn arithmetic_error_on_division_by_zero_and_overflow() {
    let code = assemble(&[
        Op::Push(Hvalue::Hu8(9)),
        Op::Push(Hvalue::Hu8(0)),
        Op::Div,
        Op::Ret,
    ]);
    let (mut vat, msg) = vat_with(code);
    assert_eq!(run_expr(0, &mut vat, &msg, None, 1000).unwrap_err(), VmError::ArithmeticError);
    let code2 = assemble(&[
        Op::Push(Hvalue::Hu8(200)),
        Op::Push(Hvalue::Hu8(100)),
        Op::Add,
        Op::Ret,
    ]);
    let (mut vat2, msg2) = vat_with(code2);
    assert_eq!(run_expr(0, &mut vat2, &msg2, None, 1000).unwrap_err(), VmError::ArithmeticError);
}

#[test]
fn stack_imbalance_on_underflow_and_residue() {
    let code = assemble(&[Op::Add, Op::Ret]);
    let (mut vat, msg) = vat_with(code);
    assert_eq!(run_expr(0, &mut vat, &msg, None, 1000).unwrap_err(), VmError::StackImbalanceError);
    let code2 = assemble(&[
        Op::Push(Hvalue::Hu8(1)),
        Op::Push(Hvalue::Hu8(2)),
        Op::Ret,
    ]);
    let (mut vat2, msg2) = vat_with(code2);
    assert_eq!(
        run_expr(0, &mut vat2, &msg2, None, 1000).unwrap_err(),
        VmError::StackImbalanceError
    );
}

#[test]
fn step_budget_is_enforced() {
    let code = assemble(&[Op::Push(Hvalue::Hu8(1)), Op::Ret]);
    let (mut vat, msg) = vat_with(code);
    assert_eq!(run_expr(0, &mut vat, &msg, None, 0).unwrap_err(), VmError::StepLimitError);
}

#[test]
fn address_error_on_unknown_destination_entity() {
    let code = assemble(&[Op::Ret]);
    let mut vat = Vat::new(0, code);
    let msg = Msg {
        src_address: EntityAddress::new(0, 0, 0),
        dst_address: EntityAddress::new(0, 0, 3),
        contents: MsgContents::Request {
            args: Vec::new(),
            function_id: 0,
            src_promise: None,
            no_response: false,
        },
    };
    assert_eq!(run_expr(0, &mut vat, &msg, None, 10).unwrap_err(), VmError::AddressError);
}

#[test]
fn await_of_non_promise_is_a_type_error() {
    let code = assemble(&[Op::Push(Hvalue::Hu8(1)), Op::Await, Op::Ret]);
    let (mut vat, msg) = vat_with(code);
    assert_eq!(run_expr(0, &mut vat, &msg, None, 1000).unwrap_err(), VmError::RuntimeTypeError);
}

#[test]
fn same_vat_call_runs_the_callee() {
    // callee at an absolute offset: pushes 40, adds 2, returns to the
    // call site; caller loads the entity address first
    let caller = vec![
        Op::Push(Hvalue::EntityAddress(EntityAddress::new(0, 0, 0))),
        Op::Call(0, 0),  // target patched below
        Op::Ret,
    ];
    let mut code = Vec::new();
    for op in &caller {
        code.extend_from_slice(&encode_instruction(op));
    }
    let callee_start = code.len() as u64;
    let callee = vec![
        Op::Push(Hvalue::Hu8(40)),
        Op::Push(Hvalue::Hu8(2)),
        Op::Add,
        Op::Ret,
    ];
    for op in &callee {
        code.extend_from_slice(&encode_instruction(op));
    }
    // patch the call target in place of the placeholder
    let patched = assemble(&[
        Op::Push(Hvalue::EntityAddress(EntityAddress::new(0, 0, 0))),
        Op::Call(callee_start, 0),
        Op::Ret,
    ]);
    let mut full = patched;
    for op in &callee {
        full.extend_from_slice(&encode_instruction(op));
    }
    let (mut vat, msg) = vat_with(full);
    let r = run_expr(0, &mut vat, &msg, None, 1000).unwrap();
    assert!(matches!(r, RunOutcome::Completed(Hvalue::Hu8(42))));
}

#[test]
fn foreign_call_surfaces_the_packed_arguments() {
    let code = assemble(&[
        Op::Push(Hvalue::Hu8(8)),
        Op::Lstore(String::from("p0")),
        Op::ForeignCall(5, 1),
        Op::Ret,
    ]);
    let (mut vat, msg) = vat_with(code);
    let r = run_expr(0, &mut vat, &msg, None, 1000).unwrap();
    match r {
        RunOutcome::Foreign { fc_id, args, resume: _ } => {
            assert_eq!(fc_id, 5);
            assert_eq!(args.len(), 1);
            assert!(matches!(args[0], Hvalue::Hu8(8)));
        },
        other => panic!("expected a foreign call, got {:?}", other),
    }
}

/// A module whose type-0 function 0 constructs a type-1 entity; type 1 has
/// one data default ("x" = 5) and a constructor that leaves 9 on the stack.
fn construction_module() -> Vec<u8> {
    let code_a = assemble(&[Op::ConstructEntity(1, 0), Op::Ret]);
    let code_b = assemble(&[Op::Push(Hvalue::Hu8(9)), Op::Ret]);
    // data table: one default for entity 1; empty inoculation table;
    // a function-location table with both entry points
    let mut module = vec![1u8, 1u8, b'x', 0u8, 0x01u8, 5u8, 0u8, 2u8];
    let header_len = module.len() + 2 * 6;
    let start_a = header_len;
    let start_b = header_len + code_a.len();
    module.extend_from_slice(&[0, 0]);
    module.extend_from_slice(&[(start_a / 0x100) as u8, (start_a % 0x100) as u8]);
    module.extend_from_slice(&[(code_a.len() / 0x100) as u8, (code_a.len() % 0x100) as u8]);
    module.extend_from_slice(&[1, 0]);
    module.extend_from_slice(&[(start_b / 0x100) as u8, (start_b % 0x100) as u8]);
    module.extend_from_slice(&[(code_b.len() / 0x100) as u8, (code_b.len() % 0x100) as u8]);
    assert_eq!(module.len(), header_len);
    module.extend_from_slice(&code_a);
    module.extend_from_slice(&code_b);
    module
}

#[test]
fn construction_allocates_from_defaults_and_runs_the_constructor() {
    let module = construction_module();
    // the two code regions: 7 bytes for type 0's function, 4 for type 1's
    let start_a = module.len() - 7 - 4;
    let (mut vat, msg) = vat_with(module);
    let r = run_expr(start_a, &mut vat, &msg, None, 1000).unwrap();
    // the constructor ran in the new entity's frame and left its value
    assert!(matches!(r, RunOutcome::Completed(Hvalue::Hu8(9))));
    // a new entity of type 1 was allocated under the next dense id
    assert_eq!(vat.entities.len(), 2);
    assert_eq!(vat.entities[1].entity_type, 1);
    assert_eq!(vat.entities[1].address.entity_id, 1);
    // its fields start from the defaults table, plus the reserved self
    assert!(matches!(
        vat.entities[1].data.get(&String::from("x")),
        Some(Hvalue::Hu8(5))
    ));
    match vat.entities[1].data.get(&String::from("self")) {
        Some(Hvalue::EntityAddress(a)) => assert_eq!(a.entity_id, 1),
        other => panic!("self binds the new address, got {:?}", other),
    }
}

#[test]
fn constructing_an_unknown_entity_type_is_an_address_error() {
    let module = construction_module();
    let code = assemble(&[Op::ConstructEntity(9, 0), Op::Ret]);
    let start = module.len();
    let mut full = module;
    full.extend_from_slice(&code);
    let (mut vat, msg) = vat_with(full);
    let r = run_expr(start, &mut vat, &msg, None, 1000);
    assert_eq!(r.unwrap_err(), VmError::AddressError);
    assert_eq!(vat.entities.len(), 1);
}
