//! The stack-machine interpreter and promise engine: runs one message's
//! instruction stream against one vat, suspending at `Await` and resuming
//! when a response resolves the awaited promise.
//!
//! A bad operand, an unknown name or a runaway computation is an error
//! value that poisons only the message being processed — never the whole
//! vat — and each run takes a step budget as its isolation boundary against
//! non-terminating programs.

use vstd::prelude::*;
use vstd::string::{StringExecFns, StrSliceExecFns};
use crate::ast::{Hvalue, HvalueV};
use crate::opcodes::{OpV, spec_decode_instruction, try_decode_instruction, Op};
use crate::monad::{entity_defaults, spec_entity_defaults};
use crate::vm_core::{
    views_of, EntityAddress, EntityV, Msg, MsgV, MsgContents, MsgContentsV, Promise, PromiseV,
    StackFrame, StackFrameV, Vat, VatV, ValMap,
};
use crate::pbin::{
    spec_parse_data_table, spec_parse_func_table, spec_lookup_function, load_entity_data_table,
    load_entity_inoculation_table, load_entity_function_table, lookup_function_location,
};

verus! {

/// Why a message's computation was abandoned: an operand of the wrong
/// variant, an entity or promise that does not exist, a residual-operand or
/// underflow defect of the operand stack, a malformed instruction stream,
/// byte arithmetic that leaves the value range, a full promise table, or an
/// exhausted step budget. None is recoverable for the message in progress;
/// all are isolated to it.
#[derive(Debug, Clone, Copy, PartialEq, Eq, Structural)]
pub enum VmError {
    RuntimeTypeError,
    AddressError,
    StackImbalanceError,
    CodeError,
    ArithmeticError,
    PromiseLimitError,
    StepLimitError,
}

/// The effect of one interpreter step.
pub ghost enum StepV {
    Continue(VatV, int),
    Done(VatV),
    Yield(VatV),
    Foreign(VatV, u64, Seq<HvalueV>, int),
    Fail(VmError),
}

/// What a whole run of the interpreter yields.
pub ghost enum RunV {
    Completed(VatV, HvalueV),
    Yielded(VatV),
    Foreign(VatV, u64, Seq<HvalueV>, int),
    Failed(VmError),
}

/// The decimal digit character for a value below ten.
pub open spec fn spec_digit(d: int) -> char {
    if d == 0 {
        '0'
    } else if d == 1 {
        '1'
    } else if d == 2 {
        '2'
    } else if d == 3 {
        '3'
    } else if d == 4 {
        '4'
    } else if d == 5 {
        '5'
    } else if d == 6 {
        '6'
    } else if d == 7 {
        '7'
    } else if d == 8 {
        '8'
    } else {
        '9'
    }
}

/// The conventional name of the i-th foreign-call parameter: "p" followed by
/// the decimal digits of i.
pub open spec fn spec_param_name(i: int) -> Seq<char> {
    if i < 10 {
        seq!['p', spec_digit(i)]
    } else if i < 100 {
        seq!['p', spec_digit(i / 10), spec_digit(i % 10)]
    } else {
        seq!['p', spec_digit(i / 100), spec_digit((i / 10) % 10), spec_digit(i % 10)]
    }
}

/// The foreign-call argument list: the values of locals "p0".."p(n-1)" of
/// frame `f`, or nothing if one is unbound.
pub open spec fn spec_foreign_args(f: StackFrameV, n: int) -> Option<Seq<HvalueV>>
    decreases n,
{
    if n <= 0 {
        Option::Some(Seq::empty())
    } else {
        match spec_foreign_args(f, n - 1) {
            Option::Some(pre) => if f.locals.contains_key(spec_param_name(n - 1)) {
                Option::Some(pre.push(f.locals[spec_param_name(n - 1)]))
            } else {
                Option::None
            },
            Option::None => Option::None,
        }
    }
}

/// One step of the machine at instruction pointer `ip`, while processing a
/// message from `msg_src` to `msg_dst` whose request carried `src_promise`.
pub open spec fn spec_step(
    v: VatV,
    ip: int,
    msg_src: EntityAddress,
    msg_dst: EntityAddress,
    src_promise: Option<u32>,
) -> StepV {
    if ip >= v.code.len() {
        StepV::Done(v)
    } else {
        match spec_decode_instruction(v.code, ip) {
            Option::None => StepV::Fail(VmError::CodeError),
            Option::Some((x2, op)) => match op {
                OpV::Nop => StepV::Continue(v, x2),
                OpV::Push(a0) => StepV::Continue(
                    VatV { op_stack: v.op_stack.push(a0), ..v },
                    x2,
                ),
                OpV::Add | OpV::Sub | OpV::Mul | OpV::Div => spec_step_arith(v, op, x2),
                OpV::Lload(s0) => {
                    if v.call_stack.len() == 0 {
                        StepV::Fail(VmError::StackImbalanceError)
                    } else if !v.call_stack.last().locals.contains_key(s0) {
                        StepV::Fail(VmError::RuntimeTypeError)
                    } else {
                        StepV::Continue(
                            VatV {
                                op_stack: v.op_stack.push(v.call_stack.last().locals[s0]),
                                ..v
                            },
                            x2,
                        )
                    }
                },
                OpV::Lstore(s0) => spec_step_lstore(v, s0, x2),
                OpV::Eload(s0) => {
                    if v.call_stack.len() == 0 {
                        StepV::Fail(VmError::StackImbalanceError)
                    } else {
                        let eid = v.call_stack.last().entity_id as int;
                        if !(eid < v.entities.len()) {
                            StepV::Fail(VmError::AddressError)
                        } else if !v.entities[eid].data.contains_key(s0) {
                            StepV::Fail(VmError::RuntimeTypeError)
                        } else {
                            StepV::Continue(
                                VatV { op_stack: v.op_stack.push(v.entities[eid].data[s0]), ..v },
                                x2,
                            )
                        }
                    }
                },
                OpV::Estore(s0) => spec_step_estore(v, s0, x2),
                OpV::Call(a0, a1) => spec_step_call(v, a0, a1, x2),
                OpV::ConstructEntity(a0, a1) => spec_step_construct(v, a0, a1, x2),
                OpV::Message(a0, a1) => spec_step_message(v, a0, a1, msg_src, msg_dst, src_promise, x2),
                OpV::Await => spec_step_await(v, x2),
                OpV::Ret => {
                    if v.call_stack.len() == 0 {
                        StepV::Fail(VmError::StackImbalanceError)
                    } else {
                        let sf = v.call_stack.last();
                        let v2 = VatV { call_stack: v.call_stack.drop_last(), ..v };
                        match sf.return_address {
                            Option::Some(ra) => StepV::Continue(v2, ra as int),
                            Option::None => StepV::Done(v2),
                        }
                    }
                },
                OpV::ForeignCall(a0, a1) => {
                    if v.call_stack.len() == 0 {
                        StepV::Fail(VmError::StackImbalanceError)
                    } else {
                        match spec_foreign_args(v.call_stack.last(), a1 as int) {
                            Option::Some(args) => StepV::Foreign(v, a0, args, x2),
                            Option::None => StepV::Fail(VmError::RuntimeTypeError),
                        }
                    }
                },
            },
        }
    }
}

/// `Estore`: pops a value into the named field of the entity the current
/// frame's "self" resolves to.
pub open spec fn spec_step_estore(v: VatV, s0: Seq<char>, x2: int) -> StepV {
    if v.call_stack.len() == 0 {
        StepV::Fail(VmError::StackImbalanceError)
    } else {
        let eid = v.call_stack.last().entity_id as int;
        if !(eid < v.entities.len()) {
            StepV::Fail(VmError::AddressError)
        } else if v.op_stack.len() == 0 {
            StepV::Fail(VmError::StackImbalanceError)
        } else {
            let val = v.op_stack.last();
            let ent = v.entities[eid];
            StepV::Continue(
                VatV {
                    op_stack: v.op_stack.drop_last(),
                    entities: v.entities.update(
                        eid,
                        crate::vm_core::EntityV { data: ent.data.insert(s0, val), ..ent },
                    ),
                    ..v
                },
                x2,
            )
        }
    }
}

/// An arithmetic opcode: pops the two topmost byte values and pushes the
/// result of combining the second with the top.
pub open spec fn spec_step_arith(v: VatV, op: OpV, x2: int) -> StepV {
    if v.op_stack.len() < 2 {
        StepV::Fail(VmError::StackImbalanceError)
    } else {
        let a0 = v.op_stack.last();
        let a1 = v.op_stack.drop_last().last();
        match (a0, a1) {
            (HvalueV::VU8(b0), HvalueV::VU8(b1)) => {
                let res: int = match op {
                    OpV::Add => b1 + b0,
                    OpV::Sub => b1 - b0,
                    OpV::Mul => b1 * b0,
                    _ => if b0 == 0 {
                        -1
                    } else {
                        b1 as int / b0 as int
                    },
                };
                if res < 0 || res > 255 {
                    StepV::Fail(VmError::ArithmeticError)
                } else {
                    StepV::Continue(
                        VatV {
                            op_stack: v.op_stack.drop_last().drop_last().push(
                                HvalueV::VU8(res as u8),
                            ),
                            ..v
                        },
                        x2,
                    )
                }
            },
            _ => StepV::Fail(VmError::RuntimeTypeError),
        }
    }
}

/// `Lstore`: pops a value into the named local of the current frame; storing
/// a promise also records the name the promise's eventual value binds to.
pub open spec fn spec_step_lstore(v: VatV, s0: Seq<char>, x2: int) -> StepV {
    if v.call_stack.len() == 0 || v.op_stack.len() == 0 {
        StepV::Fail(VmError::StackImbalanceError)
    } else {
        let val = v.op_stack.last();
        let noted = match val {
            HvalueV::VPromise(pid) => {
                if pid < v.promise_stack.len() {
                    Option::Some(
                        VatV {
                            promise_stack: v.promise_stack.update(
                                pid as int,
                                PromiseV {
                                    var_names: v.promise_stack[pid as int].var_names.push(s0),
                                    ..v.promise_stack[pid as int]
                                },
                            ),
                            ..v
                        },
                    )
                } else {
                    Option::None
                }
            },
            _ => Option::Some(v),
        };
        match noted {
            Option::None => StepV::Fail(VmError::AddressError),
            Option::Some(v1) => {
                let fi = v1.call_stack.len() - 1;
                let frame = v1.call_stack.last();
                StepV::Continue(
                    VatV {
                        op_stack: v1.op_stack.drop_last(),
                        call_stack: v1.call_stack.update(
                            fi,
                            StackFrameV { locals: frame.locals.insert(s0, val), ..frame },
                        ),
                        ..v1
                    },
                    x2,
                )
            },
        }
    }
}

/// `Call`: pops the target entity address and the arguments, pushes the
/// arguments back in popped (reversed) order, pushes a frame returning to
/// the call site, and jumps to the absolute target.
pub open spec fn spec_step_call(v: VatV, a0: u64, a1: u8, x2: int) -> StepV {
    if v.op_stack.len() < a1 as int + 1 {
        StepV::Fail(VmError::StackImbalanceError)
    } else if a0 as int > usize::MAX as int {
        StepV::Fail(VmError::CodeError)
    } else {
        let target = v.op_stack.last();
        let after_target = v.op_stack.drop_last();
        let args = after_target.subrange(after_target.len() - a1 as int, after_target.len() as int);
        match target {
            HvalueV::VAddr(add) => {
                let nf = StackFrameV {
                    entity_id: add.entity_id,
                    locals: Map::empty(),
                    return_address: Option::Some(x2 as usize),
                };
                StepV::Continue(
                    VatV {
                        op_stack: after_target.subrange(0, after_target.len() - a1 as int)
                            + args.reverse(),
                        call_stack: v.call_stack.push(nf),
                        ..v
                    },
                    a0 as int,
                )
            },
            _ => StepV::Fail(VmError::RuntimeTypeError),
        }
    }
}

/// `ConstructEntity`: pops the constructor's argument values, allocates a
/// new entity of the given type initialized from the module's data-defaults
/// table, and enters its constructor — the index-0 entry of the
/// function-location table — in a new frame that returns to the next
/// instruction. A type with no recorded constructor is an address error.
pub open spec fn spec_step_construct(v: VatV, a0: u32, a1: u8, x2: int) -> StepV {
    if v.op_stack.len() < a1 as int {
        StepV::Fail(VmError::StackImbalanceError)
    } else {
        let popped = v.op_stack.subrange(0, v.op_stack.len() - a1 as int);
        match spec_parse_data_table(v.code, 0) {
            Option::None => StepV::Fail(VmError::CodeError),
            Option::Some((z, dentries)) => match spec_parse_data_table(v.code, z) {
                Option::None => StepV::Fail(VmError::CodeError),
                Option::Some((q, it)) => match spec_parse_func_table(v.code, q) {
                    Option::None => StepV::Fail(VmError::CodeError),
                    Option::Some((cend, fentries)) => match spec_lookup_function(
                        fentries,
                        a0,
                        0,
                    ) {
                        Option::None => StepV::Fail(VmError::AddressError),
                        Option::Some(fe) => {
                            if v.entities.len() >= 0x1_0000_0000 {
                                StepV::Fail(VmError::AddressError)
                            } else {
                                let addr = EntityAddress {
                                    node_id: 0,
                                    vat_id: v.vat_id,
                                    entity_id: v.entities.len() as u32,
                                };
                                let ent = EntityV {
                                    address: addr,
                                    data: spec_entity_defaults(dentries, a0 as u8).insert(
                                        "self"@,
                                        HvalueV::VAddr(addr),
                                    ),
                                    code: 0,
                                    entity_type: a0,
                                    bound_entity: Option::None,
                                };
                                let nf = StackFrameV {
                                    entity_id: addr.entity_id,
                                    locals: Map::empty(),
                                    return_address: Option::Some(x2 as usize),
                                };
                                StepV::Continue(
                                    VatV {
                                        op_stack: popped,
                                        entities: v.entities.push(ent),
                                        call_stack: v.call_stack.push(nf),
                                        ..v
                                    },
                                    fe.start as int,
                                )
                            }
                        },
                    },
                },
            },
        }
    }
}

/// `Message`: pops the arguments and the target address, allocates the next
/// promise id, queues a request carrying that id, records the unresolved
/// promise, and pushes the promise id as a value.
pub open spec fn spec_step_message(
    v: VatV,
    a0: u64,
    a1: u8,
    msg_src: EntityAddress,
    msg_dst: EntityAddress,
    src_promise: Option<u32>,
    x2: int,
) -> StepV {
    if v.op_stack.len() < a1 as int + 1 {
        StepV::Fail(VmError::StackImbalanceError)
    } else if v.promise_stack.len() >= 256 {
        StepV::Fail(VmError::PromiseLimitError)
    } else if !(a0 < 0x1_0000_0000) {
        StepV::Fail(VmError::CodeError)
    } else {
        let after_args = v.op_stack.subrange(0, v.op_stack.len() - a1 as int);
        let args = v.op_stack.subrange(v.op_stack.len() - a1 as int, v.op_stack.len() as int);
        let target = after_args.last();
        match target {
            HvalueV::VAddr(add) => {
                let next_prom_id = v.promise_stack.len() as u8;
                let out = MsgV {
                    src_address: msg_dst,
                    dst_address: add,
                    contents: MsgContentsV::Request {
                        args: args.reverse(),
                        function_id: a0 as u32,
                        src_promise: Option::Some(next_prom_id as u32),
                        no_response: false,
                    },
                };
                let prom = PromiseV {
                    on_resolve: Seq::empty(),
                    resolved: false,
                    returned_val: Option::None,
                    save_point: (Seq::empty(), Seq::empty()),
                    var_names: Seq::empty(),
                    src_promise,
                    src_entity: Option::Some(msg_src),
                };
                StepV::Continue(
                    VatV {
                        op_stack: after_args.drop_last().push(HvalueV::VPromise(next_prom_id)),
                        outbox: v.outbox.push(out),
                        promise_stack: v.promise_stack.push(prom),
                        ..v
                    },
                    x2,
                )
            },
            _ => StepV::Fail(VmError::RuntimeTypeError),
        }
    }
}

/// `Await`: pops a promise; a resolved promise lets execution proceed, an
/// unresolved one captures the stacks and the resume point and yields.
pub open spec fn spec_step_await(v: VatV, x2: int) -> StepV {
    if v.op_stack.len() == 0 {
        StepV::Fail(VmError::StackImbalanceError)
    } else {
        match v.op_stack.last() {
            HvalueV::VPromise(pid) => {
                if !(pid < v.promise_stack.len()) {
                    StepV::Fail(VmError::AddressError)
                } else {
                    let v1 = VatV { op_stack: v.op_stack.drop_last(), ..v };
                    if v1.promise_stack[pid as int].resolved {
                        StepV::Continue(v1, x2)
                    } else {
                        let p = v1.promise_stack[pid as int];
                        StepV::Yield(
                            VatV {
                                promise_stack: v1.promise_stack.update(
                                    pid as int,
                                    PromiseV {
                                        save_point: (v1.op_stack, v1.call_stack),
                                        on_resolve: p.on_resolve.push(x2 as usize),
                                        ..p
                                    },
                                ),
                                ..v1
                            },
                        )
                    }
                }
            },
            _ => StepV::Fail(VmError::RuntimeTypeError),
        }
    }
}

/// What ending the instruction loop in state `v` yields: more than one
/// residual operand is a stack-imbalance defect; otherwise the residual
/// operand, or the empty value, is the result.
pub open spec fn spec_finish(v: VatV) -> RunV {
    if v.op_stack.len() > 1 {
        RunV::Failed(VmError::StackImbalanceError)
    } else if v.op_stack.len() == 0 {
        RunV::Completed(v, HvalueV::VNone)
    } else {
        RunV::Completed(VatV { op_stack: v.op_stack.drop_last(), ..v }, v.op_stack.last())
    }
}

/// How a run of the interpreter ended, seen by the caller: a completed
/// computation with its result, a suspension on an unresolved promise, or a
/// pending host-native call to perform before resuming at `resume`.
#[derive(Debug)]
pub enum RunOutcome {
    Completed(Hvalue),
    Yielded,
    Foreign { fc_id: u64, args: Vec<Hvalue>, resume: usize },
}

/// How an executable result and final state correspond to what the machine's
/// mathematical run yields.
pub open spec fn run_result_matches(res: RunV, r: Result<RunOutcome, VmError>, post: VatV) -> bool {
    match res {
        RunV::Completed(v2, val) => (r matches Ok(RunOutcome::Completed(x)) && x@ == val) && post
            == v2,
        RunV::Yielded(v2) => (r matches Ok(o) && o is Yielded) && post == v2,
        RunV::Foreign(v2, idx, fargs, rip) => (r matches Ok(RunOutcome::Foreign {
            fc_id,
            args,
            resume,
        }) && fc_id == idx && views_of(args@) == fargs && resume == rip) && post == v2,
        RunV::Failed(e) => r matches Err(e2) && e2 == e,
    }
}

/// Runs the machine from `ip` until it completes, yields, reaches a foreign
/// call, fails, or exhausts `fuel` steps.
pub open spec fn spec_run(
    v: VatV,
    ip: int,
    msg_src: EntityAddress,
    msg_dst: EntityAddress,
    src_promise: Option<u32>,
    fuel: nat,
) -> RunV
    decreases fuel,
{
    if fuel == 0 {
        RunV::Failed(VmError::StepLimitError)
    } else {
        match spec_step(v, ip, msg_src, msg_dst, src_promise) {
            StepV::Continue(v2, ip2) => spec_run(
                v2,
                ip2,
                msg_src,
                msg_dst,
                src_promise,
                (fuel - 1) as nat,
            ),
            StepV::Done(v2) => spec_finish(v2),
            StepV::Yield(v2) => RunV::Yielded(v2),
            StepV::Foreign(v2, idx, args, rip) => RunV::Foreign(v2, idx, args, rip),
            StepV::Fail(e) => RunV::Failed(e),
        }
    }
}

/// The decimal digit character for a value below ten.
fn digit_str(d: u8) -> (r: &'static str)
    requires
        d < 10,
    ensures
        r@ == seq![spec_digit(d as int)],
{
    proof {
        reveal_strlit("0");
        reveal_strlit("1");
        reveal_strlit("2");
        reveal_strlit("3");
        reveal_strlit("4");
        reveal_strlit("5");
        reveal_strlit("6");
        reveal_strlit("7");
        reveal_strlit("8");
        reveal_strlit("9");
    }
    if d == 0 {
        "0"
    } else if d == 1 {
        "1"
    } else if d == 2 {
        "2"
    } else if d == 3 {
        "3"
    } else if d == 4 {
        "4"
    } else if d == 5 {
        "5"
    } else if d == 6 {
        "6"
    } else if d == 7 {
        "7"
    } else if d == 8 {
        "8"
    } else {
        "9"
    }
}

/// The conventional name of the i-th foreign-call parameter.
fn param_name(i: u8) -> (r: String)
    ensures
        r@ == spec_param_name(i as int),
{
    proof {
        reveal_strlit("p");
    }
    let mut s = String::from_str("p");
    if i < 10 {
        s.append(digit_str(i));
        proof {
            assert(s@ =~= spec_param_name(i as int));
        }
    } else if i < 100 {
        s.append(digit_str(i / 10));
        s.append(digit_str(i % 10));
        proof {
            assert(s@ =~= spec_param_name(i as int));
        }
    } else {
        s.append(digit_str(i / 100));
        s.append(digit_str((i / 10) % 100 % 10));
        s.append(digit_str(i % 10));
        proof {
            assert(s@ =~= spec_param_name(i as int));
        }
    }
    s
}

/// Executes one arithmetic opcode against the operand stack.
fn step_arith(vat: &mut Vat, op: &Op, x2: usize) -> (r: Result<(), VmError>)
    requires
        old(vat).wf(),
        op@ is Add || op@ is Sub || op@ is Mul || op@ is Div,
    ensures
        final(vat).wf(),
        match spec_step_arith(old(vat)@, op@, x2 as int) {
            StepV::Continue(v2, ip2) => r is Ok && final(vat)@ == v2 && ip2 == x2,
            StepV::Fail(e) => (r matches Err(e2) && e2 == e),
            _ => false,
        },
{
    if vat.op_stack.len() < 2 {
        return Result::Err(VmError::StackImbalanceError);
    }
    let ghost pre = vat@;
    let a0 = match vat.op_stack.pop() {
        Option::Some(v) => v,
        Option::None => {
            proof {
                assert(false);
            }
            Hvalue::HNone
        },
    };
    proof {
        crate::vm_core::lemma_views_drop_last(old(vat).op_stack@);
    }
    let a1 = match vat.op_stack.pop() {
        Option::Some(v) => v,
        Option::None => {
            proof {
                assert(false);
            }
            Hvalue::HNone
        },
    };
    proof {
        crate::vm_core::lemma_views_drop_last(old(vat).op_stack@.drop_last());
    }
    let b0 = match a0 {
        Hvalue::Hu8(b) => b,
        _ => {
            return Result::Err(VmError::RuntimeTypeError);
        },
    };
    let b1 = match a1 {
        Hvalue::Hu8(b) => b,
        _ => {
            return Result::Err(VmError::RuntimeTypeError);
        },
    };
    proof {
        assert((b1 as int) * (b0 as int) <= 255 * 255) by (nonlinear_arith)
            requires
                b1 <= 255,
                b0 <= 255,
        ;
    }
    let res: u32 = match op {
        Op::Add => b1 as u32 + b0 as u32,
        Op::Sub => {
            if b1 < b0 {
                return Result::Err(VmError::ArithmeticError);
            }
            (b1 - b0) as u32
        },
        Op::Mul => b1 as u32 * b0 as u32,
        _ => {
            if b0 == 0 {
                return Result::Err(VmError::ArithmeticError);
            }
            (b1 / b0) as u32
        },
    };
    if res > 255 {
        return Result::Err(VmError::ArithmeticError);
    }
    vat.op_stack.push(Hvalue::Hu8(res as u8));
    proof {
        crate::vm_core::lemma_views_push(
            old(vat).op_stack@.drop_last().drop_last(),
            Hvalue::Hu8(res as u8),
        );
        match spec_step_arith(old(vat)@, op@, x2 as int) {
            StepV::Continue(v2, ip2) => {
                assert(vat@ =~= v2);
            },
            _ => {
                assert(false);
            },
        }
    }
    Result::Ok(())
}

/// Executes `Lstore`: pops a value into the named local, noting the name on
/// a stored promise.
fn step_lstore(vat: &mut Vat, s0: &String, x2: usize) -> (r: Result<(), VmError>)
    requires
        old(vat).wf(),
    ensures
        final(vat).wf(),
        match spec_step_lstore(old(vat)@, s0@, x2 as int) {
            StepV::Continue(v2, ip2) => r is Ok && final(vat)@ == v2 && ip2 == x2,
            StepV::Fail(e) => (r matches Err(e2) && e2 == e),
            _ => false,
        },
{
    if vat.call_stack.len() == 0 || vat.op_stack.len() == 0 {
        return Result::Err(VmError::StackImbalanceError);
    }
    let val = match vat.op_stack.pop() {
        Option::Some(v) => v,
        Option::None => {
            proof {
                assert(false);
            }
            Hvalue::HNone
        },
    };
    proof {
        crate::vm_core::lemma_views_drop_last(old(vat).op_stack@);
    }
    if let Hvalue::Promise(pid) = &val {
        let pid = *pid;
        if pid as usize >= vat.promise_stack.len() {
            return Result::Err(VmError::AddressError);
        }
        let ghost pre_proms = vat.promise_stack@;
        let mut p = vat.promise_stack.remove(pid as usize);
        p.var_names.push(s0.clone());
        vat.promise_stack.insert(pid as usize, p);
        proof {
            crate::vm_core::lemma_remove_insert_is_update(pre_proms, pid as int, vat.promise_stack@[pid as int]);
            crate::vm_core::lemma_views_update(pre_proms, pid as int, vat.promise_stack@[pid as int]);
            assert(views_of(vat.promise_stack@[pid as int].var_names@) =~= views_of(
                pre_proms[pid as int].var_names@,
            ).push(s0@));
            assert(views_of(vat.promise_stack@) =~= old(vat)@.promise_stack.update(
                pid as int,
                (PromiseV {
                    var_names: old(vat)@.promise_stack[pid as int].var_names.push(s0@),
                    ..old(vat)@.promise_stack[pid as int]
                }),
            ));
        }
    }
    let ghost mid = vat@;
    let last_ind = vat.call_stack.len() - 1;
    let mut frame = match vat.call_stack.pop() {
        Option::Some(f) => f,
        Option::None => {
            proof {
                assert(false);
            }
            StackFrame { entity_id: 0, locals: ValMap::new(), return_address: Option::None }
        },
    };
    frame.locals.set(s0, val);
    vat.call_stack.push(frame);
    proof {
        assert(val@ == old(vat)@.op_stack.last());
        assert(views_of(vat.call_stack@) =~= mid.call_stack.update(
            mid.call_stack.len() - 1,
            (StackFrameV {
                locals: mid.call_stack.last().locals.insert(s0@, val@),
                ..mid.call_stack.last()
            }),
        ));
        match spec_step_lstore(old(vat)@, s0@, x2 as int) {
            StepV::Continue(v2, ip2) => {
                assert(vat@ =~= v2);
            },
            _ => {
                assert(false);
            },
        }
    }
    Result::Ok(())
}

/// Once the parameter list has a gap, longer lists have it too.
proof fn lemma_foreign_args_none(f: StackFrameV, k: int, n: int)
    requires
        k <= n,
        spec_foreign_args(f, k) is None,
    ensures
        spec_foreign_args(f, n) is None,
    decreases n - k,
{
    if k < n {
        lemma_foreign_args_none(f, k + 1, n);
    }
}

/// Reads the foreign-call arguments "p0".."p(n-1)" from the current frame.
fn collect_foreign_args(vat: &Vat, a1: u8) -> (r: Result<Vec<Hvalue>, VmError>)
    requires
        vat.wf(),
        vat@.call_stack.len() > 0,
    ensures
        match spec_foreign_args(vat@.call_stack.last(), a1 as int) {
            Option::Some(args) => (r matches Ok(v) && views_of(v@) == args),
            Option::None => (r matches Err(e) && e == VmError::RuntimeTypeError),
        },
{
    let n = a1 as usize;
    let fi = vat.call_stack.len() - 1;
    let frame = &vat.call_stack[fi];
    let mut out: Vec<Hvalue> = Vec::new();
    let mut i: usize = 0;
    while i < n
        invariant
            vat.wf(),
            vat@.call_stack.len() > 0,
            frame == &vat.call_stack[vat.call_stack@.len() - 1],
            frame.wf(),
            0 <= i <= n,
            n == a1 as int,
            spec_foreign_args(vat@.call_stack.last(), i as int) == Option::Some(views_of(out@)),
        decreases n - i,
    {
        let name = param_name(i as u8);
        match frame.locals.get(&name) {
            Option::Some(v) => {
                let ghost pre = out@;
                out.push(v.duplicate());
                proof {
                    crate::vm_core::lemma_views_push(pre, out@.last());
                    assert(frame@ == vat@.call_stack.last());
                }
            },
            Option::None => {
                proof {
                    assert(frame@ == vat@.call_stack.last());
                    assert(spec_foreign_args(vat@.call_stack.last(), i + 1 as int) is None);
                    lemma_foreign_args_none(vat@.call_stack.last(), i + 1 as int, a1 as int);
                }
                return Result::Err(VmError::RuntimeTypeError);
            },
        }
        i = i + 1;
    }
    Result::Ok(out)
}

/// Executes `Estore`: pops a value into the named field of the entity the
/// current frame's "self" resolves to.
fn step_estore(vat: &mut Vat, s0: &String, x2: usize) -> (r: Result<(), VmError>)
    requires
        old(vat).wf(),
    ensures
        final(vat).wf(),
        match spec_step_estore(old(vat)@, s0@, x2 as int) {
            StepV::Continue(v2, ip2) => r is Ok && final(vat)@ == v2 && ip2 == x2,
            StepV::Fail(e) => (r matches Err(e2) && e2 == e),
            _ => false,
        },
{
    if vat.call_stack.len() == 0 {
        return Result::Err(VmError::StackImbalanceError);
    }
    let eid = vat.call_stack[vat.call_stack.len() - 1].entity_id as usize;
    if eid >= vat.entities.len() {
        return Result::Err(VmError::AddressError);
    }
    if vat.op_stack.len() == 0 {
        return Result::Err(VmError::StackImbalanceError);
    }
    let val = match vat.op_stack.pop() {
        Option::Some(v) => v,
        Option::None => {
            proof {
                assert(false);
            }
            Hvalue::HNone
        },
    };
    proof {
        crate::vm_core::lemma_views_drop_last(old(vat).op_stack@);
    }
    let ghost pre_ents = vat.entities@;
    let mut ent = vat.entities.remove(eid);
    ent.data.set(s0, val);
    vat.entities.insert(eid, ent);
    proof {
        crate::vm_core::lemma_remove_insert_is_update(pre_ents, eid as int, vat.entities@[eid as int]);
        crate::vm_core::lemma_views_update(pre_ents, eid as int, vat.entities@[eid as int]);
        assert(val@ == old(vat)@.op_stack.last());
        match spec_step_estore(old(vat)@, s0@, x2 as int) {
            StepV::Continue(v2, ip2) => {
                assert(vat@.entities =~= v2.entities);
                assert(vat@ =~= v2);
            },
            _ => {
                assert(false);
            },
        }
    }
    Result::Ok(())
}

/// Executes `Call`: pops the target address and arguments, re-pushes the
/// arguments in popped order, pushes the new frame and reports the absolute
/// target to jump to.
fn step_call(vat: &mut Vat, a0: u64, a1: u8, x2: usize) -> (r: Result<(), VmError>)
    requires
        old(vat).wf(),
    ensures
        final(vat).wf(),
        match spec_step_call(old(vat)@, a0, a1, x2 as int) {
            StepV::Continue(v2, ip2) => r is Ok && final(vat)@ == v2 && ip2 == a0 as int && a0
                <= usize::MAX,
            StepV::Fail(e) => (r matches Err(e2) && e2 == e),
            _ => false,
        },
{
    let n_args = a1 as usize;
    if vat.op_stack.len() < n_args + 1 {
        return Result::Err(VmError::StackImbalanceError);
    }
    if a0 > usize::MAX as u64 {
        return Result::Err(VmError::CodeError);
    }
    let target = match vat.op_stack.pop() {
        Option::Some(v) => v,
        Option::None => {
            proof {
                assert(false);
            }
            Hvalue::HNone
        },
    };
    proof {
        crate::vm_core::lemma_views_drop_last(old(vat).op_stack@);
    }
    let add = match target {
        Hvalue::EntityAddress(add) => add,
        _ => {
            return Result::Err(VmError::RuntimeTypeError);
        },
    };
    let ghost after_target = views_of(vat.op_stack@);
    let ghost args_seg = after_target.subrange(
        after_target.len() - a1 as int,
        after_target.len() as int,
    );
    let ghost base = after_target.subrange(0, after_target.len() - a1 as int);
    let mut buf: Vec<Hvalue> = Vec::new();
    let mut i: usize = 0;
    while i < n_args
        invariant
            vat.wf(),
            vat.inbox == old(vat).inbox,
            vat.outbox == old(vat).outbox,
            vat.entities == old(vat).entities,
            vat.vat_id == old(vat).vat_id,
            vat.call_stack == old(vat).call_stack,
            vat.promise_stack == old(vat).promise_stack,
            vat.code == old(vat).code,
            n_args == a1 as int,
            0 <= i <= n_args,
            after_target.len() >= n_args,
            views_of(vat.op_stack@) == after_target.subrange(0, after_target.len() - i),
            buf@.len() == i,
            forall|j: int| 0 <= j < i ==> buf@[j]@ == after_target[after_target.len() - 1 - j],
        decreases n_args - i,
    {
        let ghost pre = vat.op_stack@;
        proof {
            assert(views_of(pre).len() == pre.len());
            assert(pre.len() == after_target.len() - i);
        }
        let v = match vat.op_stack.pop() {
            Option::Some(v) => v,
            Option::None => {
                proof {
                    assert(false);
                }
                Hvalue::HNone
            },
        };
        proof {
            crate::vm_core::lemma_views_drop_last(pre);
            assert(views_of(pre).drop_last() =~= after_target.subrange(
                0,
                after_target.len() - (i + 1),
            ));
            assert(v@ == after_target[after_target.len() - 1 - i]);
        }
        buf.push(v);
        i = i + 1;
    }
    let mut k: usize = 0;
    while k < n_args
        invariant
            vat.wf(),
            vat.inbox == old(vat).inbox,
            vat.outbox == old(vat).outbox,
            vat.entities == old(vat).entities,
            vat.vat_id == old(vat).vat_id,
            vat.call_stack == old(vat).call_stack,
            vat.promise_stack == old(vat).promise_stack,
            vat.code == old(vat).code,
            n_args == a1 as int,
            0 <= k <= n_args,
            after_target.len() >= n_args,
            base == after_target.subrange(0, after_target.len() - n_args),
            args_seg == after_target.subrange(after_target.len() - n_args, after_target.len() as int),
            buf@.len() == n_args,
            forall|j: int| 0 <= j < n_args ==> buf@[j]@ == after_target[after_target.len() - 1 - j],
            views_of(vat.op_stack@) == base + args_seg.reverse().subrange(0, k as int),
        decreases n_args - k,
    {
        let ghost pre = vat.op_stack@;
        vat.op_stack.push(buf[k].duplicate());
        proof {
            crate::vm_core::lemma_views_push(pre, vat.op_stack@.last());
            assert(args_seg.reverse()[k as int] == args_seg[args_seg.len() - 1 - k]);
            assert(args_seg[args_seg.len() - 1 - k] == after_target[after_target.len() - 1 - k]);
            assert(views_of(vat.op_stack@) =~= base + args_seg.reverse().subrange(0, k + 1 as int));
        }
        k = k + 1;
    }
    let nf = StackFrame {
        entity_id: add.entity_id,
        locals: ValMap::new(),
        return_address: Option::Some(x2),
    };
    let ghost pre_frames = vat.call_stack@;
    vat.call_stack.push(nf);
    proof {
        crate::vm_core::lemma_views_push(pre_frames, vat.call_stack@.last());
        assert((x2 as int) as usize == x2);
        assert(vat.call_stack@.last()@ =~~= (StackFrameV {
            entity_id: add.entity_id,
            locals: Map::<Seq<char>, HvalueV>::empty(),
            return_address: Option::Some(x2),
        }));
        match spec_step_call(old(vat)@, a0, a1, x2 as int) {
            StepV::Continue(v2, ip2) => {
                assert(args_seg.reverse().subrange(0, a1 as int) =~= args_seg.reverse());
                assert(vat@.call_stack =~~= v2.call_stack);
                assert(vat@.op_stack =~= v2.op_stack);
                assert(vat@ =~~= v2);
            },
            _ => {
                assert(false);
            },
        }
    }
    Result::Ok(())
}

/// Executes `ConstructEntity`: pops the arguments, allocates the new entity
/// from its parsed defaults and returns its constructor's entry offset.
fn step_construct(vat: &mut Vat, a0: u32, a1: u8, x2: usize) -> (r: Result<usize, VmError>)
    requires
        old(vat).wf(),
    ensures
        final(vat).wf(),
        match spec_step_construct(old(vat)@, a0, a1, x2 as int) {
            StepV::Continue(v2, ip2) => (r matches Ok(ip) && final(vat)@ == v2 && ip == ip2),
            StepV::Fail(e) => (r matches Err(e2) && e2 == e),
            _ => false,
        },
{
    let n_args = a1 as usize;
    if vat.op_stack.len() < n_args {
        return Result::Err(VmError::StackImbalanceError);
    }
    let ghost init_ops = views_of(old(vat).op_stack@);
    let mut i: usize = 0;
    while i < n_args
        invariant
            vat.wf(),
            vat.inbox == old(vat).inbox,
            vat.outbox == old(vat).outbox,
            vat.entities == old(vat).entities,
            vat.vat_id == old(vat).vat_id,
            vat.call_stack == old(vat).call_stack,
            vat.promise_stack == old(vat).promise_stack,
            vat.code == old(vat).code,
            n_args == a1 as int,
            0 <= i <= n_args,
            init_ops.len() >= n_args,
            init_ops == views_of(old(vat).op_stack@),
            views_of(vat.op_stack@) == init_ops.subrange(0, init_ops.len() - i),
        decreases n_args - i,
    {
        let ghost pre = vat.op_stack@;
        proof {
            assert(views_of(pre).len() == pre.len());
        }
        let _ = vat.op_stack.pop();
        proof {
            crate::vm_core::lemma_views_drop_last(pre);
            assert(views_of(pre).drop_last() =~= init_ops.subrange(0, init_ops.len() - (i + 1)));
        }
        i = i + 1;
    }
    proof {
        assert(views_of(vat.op_stack@) =~= init_ops.subrange(0, init_ops.len() - a1 as int));
    }
    let mut loc: usize = 0;
    let dentries = match load_entity_data_table(&mut loc, vat.code.as_slice()) {
        Result::Ok(v) => v,
        Result::Err(_) => {
            return Result::Err(VmError::CodeError);
        },
    };
    let _inoc = match load_entity_inoculation_table(&mut loc, vat.code.as_slice()) {
        Result::Ok(v) => v,
        Result::Err(_) => {
            return Result::Err(VmError::CodeError);
        },
    };
    let ftable = match load_entity_function_table(&mut loc, vat.code.as_slice()) {
        Result::Ok(v) => v,
        Result::Err(_) => {
            return Result::Err(VmError::CodeError);
        },
    };
    let fe = match lookup_function_location(&ftable, a0, 0) {
        Option::Some(e) => e,
        Option::None => {
            return Result::Err(VmError::AddressError);
        },
    };
    if vat.entities.len() as u64 >= 0x1_0000_0000u64 {
        return Result::Err(VmError::AddressError);
    }
    let defaults = entity_defaults(&dentries, a0 as u8);
    let addr = vat.create_entity_code(a0, 0, &defaults);
    let nf = StackFrame {
        entity_id: addr.entity_id,
        locals: ValMap::new(),
        return_address: Option::Some(x2),
    };
    let ghost pre_frames = vat.call_stack@;
    vat.call_stack.push(nf);
    proof {
        crate::vm_core::lemma_views_push(pre_frames, vat.call_stack@.last());
        assert(vat.call_stack@.last()@ =~~= (StackFrameV {
            entity_id: addr.entity_id,
            locals: Map::<Seq<char>, HvalueV>::empty(),
            return_address: Option::Some(x2),
        }));
        match spec_step_construct(old(vat)@, a0, a1, x2 as int) {
            StepV::Continue(v2, ip2) => {
                assert(vat@.op_stack =~= v2.op_stack);
                assert(vat@.entities =~~= v2.entities);
                assert(vat@.call_stack =~~= v2.call_stack);
                assert(vat@ =~~= v2);
            },
            _ => {
                assert(false);
            },
        }
    }
    Result::Ok(fe.start as usize)
}

/// Executes `Message`: pops the arguments and target, queues the request
/// carrying a fresh promise id, records the promise and pushes its id.
fn step_message(
    vat: &mut Vat,
    a0: u64,
    a1: u8,
    msg: &Msg,
    src_promise_id: Option<u32>,
    x2: usize,
) -> (r: Result<(), VmError>)
    requires
        old(vat).wf(),
    ensures
        final(vat).wf(),
        match spec_step_message(
            old(vat)@,
            a0,
            a1,
            msg@.src_address,
            msg@.dst_address,
            src_promise_id,
            x2 as int,
        ) {
            StepV::Continue(v2, ip2) => r is Ok && final(vat)@ == v2 && ip2 == x2,
            StepV::Fail(e) => (r matches Err(e2) && e2 == e),
            _ => false,
        },
{
    let n_args = a1 as usize;
    if vat.op_stack.len() < n_args + 1 {
        return Result::Err(VmError::StackImbalanceError);
    }
    if vat.promise_stack.len() >= 256 {
        return Result::Err(VmError::PromiseLimitError);
    }
    if a0 >= 0x1_0000_0000 {
        return Result::Err(VmError::CodeError);
    }
    let ghost pre_ops = views_of(vat.op_stack@);
    let ghost args_seg = pre_ops.subrange(pre_ops.len() - a1 as int, pre_ops.len() as int);
    let mut buf: Vec<Hvalue> = Vec::new();
    let mut i: usize = 0;
    while i < n_args
        invariant
            vat.wf(),
            vat.inbox == old(vat).inbox,
            vat.outbox == old(vat).outbox,
            vat.entities == old(vat).entities,
            vat.vat_id == old(vat).vat_id,
            vat.call_stack == old(vat).call_stack,
            vat.promise_stack == old(vat).promise_stack,
            vat.code == old(vat).code,
            n_args == a1 as int,
            0 <= i <= n_args,
            pre_ops.len() >= n_args + 1,
            views_of(vat.op_stack@) == pre_ops.subrange(0, pre_ops.len() - i),
            buf@.len() == i,
            forall|j: int| 0 <= j < i ==> buf@[j]@ == pre_ops[pre_ops.len() - 1 - j],
        decreases n_args - i,
    {
        let ghost pre = vat.op_stack@;
        proof {
            assert(views_of(pre).len() == pre.len());
            assert(pre.len() == pre_ops.len() - i);
        }
        let v = match vat.op_stack.pop() {
            Option::Some(v) => v,
            Option::None => {
                proof {
                    assert(false);
                }
                Hvalue::HNone
            },
        };
        proof {
            crate::vm_core::lemma_views_drop_last(pre);
            assert(views_of(pre).drop_last() =~= pre_ops.subrange(0, pre_ops.len() - (i + 1)));
            assert(v@ == pre_ops[pre_ops.len() - 1 - i]);
        }
        buf.push(v);
        i = i + 1;
    }
    let ghost pre_exec = vat.op_stack@;
    proof {
        assert(views_of(pre_exec).len() == pre_exec.len());
        assert(pre_exec.len() == pre_ops.len() - a1 as int);
    }
    let target = match vat.op_stack.pop() {
        Option::Some(v) => v,
        Option::None => {
            proof {
                assert(false);
            }
            Hvalue::HNone
        },
    };
    proof {
        crate::vm_core::lemma_views_drop_last(pre_exec);
        assert(views_of(vat.op_stack@) =~= pre_ops.subrange(0, pre_ops.len() - a1 as int).drop_last());
        assert(target@ == pre_ops.subrange(0, pre_ops.len() - a1 as int).last());
    }
    let add = match target {
        Hvalue::EntityAddress(add) => add,
        _ => {
            return Result::Err(VmError::RuntimeTypeError);
        },
    };
    let next_prom_id: u8 = vat.promise_stack.len() as u8;
    proof {
        assert(views_of(buf@) =~= args_seg.reverse());
    }
    let out_msg = Msg {
        src_address: msg.dst_address,
        dst_address: add,
        contents: MsgContents::Request {
            args: buf,
            function_id: a0 as u32,
            src_promise: Option::Some(next_prom_id as u32),
            no_response: false,
        },
    };
    let ghost pre_outbox = vat.outbox@;
    let ghost pre_proms = vat.promise_stack@;
    let ghost pre_ops2 = vat.op_stack@;
    vat.outbox.push(out_msg);
    vat.promise_stack.push(Promise::new(src_promise_id, Option::Some(msg.src_address)));
    vat.op_stack.push(Hvalue::Promise(next_prom_id));
    proof {
        crate::vm_core::lemma_views_push(pre_outbox, vat.outbox@.last());
        crate::vm_core::lemma_views_push(pre_proms, vat.promise_stack@.last());
        crate::vm_core::lemma_views_push(pre_ops2, vat.op_stack@.last());
        match spec_step_message(
            old(vat)@,
            a0,
            a1,
            msg@.src_address,
            msg@.dst_address,
            src_promise_id,
            x2 as int,
        ) {
            StepV::Continue(v2, ip2) => {
                assert(vat@.outbox =~~= v2.outbox);
                assert(vat@.promise_stack =~~= v2.promise_stack);
                assert(vat@.op_stack =~= v2.op_stack);
                assert(vat@ =~~= v2);
            },
            _ => {
                assert(false);
            },
        }
    }
    Result::Ok(())
}

/// Executes `Await`: pops a promise; proceeds past a resolved one, parks the
/// stacks in an unresolved one and reports the suspension.
fn step_await(vat: &mut Vat, x2: usize) -> (r: Result<bool, VmError>)
    requires
        old(vat).wf(),
    ensures
        final(vat).wf(),
        match spec_step_await(old(vat)@, x2 as int) {
            StepV::Continue(v2, ip2) => (r matches Ok(y) && !y) && final(vat)@ == v2 && ip2 == x2,
            StepV::Yield(v2) => (r matches Ok(y) && y) && final(vat)@ == v2,
            StepV::Fail(e) => (r matches Err(e2) && e2 == e),
            _ => false,
        },
{
    if vat.op_stack.len() == 0 {
        return Result::Err(VmError::StackImbalanceError);
    }
    let op = match vat.op_stack.pop() {
        Option::Some(v) => v,
        Option::None => {
            proof {
                assert(false);
            }
            Hvalue::HNone
        },
    };
    proof {
        crate::vm_core::lemma_views_drop_last(old(vat).op_stack@);
    }
    let pid = match op {
        Hvalue::Promise(p) => p,
        _ => {
            return Result::Err(VmError::RuntimeTypeError);
        },
    };
    if pid as usize >= vat.promise_stack.len() {
        return Result::Err(VmError::AddressError);
    }
    if vat.promise_stack[pid as usize].resolved {
        proof {
            match spec_step_await(old(vat)@, x2 as int) {
                StepV::Continue(v2, ip2) => {
                    assert(vat@ =~= v2);
                },
                _ => {
                    assert(false);
                },
            }
        }
        return Result::Ok(false);
    }
    let ops_copy = crate::vm_core::duplicate_values(&vat.op_stack);
    let frames_copy = crate::vm_core::duplicate_frames(&vat.call_stack);
    let ghost pre_proms = vat.promise_stack@;
    let mut p = vat.promise_stack.remove(pid as usize);
    p.save_point = (ops_copy, frames_copy);
    p.on_resolve.push(x2);
    vat.promise_stack.insert(pid as usize, p);
    proof {
        crate::vm_core::lemma_remove_insert_is_update(pre_proms, pid as int, vat.promise_stack@[pid as int]);
        crate::vm_core::lemma_views_update(pre_proms, pid as int, vat.promise_stack@[pid as int]);
        match spec_step_await(old(vat)@, x2 as int) {
            StepV::Yield(v2) => {
                assert(vat@.promise_stack[pid as int] =~= v2.promise_stack[pid as int]);
                assert(vat@.promise_stack =~= v2.promise_stack);
                assert(vat@ =~= v2);
            },
            _ => {
                assert(false);
            },
        }
    }
    Result::Ok(true)
}

/// Ends an instruction loop: checks the residual operand stack and takes the
/// result from it.
fn finish_run(vat: &mut Vat) -> (r: Result<RunOutcome, VmError>)
    requires
        old(vat).wf(),
    ensures
        final(vat).wf(),
        run_result_matches(spec_finish(old(vat)@), r, final(vat)@),
{
    if vat.op_stack.len() > 1 {
        return Result::Err(VmError::StackImbalanceError);
    }
    if vat.op_stack.len() == 0 {
        return Result::Ok(RunOutcome::Completed(Hvalue::HNone));
    }
    match vat.op_stack.pop() {
        Option::Some(v) => {
            proof {
                crate::vm_core::lemma_views_drop_last(old(vat).op_stack@);
            }
            Result::Ok(RunOutcome::Completed(v))
        },
        Option::None => {
            proof {
                assert(false);
            }
            Result::Err(VmError::StackImbalanceError)
        },
    }
}

/// Runs the interpreter from `start_addr` against the vat's loaded module,
/// on behalf of message `msg` whose request carried `src_promise_id`, for at
/// most `fuel` instruction steps. The result, the vat's new state and every
/// queued outgoing message are exactly what the machine's mathematical run
/// yields.
#[verifier::rlimit(80)]
#[verifier::spinoff_prover]
pub fn run_expr(
    start_addr: usize,
    vat: &mut Vat,
    msg: &Msg,
    src_promise_id: Option<u32>,
    fuel: u64,
) -> (r: Result<RunOutcome, VmError>)
    requires
        old(vat).wf(),
    ensures
        final(vat).wf(),
        ({
            let res = if !((msg@.dst_address.entity_id as int) < old(vat)@.entities.len()) {
                RunV::Failed(VmError::AddressError)
            } else {
                spec_run(
                    old(vat)@,
                    start_addr as int,
                    msg@.src_address,
                    msg@.dst_address,
                    src_promise_id,
                    fuel as nat,
                )
            };
            run_result_matches(res, r, final(vat)@)
        }),
{
    if msg.dst_address.entity_id as usize >= vat.entities.len() {
        return Result::Err(VmError::AddressError);
    }
    let ghost init = vat@;
    let ghost gsrc = msg@.src_address;
    let ghost gdst = msg@.dst_address;
    let mut x: usize = start_addr;
    let mut fuel_left: u64 = fuel;
    loop
        invariant
            vat.wf(),
            init == old(vat)@,
            gsrc == msg@.src_address,
            gdst == msg@.dst_address,
            (gdst.entity_id as int) < init.entities.len(),
            spec_run(vat@, x as int, gsrc, gdst, src_promise_id, fuel_left as nat) == spec_run(
                init,
                start_addr as int,
                gsrc,
                gdst,
                src_promise_id,
                fuel as nat,
            ),
        decreases fuel_left,
    {
        let ghost pre = vat@;
        let ghost x0 = x as int;
        let ghost f0 = fuel_left as nat;
        if fuel_left == 0 {
            return Result::Err(VmError::StepLimitError);
        }
        if x >= vat.code.len() {
            proof {
                assert(spec_step(pre, x0, gsrc, gdst, src_promise_id) == StepV::Done(pre));
                assert(spec_run(pre, x0, gsrc, gdst, src_promise_id, f0) == spec_finish(pre));
            }
            return finish_run(vat);
        }
        let decoded = try_decode_instruction(x, vat.code.as_slice());
        let (x2, inst) = match decoded {
            Option::Some(t) => t,
            Option::None => {
                proof {
                    assert(spec_step(pre, x0, gsrc, gdst, src_promise_id) == StepV::Fail(
                        VmError::CodeError,
                    ));
                }
                return Result::Err(VmError::CodeError);
            },
        };
        match inst {
            Op::Nop => {
                proof {
                    assert(spec_step(pre, x0, gsrc, gdst, src_promise_id) == StepV::Continue(
                        vat@,
                        x2 as int,
                    ));
                }
                x = x2;
            },
            Op::Push(a0) => {
                let ghost pre_ops = vat.op_stack@;
                vat.op_stack.push(a0);
                proof {
                    crate::vm_core::lemma_views_push(pre_ops, vat.op_stack@.last());
                    assert(vat@ =~~= (VatV { op_stack: pre.op_stack.push(vat.op_stack@.last()@), ..pre }));
                    assert(spec_step(pre, x0, gsrc, gdst, src_promise_id) == StepV::Continue(
                        vat@,
                        x2 as int,
                    ));
                }
                x = x2;
            },
            Op::Add | Op::Sub | Op::Mul | Op::Div => {
                match step_arith(vat, &inst, x2) {
                    Result::Ok(()) => {
                        proof {
                            assert(spec_step(pre, x0, gsrc, gdst, src_promise_id)
                                == StepV::Continue(vat@, x2 as int));
                        }
                        x = x2;
                    },
                    Result::Err(e) => {
                        return Result::Err(e);
                    },
                }
            },
            Op::Lload(s0) => {
                if vat.call_stack.len() == 0 {
                    return Result::Err(VmError::StackImbalanceError);
                }
                let fi = vat.call_stack.len() - 1;
                let val = match vat.call_stack[fi].locals.get(&s0) {
                    Option::Some(v) => v.duplicate(),
                    Option::None => {
                        proof {
                            assert(vat.call_stack@[fi as int]@ == pre.call_stack.last());
                        }
                        return Result::Err(VmError::RuntimeTypeError);
                    },
                };
                let ghost pre_ops = vat.op_stack@;
                vat.op_stack.push(val);
                proof {
                    crate::vm_core::lemma_views_push(pre_ops, vat.op_stack@.last());
                    assert(pre.call_stack.last() == vat.call_stack@[fi as int]@);
                    assert(vat@ =~~= (VatV {
                        op_stack: pre.op_stack.push(pre.call_stack.last().locals[s0@]),
                        ..pre
                    }));
                    assert(spec_step(pre, x0, gsrc, gdst, src_promise_id) == StepV::Continue(
                        vat@,
                        x2 as int,
                    ));
                }
                x = x2;
            },
            Op::Lstore(s0) => {
                match step_lstore(vat, &s0, x2) {
                    Result::Ok(()) => {
                        proof {
                            assert(spec_step(pre, x0, gsrc, gdst, src_promise_id)
                                == StepV::Continue(vat@, x2 as int));
                        }
                        x = x2;
                    },
                    Result::Err(e) => {
                        return Result::Err(e);
                    },
                }
            },
            Op::Eload(s0) => {
                if vat.call_stack.len() == 0 {
                    return Result::Err(VmError::StackImbalanceError);
                }
                let fi = vat.call_stack.len() - 1;
                let eid = vat.call_stack[fi].entity_id as usize;
                proof {
                    assert(vat.call_stack@[fi as int]@ == pre.call_stack.last());
                }
                if eid >= vat.entities.len() {
                    return Result::Err(VmError::AddressError);
                }
                let val = match vat.entities[eid].data.get(&s0) {
                    Option::Some(v) => v.duplicate(),
                    Option::None => {
                        proof {
                            assert(vat.entities@[eid as int]@ == pre.entities[eid as int]);
                        }
                        return Result::Err(VmError::RuntimeTypeError);
                    },
                };
                let ghost pre_ops = vat.op_stack@;
                vat.op_stack.push(val);
                proof {
                    crate::vm_core::lemma_views_push(pre_ops, vat.op_stack@.last());
                    assert(pre.entities[eid as int] == vat.entities@[eid as int]@);
                    assert(vat@ =~~= (VatV {
                        op_stack: pre.op_stack.push(pre.entities[eid as int].data[s0@]),
                        ..pre
                    }));
                    assert(spec_step(pre, x0, gsrc, gdst, src_promise_id) == StepV::Continue(
                        vat@,
                        x2 as int,
                    ));
                }
                x = x2;
            },
            Op::Estore(s0) => {
                match step_estore(vat, &s0, x2) {
                    Result::Ok(()) => {
                        proof {
                            assert(spec_step(pre, x0, gsrc, gdst, src_promise_id)
                                == StepV::Continue(vat@, x2 as int));
                        }
                        x = x2;
                    },
                    Result::Err(e) => {
                        return Result::Err(e);
                    },
                }
            },
            Op::Call(a0, a1) => {
                match step_call(vat, a0, a1, x2) {
                    Result::Ok(()) => {
                        proof {
                            assert(spec_step(pre, x0, gsrc, gdst, src_promise_id)
                                == StepV::Continue(vat@, a0 as int));
                        }
                        x = a0 as usize;
                    },
                    Result::Err(e) => {
                        return Result::Err(e);
                    },
                }
            },
            Op::ConstructEntity(a0, a1) => {
                match step_construct(vat, a0, a1, x2) {
                    Result::Ok(ip) => {
                        proof {
                            assert(spec_step(pre, x0, gsrc, gdst, src_promise_id)
                                == StepV::Continue(vat@, ip as int));
                        }
                        x = ip;
                    },
                    Result::Err(e) => {
                        return Result::Err(e);
                    },
                }
            },
            Op::Message(a0, a1) => {
                match step_message(vat, a0, a1, msg, src_promise_id, x2) {
                    Result::Ok(()) => {
                        proof {
                            assert(spec_step(pre, x0, gsrc, gdst, src_promise_id)
                                == StepV::Continue(vat@, x2 as int));
                        }
                        x = x2;
                    },
                    Result::Err(e) => {
                        return Result::Err(e);
                    },
                }
            },
            Op::Await => {
                match step_await(vat, x2) {
                    Result::Ok(yielded) => {
                        if yielded {
                            proof {
                                assert(spec_step(pre, x0, gsrc, gdst, src_promise_id)
                                    == StepV::Yield(vat@));
                                assert(spec_run(pre, x0, gsrc, gdst, src_promise_id, f0)
                                    == RunV::Yielded(vat@));
                            }
                            return Result::Ok(RunOutcome::Yielded);
                        }
                        proof {
                            assert(spec_step(pre, x0, gsrc, gdst, src_promise_id)
                                == StepV::Continue(vat@, x2 as int));
                        }
                        x = x2;
                    },
                    Result::Err(e) => {
                        return Result::Err(e);
                    },
                }
            },
            Op::Ret => {
                if vat.call_stack.len() == 0 {
                    return Result::Err(VmError::StackImbalanceError);
                }
                let ghost pre_frames = vat.call_stack@;
                let sf = match vat.call_stack.pop() {
                    Option::Some(f) => f,
                    Option::None => {
                        proof {
                            assert(false);
                        }
                        StackFrame {
                            entity_id: 0,
                            locals: ValMap::new(),
                            return_address: Option::None,
                        }
                    },
                };
                proof {
                    crate::vm_core::lemma_views_drop_last(pre_frames);
                    assert(sf@ == pre.call_stack.last());
                    assert(vat@ =~~= (VatV { call_stack: pre.call_stack.drop_last(), ..pre }));
                }
                match sf.return_address {
                    Option::Some(ra) => {
                        proof {
                            assert(spec_step(pre, x0, gsrc, gdst, src_promise_id)
                                == StepV::Continue(vat@, ra as int));
                        }
                        x = ra;
                    },
                    Option::None => {
                        proof {
                            assert(spec_step(pre, x0, gsrc, gdst, src_promise_id) == StepV::Done(
                                vat@,
                            ));
                            assert(spec_run(pre, x0, gsrc, gdst, src_promise_id, f0)
                                == spec_finish(vat@));
                        }
                        return finish_run(vat);
                    },
                }
            },
            Op::ForeignCall(a0, a1) => {
                if vat.call_stack.len() == 0 {
                    return Result::Err(VmError::StackImbalanceError);
                }
                match collect_foreign_args(vat, a1) {
                    Result::Ok(args) => {
                        proof {
                            assert(spec_step(pre, x0, gsrc, gdst, src_promise_id)
                                == StepV::Foreign(vat@, a0, views_of(args@), x2 as int));
                            assert(spec_run(pre, x0, gsrc, gdst, src_promise_id, f0)
                                == RunV::Foreign(vat@, a0, views_of(args@), x2 as int));
                        }
                        return Result::Ok(RunOutcome::Foreign { fc_id: a0, args, resume: x2 });
                    },
                    Result::Err(e) => {
                        return Result::Err(e);
                    },
                }
            },
        }
        proof {
            assert(spec_run(pre, x0, gsrc, gdst, src_promise_id, f0) == spec_run(
                vat@,
                x as int,
                gsrc,
                gdst,
                src_promise_id,
                (f0 - 1) as nat,
            ));
        }
        fuel_left = fuel_left - 1;
    }
}

/// No step of the machine ever removes a promise record: the in-flight
/// table only grows, and the records already in it keep their positions'
/// count, so a promise id is never reused while its record exists.
pub proof fn lemma_step_promises_monotonic(
    v: VatV,
    ip: int,
    ms: EntityAddress,
    md: EntityAddress,
    sp: Option<u32>,
)
    ensures
        match spec_step(v, ip, ms, md, sp) {
            StepV::Continue(v2, ip2) => v2.promise_stack.len() >= v.promise_stack.len(),
            StepV::Done(v2) => v2.promise_stack.len() >= v.promise_stack.len(),
            StepV::Yield(v2) => v2.promise_stack.len() >= v.promise_stack.len(),
            StepV::Foreign(v2, idx, args, rip) => v2.promise_stack.len()
                >= v.promise_stack.len(),
            StepV::Fail(e) => true,
        },
{
}

/// Along any run of the machine, the promise table never shrinks.
pub proof fn lemma_run_promises_monotonic(
    v: VatV,
    ip: int,
    ms: EntityAddress,
    md: EntityAddress,
    sp: Option<u32>,
    fuel: nat,
)
    ensures
        match spec_run(v, ip, ms, md, sp, fuel) {
            RunV::Completed(v2, val) => v2.promise_stack.len() >= v.promise_stack.len(),
            RunV::Yielded(v2) => v2.promise_stack.len() >= v.promise_stack.len(),
            RunV::Foreign(v2, idx, args, rip) => v2.promise_stack.len() >= v.promise_stack.len(),
            RunV::Failed(e) => true,
        },
    decreases fuel,
{
    if fuel > 0 {
        lemma_step_promises_monotonic(v, ip, ms, md, sp);
        match spec_step(v, ip, ms, md, sp) {
            StepV::Continue(v2, ip2) => {
                lemma_run_promises_monotonic(v2, ip2, ms, md, sp, (fuel - 1) as nat);
            },
            _ => {},
        }
    }
}

/// Promise id monotonicity: a `Message` send allocates exactly the next free
/// id — the current size of the promise table — and grows the table by one,
/// leaving every existing record in place. Together with the run-level
/// monotonicity above, consecutive sends within one vat allocate strictly
/// increasing ids.
pub proof fn lemma_message_allocates_next_id(
    v: VatV,
    a0: u64,
    a1: u8,
    ms: EntityAddress,
    md: EntityAddress,
    sp: Option<u32>,
    x2: int,
)
    ensures
        match spec_step_message(v, a0, a1, ms, md, sp, x2) {
            StepV::Continue(v2, ip2) => v2.promise_stack.len() == v.promise_stack.len() + 1
                && v2.op_stack.last() == HvalueV::VPromise(v.promise_stack.len() as u8)
                && v2.promise_stack.subrange(0, v.promise_stack.len() as int)
                == v.promise_stack,
            StepV::Fail(e) => true,
            _ => false,
        },
{
    match spec_step_message(v, a0, a1, ms, md, sp, x2) {
        StepV::Continue(v2, ip2) => {
            assert(v2.promise_stack.subrange(0, v.promise_stack.len() as int) =~= v.promise_stack);
        },
        _ => {},
    }
}

/// Two sends, one after the other: whatever the machine does between them,
/// the second allocates a strictly larger promise id than the first.
pub proof fn lemma_consecutive_sends_increase(
    v1: VatV,
    id1: int,
    v2: VatV,
    id2: int,
)
    requires
        id1 == v1.promise_stack.len(),
        v2.promise_stack.len() > v1.promise_stack.len(),
        id2 == v2.promise_stack.len(),
    ensures
        id2 > id1,
{
}

/// What processing one message yields: the vat's new state and at most one
/// response to send, or a pending host-native call with the continuation
/// that finishes the message once its result is back.
pub ghost enum MsgOutV {
    Done(VatV, Option<MsgV>),
    Foreign(VatV, u64, Seq<HvalueV>, MsgContV),
    Failed(VmError),
}

#[verifier::ext_equal]
pub ghost struct MsgContV {
    pub resume: int,
    pub msg: MsgV,
    pub kind: ContKindV,
}

#[verifier::ext_equal]
pub ghost enum ContKindV {
    FromRequest { src_promise: Option<u32>, no_response: bool },
    FromResponse {
        remaining: Seq<usize>,
        result: HvalueV,
        var_name: Seq<char>,
        save_point: (Seq<HvalueV>, Seq<StackFrameV>),
        prom_src_promise: Option<u32>,
        prom_src_entity: Option<EntityAddress>,
        acc_out: Option<MsgV>,
    },
}

/// How a request ends once its run is over: on completion, unless
/// no-response was set, a response carrying the result and the request's own
/// source promise goes back to the sender.
pub open spec fn spec_finish_request(
    run: RunV,
    m: MsgV,
    src_promise: Option<u32>,
    no_response: bool,
) -> MsgOutV {
    match run {
        RunV::Completed(v2, val) => if no_response {
            MsgOutV::Done(v2, Option::None)
        } else {
            MsgOutV::Done(
                v2,
                Option::Some(
                    MsgV {
                        src_address: m.dst_address,
                        dst_address: m.src_address,
                        contents: MsgContentsV::Response {
                            result: val,
                            dst_promise: src_promise,
                        },
                    },
                ),
            )
        },
        RunV::Yielded(v2) => MsgOutV::Done(v2, Option::None),
        RunV::Foreign(v2, idx, args, rip) => MsgOutV::Foreign(
            v2,
            idx,
            args,
            MsgContV {
                resume: rip,
                msg: m,
                kind: ContKindV::FromRequest { src_promise, no_response },
            },
        ),
        RunV::Failed(e) => MsgOutV::Failed(e),
    }
}

/// How one drained resumption ends: a synchronous completion whose promise
/// had its own source sends a further response up the chain; then the
/// remaining resumptions are processed.
pub open spec fn spec_after_resolution_run(
    run: RunV,
    remaining: Seq<usize>,
    result: HvalueV,
    var_name: Seq<char>,
    save_point: (Seq<HvalueV>, Seq<StackFrameV>),
    prom_sp: Option<u32>,
    prom_se: Option<EntityAddress>,
    m: MsgV,
    acc_out: Option<MsgV>,
    fuel: nat,
) -> MsgOutV
    decreases remaining.len(), 1int,
{
    match run {
        RunV::Completed(v3, res) => {
            if prom_sp is Some && prom_se is Some {
                spec_process_resolutions(
                    v3,
                    remaining,
                    result,
                    var_name,
                    save_point,
                    prom_sp,
                    prom_se,
                    m,
                    Option::Some(
                        MsgV {
                            src_address: m.dst_address,
                            dst_address: prom_se->Some_0,
                            contents: MsgContentsV::Response {
                                result: res,
                                dst_promise: prom_sp,
                            },
                        },
                    ),
                    fuel,
                )
            } else if prom_sp is Some {
                MsgOutV::Failed(VmError::AddressError)
            } else {
                spec_process_resolutions(
                    v3,
                    remaining,
                    result,
                    var_name,
                    save_point,
                    prom_sp,
                    prom_se,
                    m,
                    acc_out,
                    fuel,
                )
            }
        },
        RunV::Yielded(v3) => spec_process_resolutions(
            v3,
            remaining,
            result,
            var_name,
            save_point,
            prom_sp,
            prom_se,
            m,
            acc_out,
            fuel,
        ),
        RunV::Foreign(v3, idx, args, rip) => MsgOutV::Foreign(
            v3,
            idx,
            args,
            MsgContV {
                resume: rip,
                msg: m,
                kind: ContKindV::FromResponse {
                    remaining,
                    result,
                    var_name,
                    save_point,
                    prom_src_promise: prom_sp,
                    prom_src_entity: prom_se,
                    acc_out,
                },
            },
        ),
        RunV::Failed(e) => MsgOutV::Failed(e),
    }
}

/// Processes the drained suspended instruction pointers one after another:
/// each restores the promise's saved stacks, binds the response's result to
/// the recorded local name, and resumes interpretation at the saved pointer.
pub open spec fn spec_process_resolutions(
    v: VatV,
    remaining: Seq<usize>,
    result: HvalueV,
    var_name: Seq<char>,
    save_point: (Seq<HvalueV>, Seq<StackFrameV>),
    prom_sp: Option<u32>,
    prom_se: Option<EntityAddress>,
    m: MsgV,
    acc_out: Option<MsgV>,
    fuel: nat,
) -> MsgOutV
    decreases remaining.len(), 0int,
{
    if remaining.len() == 0 {
        MsgOutV::Done(v, acc_out)
    } else {
        let ip = remaining[0] as int;
        let v1 = VatV { op_stack: save_point.0, call_stack: save_point.1, ..v };
        if v1.call_stack.len() == 0 {
            MsgOutV::Failed(VmError::StackImbalanceError)
        } else {
            let fr = v1.call_stack.last();
            let v2 = VatV {
                call_stack: v1.call_stack.update(
                    v1.call_stack.len() - 1,
                    StackFrameV { locals: fr.locals.insert(var_name, result), ..fr },
                ),
                ..v1
            };
            if !((m.dst_address.entity_id as int) < v2.entities.len()) {
                MsgOutV::Failed(VmError::AddressError)
            } else {
                spec_after_resolution_run(
                    spec_run(v2, ip, m.src_address, m.dst_address, prom_sp, fuel),
                    remaining.drop_first(),
                    result,
                    var_name,
                    save_point,
                    prom_sp,
                    prom_se,
                    m,
                    acc_out,
                    fuel,
                )
            }
        }
    }
}

/// What processing a whole message yields. A request pushes an outermost
/// frame for the destination entity and the request's arguments, resolves
/// the target function's entry from the function-location table by the
/// destination entity's compiled type, and runs the interpreter there. A
/// response resolves the named promise and drains its suspended
/// continuations.
pub open spec fn spec_run_msg(v: VatV, m: MsgV, fuel: nat) -> MsgOutV {
    match m.contents {
        MsgContentsV::Request { args, function_id, src_promise, no_response } => {
            match spec_parse_data_table(v.code, 0) {
                Option::None => MsgOutV::Failed(VmError::CodeError),
                Option::Some((z, dt)) => match spec_parse_data_table(v.code, z) {
                    Option::None => MsgOutV::Failed(VmError::CodeError),
                    Option::Some((q, it)) => match spec_parse_func_table(v.code, q) {
                        Option::None => MsgOutV::Failed(VmError::CodeError),
                        Option::Some((cend, ft)) => {
                            if !((m.dst_address.entity_id as int) < v.entities.len()) {
                                MsgOutV::Failed(VmError::AddressError)
                            } else {
                                let et = v.entities[m.dst_address.entity_id as int].entity_type;
                                match spec_lookup_function(ft, et, function_id) {
                                    Option::None => MsgOutV::Failed(VmError::AddressError),
                                    Option::Some(fe) => {
                                        let v1 = VatV {
                                            call_stack: v.call_stack.push(
                                                StackFrameV {
                                                    entity_id: m.dst_address.entity_id,
                                                    locals: Map::empty(),
                                                    return_address: Option::None,
                                                },
                                            ),
                                            op_stack: v.op_stack + args,
                                            ..v
                                        };
                                        spec_finish_request(
                                            spec_run(
                                                v1,
                                                fe.start as int,
                                                m.src_address,
                                                m.dst_address,
                                                src_promise,
                                                fuel,
                                            ),
                                            m,
                                            src_promise,
                                            no_response,
                                        )
                                    },
                                }
                            }
                        },
                    },
                },
            }
        },
        MsgContentsV::Response { result, dst_promise } => match dst_promise {
            Option::None => MsgOutV::Done(v, Option::None),
            Option::Some(pid) => {
                if !((pid as int) < v.promise_stack.len()) {
                    MsgOutV::Failed(VmError::AddressError)
                } else {
                    let p = v.promise_stack[pid as int];
                    let v1 = VatV {
                        promise_stack: v.promise_stack.update(
                            pid as int,
                            PromiseV { resolved: true, on_resolve: Seq::empty(), ..p },
                        ),
                        ..v
                    };
                    if p.on_resolve.len() > 0 && p.var_names.len() == 0 {
                        MsgOutV::Failed(VmError::RuntimeTypeError)
                    } else {
                        spec_process_resolutions(
                            v1,
                            p.on_resolve,
                            result,
                            if p.var_names.len() > 0 {
                                p.var_names[0]
                            } else {
                                Seq::empty()
                            },
                            p.save_point,
                            p.src_promise,
                            p.src_entity,
                            m,
                            Option::None,
                            fuel,
                        )
                    }
                }
            },
        },
    }
}

/// Resumes a message whose run stopped at a host-native call, with the
/// native's result pushed as if the call had returned in place.
pub open spec fn spec_resume_foreign(v: VatV, cont: MsgContV, result: HvalueV, fuel: nat) -> MsgOutV {
    let v1 = VatV { op_stack: v.op_stack.push(result), ..v };
    if !((cont.msg.dst_address.entity_id as int) < v1.entities.len()) {
        MsgOutV::Failed(VmError::AddressError)
    } else {
        match cont.kind {
            ContKindV::FromRequest { src_promise, no_response } => spec_finish_request(
                spec_run(
                    v1,
                    cont.resume,
                    cont.msg.src_address,
                    cont.msg.dst_address,
                    src_promise,
                    fuel,
                ),
                cont.msg,
                src_promise,
                no_response,
            ),
            ContKindV::FromResponse {
                remaining,
                result: res0,
                var_name,
                save_point,
                prom_src_promise,
                prom_src_entity,
                acc_out,
            } => spec_after_resolution_run(
                spec_run(
                    v1,
                    cont.resume,
                    cont.msg.src_address,
                    cont.msg.dst_address,
                    prom_src_promise,
                    fuel,
                ),
                remaining,
                res0,
                var_name,
                save_point,
                prom_src_promise,
                prom_src_entity,
                cont.msg,
                acc_out,
                fuel,
            ),
        }
    }
}

/// What is left to do when a host-native call interrupted a message: where
/// to resume, the message being processed, and whether the interruption came
/// while running a request or while draining a response's resumptions.
#[derive(Debug)]
pub enum ContKind {
    FromRequest { src_promise: Option<u32>, no_response: bool },
    FromResponse {
        remaining: Vec<usize>,
        result: Hvalue,
        var_name: String,
        save_op: Vec<Hvalue>,
        save_frames: Vec<StackFrame>,
        prom_src_promise: Option<u32>,
        prom_src_entity: Option<EntityAddress>,
        acc_out: Option<Msg>,
    },
}

#[derive(Debug)]
pub struct MsgCont {
    pub resume: usize,
    pub msg: Msg,
    pub kind: ContKind,
}

pub open spec fn opt_msg_view(o: Option<Msg>) -> Option<MsgV> {
    match o {
        Option::Some(m) => Option::Some(m@),
        Option::None => Option::None,
    }
}

impl View for ContKind {
    type V = ContKindV;

    open spec fn view(&self) -> ContKindV {
        match self {
            ContKind::FromRequest { src_promise, no_response } => (ContKindV::FromRequest {
                src_promise: *src_promise,
                no_response: *no_response,
            }),
            ContKind::FromResponse {
                remaining,
                result,
                var_name,
                save_op,
                save_frames,
                prom_src_promise,
                prom_src_entity,
                acc_out,
            } => (ContKindV::FromResponse {
                remaining: remaining@,
                result: result@,
                var_name: var_name@,
                save_point: (views_of(save_op@), views_of(save_frames@)),
                prom_src_promise: *prom_src_promise,
                prom_src_entity: *prom_src_entity,
                acc_out: opt_msg_view(*acc_out),
            }),
        }
    }
}

impl View for MsgCont {
    type V = MsgContV;

    open spec fn view(&self) -> MsgContV {
        MsgContV { resume: self.resume as int, msg: self.msg@, kind: self.kind@ }
    }
}

impl MsgCont {
    /// The frames parked in a response continuation are well-formed.
    pub open spec fn wf(self) -> bool {
        match self.kind {
            ContKind::FromResponse { save_frames, .. } => forall|j: int|
                0 <= j < save_frames@.len() ==> (#[trigger] save_frames@[j]).wf(),
            _ => true,
        }
    }
}

/// How processing one message ended, seen by the caller: done with at most
/// one response to deliver, or stopped at a host-native call that the host
/// performs before resuming through the continuation.
#[derive(Debug)]
pub enum RunMsgOutcome {
    Done(Option<Msg>),
    Foreign { fc_id: u64, args: Vec<Hvalue>, cont: MsgCont },
}

/// How an executable message-processing result and final state correspond
/// to what the mathematical processing yields.
pub open spec fn msg_result_matches(
    res: MsgOutV,
    r: Result<RunMsgOutcome, VmError>,
    post: VatV,
) -> bool {
    match res {
        MsgOutV::Done(v2, out) => (r matches Ok(RunMsgOutcome::Done(o)) && opt_msg_view(o) == out)
            && post == v2,
        MsgOutV::Foreign(v2, idx, fargs, cv) => (r matches Ok(RunMsgOutcome::Foreign {
            fc_id,
            args,
            cont,
        }) && fc_id == idx && views_of(args@) == fargs && cont@ == cv && cont.wf()) && post == v2,
        MsgOutV::Failed(e) => r matches Err(e2) && e2 == e,
    }
}

/// Abandons a failed message: the operand and call stacks are cleared, so
/// the next message taken from the mailbox starts from a clean machine and
/// cannot fail on residue a poisoned message left behind.
fn abandon_run(vat: &mut Vat)
    requires
        old(vat).wf(),
    ensures
        final(vat).wf(),
        final(vat)@ == (VatV {
            op_stack: Seq::<HvalueV>::empty(),
            call_stack: Seq::<StackFrameV>::empty(),
            ..old(vat)@
        }),
{
    vat.op_stack = Vec::new();
    vat.call_stack = Vec::new();
    proof {
        assert(views_of(vat.op_stack@) =~= Seq::<HvalueV>::empty());
        assert(views_of(vat.call_stack@) =~= Seq::<StackFrameV>::empty());
        assert(vat@ =~~= (VatV {
            op_stack: Seq::<HvalueV>::empty(),
            call_stack: Seq::<StackFrameV>::empty(),
            ..old(vat)@
        }));
    }
}

/// Drains suspended instruction pointers: each restores the saved stacks,
/// binds the result into the recorded local and resumes at the saved
/// pointer; synchronous completions whose promise is itself awaited send a
/// further response up the chain. A failure clears the live stacks: the
/// promise table, entities and queued mail keep what was done before it.
#[verifier::rlimit(80)]
#[verifier::spinoff_prover]
fn process_resolutions(
    vat: &mut Vat,
    remaining: Vec<usize>,
    result: &Hvalue,
    var_name: &String,
    save_op: &Vec<Hvalue>,
    save_frames: &Vec<StackFrame>,
    prom_sp: Option<u32>,
    prom_se: Option<EntityAddress>,
    msg: &Msg,
    acc_out: Option<Msg>,
    fuel: u64,
) -> (r: Result<RunMsgOutcome, VmError>)
    requires
        old(vat).wf(),
        forall|j: int| 0 <= j < save_frames@.len() ==> (#[trigger] save_frames@[j]).wf(),
    ensures
        final(vat).wf(),
        msg_result_matches(
            spec_process_resolutions(
                old(vat)@,
                remaining@,
                result@,
                var_name@,
                (views_of(save_op@), views_of(save_frames@)),
                prom_sp,
                prom_se,
                msg@,
                opt_msg_view(acc_out),
                fuel as nat,
            ),
            r,
            final(vat)@,
        ),
        r is Err ==> final(vat)@.op_stack == Seq::<HvalueV>::empty()
            && final(vat)@.call_stack == Seq::<StackFrameV>::empty(),
{
    let ghost gsave = (views_of(save_op@), views_of(save_frames@));
    let ghost target = spec_process_resolutions(
        old(vat)@,
        remaining@,
        result@,
        var_name@,
        gsave,
        prom_sp,
        prom_se,
        msg@,
        opt_msg_view(acc_out),
        fuel as nat,
    );
    let mut work = remaining;
    let mut acc: Option<Msg> = acc_out;
    while work.len() > 0
        invariant
            vat.wf(),
            gsave == (views_of(save_op@), views_of(save_frames@)),
            forall|j: int| 0 <= j < save_frames@.len() ==> (#[trigger] save_frames@[j]).wf(),
            spec_process_resolutions(
                vat@,
                work@,
                result@,
                var_name@,
                gsave,
                prom_sp,
                prom_se,
                msg@,
                opt_msg_view(acc),
                fuel as nat,
            ) == target,
            target == spec_process_resolutions(
                old(vat)@,
                remaining@,
                result@,
                var_name@,
                (views_of(save_op@), views_of(save_frames@)),
                prom_sp,
                prom_se,
                msg@,
                opt_msg_view(acc_out),
                fuel as nat,
            ),
        decreases work@.len(),
    {
        let ghost pre = vat@;
        let ghost pre_rem = work@;
        let ghost pre_acc = opt_msg_view(acc);
        let ip = work.remove(0);
        proof {
            assert(work@ =~= pre_rem.drop_first());
            assert(ip == pre_rem[0]);
        }
        vat.op_stack = crate::vm_core::duplicate_values(save_op);
        vat.call_stack = crate::vm_core::duplicate_frames(save_frames);
        proof {
            assert(vat@ =~~= (VatV { op_stack: gsave.0, call_stack: gsave.1, ..pre }));
        }
        if vat.call_stack.len() == 0 {
            proof {
                assert(gsave.1.len() == vat@.call_stack.len());
                assert(spec_process_resolutions(
                    pre,
                    pre_rem,
                    result@,
                    var_name@,
                    gsave,
                    prom_sp,
                    prom_se,
                    msg@,
                    pre_acc,
                    fuel as nat,
                ) == MsgOutV::Failed(VmError::StackImbalanceError));
            }
            abandon_run(vat);
            return Result::Err(VmError::StackImbalanceError);
        }
        vat.store_local(var_name, result);
        let ghost inner = if !((msg@.dst_address.entity_id as int) < vat@.entities.len()) {
            RunV::Failed(VmError::AddressError)
        } else {
            spec_run(
                vat@,
                ip as int,
                msg@.src_address,
                msg@.dst_address,
                prom_sp,
                fuel as nat,
            )
        };
        proof {
            assert(spec_process_resolutions(
                pre,
                pre_rem,
                result@,
                var_name@,
                gsave,
                prom_sp,
                prom_se,
                msg@,
                pre_acc,
                fuel as nat,
            ) == spec_after_resolution_run(
                inner,
                pre_rem.drop_first(),
                result@,
                var_name@,
                gsave,
                prom_sp,
                prom_se,
                msg@,
                pre_acc,
                fuel as nat,
            ));
        }
        let rr = run_expr(ip, vat, msg, prom_sp, fuel);
        match rr {
            Result::Err(e) => {
                proof {
                    assert(spec_after_resolution_run(
                        inner,
                        pre_rem.drop_first(),
                        result@,
                        var_name@,
                        gsave,
                        prom_sp,
                        prom_se,
                        msg@,
                        pre_acc,
                        fuel as nat,
                    ) == MsgOutV::Failed(e));
                }
                abandon_run(vat);
                return Result::Err(e);
            },
            Result::Ok(RunOutcome::Completed(res)) => {
                if prom_sp.is_some() {
                    match prom_se {
                        Option::Some(se) => {
                            acc = Option::Some(
                                Msg {
                                    src_address: msg.dst_address,
                                    dst_address: se,
                                    contents: MsgContents::Response {
                                        result: res,
                                        dst_promise: prom_sp,
                                    },
                                },
                            );
                        },
                        Option::None => {
                            abandon_run(vat);
                            return Result::Err(VmError::AddressError);
                        },
                    }
                }
            },
            Result::Ok(RunOutcome::Yielded) => {
            },
            Result::Ok(RunOutcome::Foreign { fc_id, args, resume }) => {
                let cont = MsgCont {
                    resume,
                    msg: msg.duplicate(),
                    kind: ContKind::FromResponse {
                        remaining: work,
                        result: result.duplicate(),
                        var_name: var_name.clone(),
                        save_op: crate::vm_core::duplicate_values(save_op),
                        save_frames: crate::vm_core::duplicate_frames(save_frames),
                        prom_src_promise: prom_sp,
                        prom_src_entity: prom_se,
                        acc_out: acc,
                    },
                };
                proof {
                    assert(cont@.kind =~~= (ContKindV::FromResponse {
                        remaining: pre_rem.drop_first(),
                        result: result@,
                        var_name: var_name@,
                        save_point: gsave,
                        prom_src_promise: prom_sp,
                        prom_src_entity: prom_se,
                        acc_out: pre_acc,
                    }));
                    assert(cont@ =~~= (MsgContV {
                        resume: resume as int,
                        msg: msg@,
                        kind: cont@.kind,
                    }));
                }
                return Result::Ok(RunMsgOutcome::Foreign { fc_id, args, cont });
            },
        }
    }
    Result::Ok(RunMsgOutcome::Done(acc))
}

/// Processes one message against the vat: a request pushes an outermost
/// frame for the destination entity and the request's arguments, resolves
/// the target function's entry from the function-location table by the
/// destination entity's compiled type, and runs the interpreter from there;
/// on synchronous completion, unless no-response was set, the result goes
/// back to the sender carrying the request's source promise. A response
/// marks its promise resolved and drains the suspended continuations. A
/// failure poisons only this message: the operand and call stacks come out
/// empty, so the next message runs on a clean machine.
#[verifier::rlimit(80)]
#[verifier::spinoff_prover]
pub fn run_msg(vat: &mut Vat, msg: &Msg, fuel: u64) -> (r: Result<RunMsgOutcome, VmError>)
    requires
        old(vat).wf(),
    ensures
        final(vat).wf(),
        msg_result_matches(spec_run_msg(old(vat)@, msg@, fuel as nat), r, final(vat)@),
        r is Err ==> final(vat)@.op_stack == Seq::<HvalueV>::empty()
            && final(vat)@.call_stack == Seq::<StackFrameV>::empty(),
{
    match &msg.contents {
        MsgContents::Request { args, function_id, src_promise, no_response } => {
            let mut z: usize = 0;
            let _dt = match load_entity_data_table(&mut z, vat.code.as_slice()) {
                Result::Ok(t) => t,
                Result::Err(e) => {
                    abandon_run(vat);
                    return Result::Err(e);
                },
            };
            let _it = match load_entity_inoculation_table(&mut z, vat.code.as_slice()) {
                Result::Ok(t) => t,
                Result::Err(e) => {
                    abandon_run(vat);
                    return Result::Err(e);
                },
            };
            let ft = match load_entity_function_table(&mut z, vat.code.as_slice()) {
                Result::Ok(t) => t,
                Result::Err(e) => {
                    abandon_run(vat);
                    return Result::Err(e);
                },
            };
            if msg.dst_address.entity_id as usize >= vat.entities.len() {
                abandon_run(vat);
                return Result::Err(VmError::AddressError);
            }
            let et = vat.entities[msg.dst_address.entity_id as usize].entity_type;
            let fe = match lookup_function_location(&ft, et, *function_id) {
                Option::Some(fe) => fe,
                Option::None => {
                    abandon_run(vat);
                    return Result::Err(VmError::AddressError);
                },
            };
            let ghost pre = vat@;
            vat.call_stack.push(
                StackFrame {
                    entity_id: msg.dst_address.entity_id,
                    locals: ValMap::new(),
                    return_address: Option::None,
                },
            );
            proof {
                crate::vm_core::lemma_views_push(old(vat).call_stack@, vat.call_stack@.last());
            }
            let na = args.len();
            let mut i: usize = 0;
            while i < na
                invariant
                    vat.wf(),
                    0 <= i <= na,
                    na == args@.len(),
                    vat.inbox == old(vat).inbox,
                    vat.outbox == old(vat).outbox,
                    vat.entities == old(vat).entities,
                    vat.vat_id == old(vat).vat_id,
                    vat.promise_stack == old(vat).promise_stack,
                    vat.code == old(vat).code,
                    views_of(vat.call_stack@) == old(vat)@.call_stack.push(
                        (StackFrameV {
                            entity_id: msg@.dst_address.entity_id,
                            locals: Map::<Seq<char>, HvalueV>::empty(),
                            return_address: Option::<usize>::None,
                        }),
                    ),
                    views_of(vat.op_stack@) == old(vat)@.op_stack + views_of(args@).subrange(
                        0,
                        i as int,
                    ),
                decreases na - i,
            {
                let ghost pre_ops = vat.op_stack@;
                vat.op_stack.push(args[i].duplicate());
                proof {
                    crate::vm_core::lemma_views_push(pre_ops, vat.op_stack@.last());
                    assert(views_of(vat.op_stack@) =~= old(vat)@.op_stack + views_of(
                        args@,
                    ).subrange(0, i + 1 as int));
                }
                i = i + 1;
            }
            proof {
                assert(views_of(args@).subrange(0, na as int) =~= views_of(args@));
                match msg@.contents {
                    MsgContentsV::Request { args: gargs, .. } => {
                        assert(gargs == views_of(args@));
                    },
                    _ => {
                        assert(false);
                    },
                }
            }
            let rr = run_expr(fe.start as usize, vat, msg, *src_promise, fuel);
            match rr {
                Result::Err(e) => {
                    abandon_run(vat);
                    Result::Err(e)
                },
                Result::Ok(RunOutcome::Completed(res)) => {
                    if *no_response {
                        Result::Ok(RunMsgOutcome::Done(Option::None))
                    } else {
                        Result::Ok(
                            RunMsgOutcome::Done(
                                Option::Some(
                                    Msg {
                                        src_address: msg.dst_address,
                                        dst_address: msg.src_address,
                                        contents: MsgContents::Response {
                                            result: res,
                                            dst_promise: *src_promise,
                                        },
                                    },
                                ),
                            ),
                        )
                    }
                },
                Result::Ok(RunOutcome::Yielded) => Result::Ok(RunMsgOutcome::Done(Option::None)),
                Result::Ok(RunOutcome::Foreign { fc_id, args: fargs, resume }) => Result::Ok(
                    RunMsgOutcome::Foreign {
                        fc_id,
                        args: fargs,
                        cont: MsgCont {
                            resume,
                            msg: msg.duplicate(),
                            kind: ContKind::FromRequest {
                                src_promise: *src_promise,
                                no_response: *no_response,
                            },
                        },
                    },
                ),
            }
        },
        MsgContents::Response { result, dst_promise } => {
            let pid: u32 = match dst_promise {
                Option::Some(p) => *p,
                Option::None => {
                    return Result::Ok(RunMsgOutcome::Done(Option::None));
                },
            };
            if pid as usize >= vat.promise_stack.len() {
                abandon_run(vat);
                return Result::Err(VmError::AddressError);
            }
            let ghost pre_proms = vat.promise_stack@;
            let mut p = vat.promise_stack.remove(pid as usize);
            let resolutions = p.on_resolve;
            p.on_resolve = Vec::new();
            p.resolved = true;
            let var_name: String = if p.var_names.len() > 0 {
                p.var_names[0].clone()
            } else {
                String::new()
            };
            if resolutions.len() > 0 && p.var_names.len() == 0 {
                vat.promise_stack.insert(pid as usize, p);
                abandon_run(vat);
                return Result::Err(VmError::RuntimeTypeError);
            }
            let save_op = crate::vm_core::duplicate_values(&p.save_point.0);
            let save_frames = crate::vm_core::duplicate_frames(&p.save_point.1);
            let prom_sp = p.src_promise;
            let prom_se = p.src_entity;
            vat.promise_stack.insert(pid as usize, p);
            proof {
                crate::vm_core::lemma_remove_insert_is_update(
                    pre_proms,
                    pid as int,
                    vat.promise_stack@[pid as int],
                );
                crate::vm_core::lemma_views_update(
                    pre_proms,
                    pid as int,
                    vat.promise_stack@[pid as int],
                );
                assert(vat@.promise_stack =~~= old(vat)@.promise_stack.update(
                    pid as int,
                    (PromiseV {
                        resolved: true,
                        on_resolve: Seq::<usize>::empty(),
                        ..old(vat)@.promise_stack[pid as int]
                    }),
                ));
                assert(vat@ =~~= (VatV {
                    promise_stack: old(vat)@.promise_stack.update(
                        pid as int,
                        (PromiseV {
                            resolved: true,
                            on_resolve: Seq::<usize>::empty(),
                            ..old(vat)@.promise_stack[pid as int]
                        }),
                    ),
                    ..old(vat)@
                }));
                assert(views_of(save_op@) == old(vat)@.promise_stack[pid as int].save_point.0);
                assert(views_of(save_frames@) == old(vat)@.promise_stack[pid as int].save_point.1);
                assert(resolutions@ == old(vat)@.promise_stack[pid as int].on_resolve);
                if old(vat)@.promise_stack[pid as int].var_names.len() > 0 {
                    assert(var_name@ == old(vat)@.promise_stack[pid as int].var_names[0]);
                } else {
                    assert(var_name@ =~= Seq::<char>::empty());
                }
            }
            process_resolutions(
                vat,
                resolutions,
                result,
                &var_name,
                &save_op,
                &save_frames,
                prom_sp,
                prom_se,
                msg,
                Option::None,
                fuel,
            )
        },
    }
}

/// Resumes a message whose run stopped at a host-native call: pushes the
/// native's result exactly as the call would have, re-enters the
/// interpreter, and finishes the message's protocol. As in `run_msg`, a
/// failure leaves the operand and call stacks empty.
#[verifier::rlimit(80)]
#[verifier::spinoff_prover]
pub fn run_msg_resume(vat: &mut Vat, cont: MsgCont, result: Hvalue, fuel: u64) -> (r: Result<
    RunMsgOutcome,
    VmError,
>)
    requires
        old(vat).wf(),
        cont.wf(),
    ensures
        final(vat).wf(),
        msg_result_matches(
            spec_resume_foreign(old(vat)@, cont@, result@, fuel as nat),
            r,
            final(vat)@,
        ),
        r is Err ==> final(vat)@.op_stack == Seq::<HvalueV>::empty()
            && final(vat)@.call_stack == Seq::<StackFrameV>::empty(),
{
    let ghost pre_ops = vat.op_stack@;
    vat.op_stack.push(result);
    proof {
        crate::vm_core::lemma_views_push(pre_ops, vat.op_stack@.last());
        assert(vat@ =~~= (VatV { op_stack: old(vat)@.op_stack.push(vat.op_stack@.last()@), ..old(vat)@ }));
    }
    match cont.kind {
        ContKind::FromRequest { src_promise, no_response } => {
            let rr = run_expr(cont.resume, vat, &cont.msg, src_promise, fuel);
            match rr {
                Result::Err(e) => {
                    abandon_run(vat);
                    Result::Err(e)
                },
                Result::Ok(RunOutcome::Completed(res)) => {
                    if no_response {
                        Result::Ok(RunMsgOutcome::Done(Option::None))
                    } else {
                        Result::Ok(
                            RunMsgOutcome::Done(
                                Option::Some(
                                    Msg {
                                        src_address: cont.msg.dst_address,
                                        dst_address: cont.msg.src_address,
                                        contents: MsgContents::Response {
                                            result: res,
                                            dst_promise: src_promise,
                                        },
                                    },
                                ),
                            ),
                        )
                    }
                },
                Result::Ok(RunOutcome::Yielded) => Result::Ok(RunMsgOutcome::Done(Option::None)),
                Result::Ok(RunOutcome::Foreign { fc_id, args: fargs, resume }) => Result::Ok(
                    RunMsgOutcome::Foreign {
                        fc_id,
                        args: fargs,
                        cont: MsgCont {
                            resume,
                            msg: cont.msg,
                            kind: ContKind::FromRequest { src_promise, no_response },
                        },
                    },
                ),
            }
        },
        ContKind::FromResponse {
            remaining,
            result: res0,
            var_name,
            save_op,
            save_frames,
            prom_src_promise,
            prom_src_entity,
            acc_out,
        } => {
            let rr = run_expr(cont.resume, vat, &cont.msg, prom_src_promise, fuel);
            match rr {
                Result::Err(e) => {
                    abandon_run(vat);
                    Result::Err(e)
                },
                Result::Ok(RunOutcome::Completed(res)) => {
                    let acc2: Option<Msg> = if prom_src_promise.is_some() {
                        match prom_src_entity {
                            Option::Some(se) => Option::Some(
                                Msg {
                                    src_address: cont.msg.dst_address,
                                    dst_address: se,
                                    contents: MsgContents::Response {
                                        result: res,
                                        dst_promise: prom_src_promise,
                                    },
                                },
                            ),
                            Option::None => {
                                abandon_run(vat);
                                return Result::Err(VmError::AddressError);
                            },
                        }
                    } else {
                        acc_out
                    };
                    process_resolutions(
                        vat,
                        remaining,
                        &res0,
                        &var_name,
                        &save_op,
                        &save_frames,
                        prom_src_promise,
                        prom_src_entity,
                        &cont.msg,
                        acc2,
                        fuel,
                    )
                },
                Result::Ok(RunOutcome::Yielded) => process_resolutions(
                    vat,
                    remaining,
                    &res0,
                    &var_name,
                    &save_op,
                    &save_frames,
                    prom_src_promise,
                    prom_src_entity,
                    &cont.msg,
                    acc_out,
                    fuel,
                ),
                Result::Ok(RunOutcome::Foreign { fc_id, args: fargs, resume }) => Result::Ok(
                    RunMsgOutcome::Foreign {
                        fc_id,
                        args: fargs,
                        cont: MsgCont {
                            resume,
                            msg: cont.msg,
                            kind: ContKind::FromResponse {
                                remaining,
                                result: res0,
                                var_name,
                                save_op,
                                save_frames,
                                prom_src_promise,
                                prom_src_entity,
                                acc_out,
                            },
                        },
                    },
                ),
            }
        },
    }
}

} // verus!
