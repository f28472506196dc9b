//! The virtual machine: a fetch-decode-execute loop over a chunk, driving a
//! fixed-capacity value stack.
//!
//! The loop's behaviour is pinned down by `run_spec`, a total specification
//! of the machine one instruction at a time: `run` returns exactly what
//! `run_spec` says for its starting state.

use vstd::prelude::*;
use crate::chunk::{chunk_balanced, exec_ok, line_at, Chunk, Line};
use crate::common::{opcode_of_byte, OpCode};
use crate::compiler::{constants_wf, Compiler};
use crate::gc::GC;
use crate::obj::allocate_string;
use crate::parser::Diagnostic;
use crate::value::{print_value, rendered, value_wf, Value};
use vstd::wrapping::i64_specs;

verus! {

/// The fixed capacity of the value stack.
pub const STACK_MAX: usize = 256;

/// How one interpretation of a source unit ended.
#[derive(Copy, Clone, Debug, PartialEq, Eq, Structural)]
pub enum InterpretResult {
    InterpretOk,
    InterpretCompileError,
    InterpretRuntimeError,
}

/// Why execution aborted at run time.
#[derive(Copy, Clone, Debug, PartialEq, Eq, Structural)]
pub enum RuntimeErrorKind {
    OperandMustBeNumber,
    OperandsMustBeNumbers,
    OperandsMustBeTwoNumbersOrTwoStrings,
    DivisionByZero,
    StackOverflow,
    InvalidBytecode,
}

impl RuntimeErrorKind {
    /// The diagnostic text for this error.
    pub fn message(&self) -> (r: &'static str)
        ensures
            *self == RuntimeErrorKind::OperandMustBeNumber ==> r@ == "Operand must be a number."@,
            *self == RuntimeErrorKind::OperandsMustBeNumbers ==> r@
                == "Operands must be numbers."@,
            *self == RuntimeErrorKind::OperandsMustBeTwoNumbersOrTwoStrings ==> r@
                == "Operands must be two numbers or two strings."@,
            *self == RuntimeErrorKind::DivisionByZero ==> r@ == "Division by zero."@,
            *self == RuntimeErrorKind::StackOverflow ==> r@ == "Stack overflow."@,
            *self == RuntimeErrorKind::InvalidBytecode ==> r@ == "Invalid bytecode."@,
    {
        match self {
            RuntimeErrorKind::OperandMustBeNumber => "Operand must be a number.",
            RuntimeErrorKind::OperandsMustBeNumbers => "Operands must be numbers.",
            RuntimeErrorKind::OperandsMustBeTwoNumbersOrTwoStrings => "Operands must be two numbers or two strings.",
            RuntimeErrorKind::DivisionByZero => "Division by zero.",
            RuntimeErrorKind::StackOverflow => "Stack overflow.",
            RuntimeErrorKind::InvalidBytecode => "Invalid bytecode.",
        }
    }
}

/// A runtime failure: its kind and the source line of the instruction that
/// was executing.
#[derive(Copy, Clone, Debug, PartialEq, Eq, Structural)]
pub struct RuntimeError {
    pub kind: RuntimeErrorKind,
    pub line: usize,
}

/// Whether a value counts as false: only nil and `false` are falsey.
pub open spec fn is_falsey_spec(v: Value) -> bool {
    match v {
        Value::Bool(b) => !b,
        Value::Empty => true,
        _ => false,
    }
}

/// Tag-strict value equality: values of different tags are never equal,
/// numbers and booleans compare by value, nil equals nil, and strings
/// compare by content.
pub open spec fn values_equal_spec(heap: Seq<Seq<u8>>, a: Value, b: Value) -> bool {
    match (a, b) {
        (Value::Bool(b1), Value::Bool(b2)) => b1 == b2,
        (Value::Number(n1), Value::Number(n2)) => n1 == n2,
        (Value::Empty, Value::Empty) => true,
        (Value::Obj(i), Value::Obj(j)) => heap[i as int] == heap[j as int],
        _ => false,
    }
}

/// Whether two values carry the same tag.
pub open spec fn same_tag(a: Value, b: Value) -> bool {
    match (a, b) {
        (Value::Bool(_), Value::Bool(_)) => true,
        (Value::Number(_), Value::Number(_)) => true,
        (Value::Obj(_), Value::Obj(_)) => true,
        (Value::Empty, Value::Empty) => true,
        _ => false,
    }
}

/// Value equality is reflexive. Numbers are exact integers here, so no
/// value is unequal to itself.
pub proof fn lemma_values_equal_reflexive(heap: Seq<Seq<u8>>, a: Value)
    ensures
        values_equal_spec(heap, a, a),
{
}

/// Value equality is symmetric, for all inputs.
pub proof fn lemma_values_equal_symmetric(heap: Seq<Seq<u8>>, a: Value, b: Value)
    ensures
        values_equal_spec(heap, a, b) == values_equal_spec(heap, b, a),
{
}

/// Values of different tags are never equal.
pub proof fn lemma_values_equal_tag_strict(heap: Seq<Seq<u8>>, a: Value, b: Value)
    ensures
        !same_tag(a, b) ==> !values_equal_spec(heap, a, b),
{
}

/// The magnitude of a number as a mathematical integer.
pub open spec fn mag(a: int) -> int {
    if a < 0 {
        -a
    } else {
        a
    }
}

/// Division truncated toward zero, wrapping on the one overflowing case,
/// as the machine's division instruction behaves.
pub open spec fn wrap_div(a: int, b: int) -> int {
    let q = mag(a) / mag(b);
    if (a < 0) == (b < 0) {
        if q >= 0x8000_0000_0000_0000 {
            -q
        } else {
            q
        }
    } else {
        -q
    }
}

/// The source line reported for a fault: the line of the previously
/// executed instruction, clamped into the code range.
pub open spec fn fault_line_at(lines: Seq<Line>, code_len: int, ip: int) -> usize {
    if code_len == 0 {
        0
    } else {
        let instr = if ip > 0 {
            ip - 1
        } else {
            ip
        };
        let clamped = if instr < code_len {
            instr
        } else {
            code_len - 1
        };
        line_at(lines, clamped)
    }
}

/// Whether a machine state ended execution or aborted it.
#[derive(Copy, Clone, Debug, PartialEq, Eq, Structural)]
pub enum RunStatus {
    Done,
    Fault,
}

/// What a run of the machine amounts to: how it ended, what it printed,
/// the failure (when it faulted), the final heap, and the final stack.
pub ghost struct RunOutcome {
    pub status: RunStatus,
    pub printed: Seq<u8>,
    pub fault: RuntimeErrorKind,
    pub line: usize,
    pub heap: Seq<Seq<u8>>,
    pub stack: Seq<Value>,
}

/// The faulting outcome for a state.
pub open spec fn fault_outcome(
    kind: RuntimeErrorKind,
    lines: Seq<Line>,
    code_len: int,
    ip: int,
    heap: Seq<Seq<u8>>,
) -> RunOutcome {
    RunOutcome {
        status: RunStatus::Fault,
        printed: Seq::empty(),
        fault: kind,
        line: fault_line_at(lines, code_len, ip),
        heap: heap,
        stack: Seq::empty(),
    }
}

/// The machine, one instruction at a time: what executing the code from
/// instruction pointer `ip` with the given heap and stack produces. Every
/// instruction either ends the run, faults, or moves `ip` forward, so the
/// remaining code is the measure.
#[verifier::opaque]
pub open spec fn run_spec(
    code: Seq<u8>,
    consts: Seq<Value>,
    lines: Seq<Line>,
    heap: Seq<Seq<u8>>,
    ip: int,
    stack: Seq<Value>,
) -> RunOutcome
    decreases code.len() - ip,
{
    if ip < 0 || ip >= code.len() {
        fault_outcome(RuntimeErrorKind::InvalidBytecode, lines, code.len() as int, ip, heap)
    } else {
        let ip1 = ip + 1;
        match opcode_of_byte(code[ip]) {
            None => fault_outcome(
                RuntimeErrorKind::InvalidBytecode,
                lines,
                code.len() as int,
                ip1,
                heap,
            ),
            Some(op) => match op {
                OpCode::OpReturn => if stack.len() >= 1 {
                    RunOutcome {
                        status: RunStatus::Done,
                        printed: rendered(stack.last(), heap),
                        fault: RuntimeErrorKind::InvalidBytecode,
                        line: 0,
                        heap: heap,
                        stack: stack.drop_last(),
                    }
                } else {
                    fault_outcome(
                        RuntimeErrorKind::InvalidBytecode,
                        lines,
                        code.len() as int,
                        ip1,
                        heap,
                    )
                },
                OpCode::OpConstant => if ip1 >= code.len() {
                    fault_outcome(
                        RuntimeErrorKind::InvalidBytecode,
                        lines,
                        code.len() as int,
                        ip1,
                        heap,
                    )
                } else if code[ip1] >= consts.len() {
                    fault_outcome(
                        RuntimeErrorKind::InvalidBytecode,
                        lines,
                        code.len() as int,
                        ip1 + 1,
                        heap,
                    )
                } else if stack.len() >= 256 {
                    fault_outcome(
                        RuntimeErrorKind::StackOverflow,
                        lines,
                        code.len() as int,
                        ip1 + 1,
                        heap,
                    )
                } else {
                    run_spec(code, consts, lines, heap, ip + 2, stack.push(consts[code[ip1] as int]))
                },
                OpCode::OpNil => if stack.len() >= 256 {
                    fault_outcome(
                        RuntimeErrorKind::StackOverflow,
                        lines,
                        code.len() as int,
                        ip1,
                        heap,
                    )
                } else {
                    run_spec(code, consts, lines, heap, ip1, stack.push(Value::Empty))
                },
                OpCode::OpTrue => if stack.len() >= 256 {
                    fault_outcome(
                        RuntimeErrorKind::StackOverflow,
                        lines,
                        code.len() as int,
                        ip1,
                        heap,
                    )
                } else {
                    run_spec(code, consts, lines, heap, ip1, stack.push(Value::Bool(true)))
                },
                OpCode::OpFalse => if stack.len() >= 256 {
                    fault_outcome(
                        RuntimeErrorKind::StackOverflow,
                        lines,
                        code.len() as int,
                        ip1,
                        heap,
                    )
                } else {
                    run_spec(code, consts, lines, heap, ip1, stack.push(Value::Bool(false)))
                },
                OpCode::OpNegate => if stack.len() < 1 {
                    fault_outcome(
                        RuntimeErrorKind::InvalidBytecode,
                        lines,
                        code.len() as int,
                        ip1,
                        heap,
                    )
                } else {
                    match stack.last() {
                        Value::Number(n) => run_spec(
                            code,
                            consts,
                            lines,
                            heap,
                            ip1,
                            stack.drop_last().push(Value::Number(i64_specs::wrapping_sub(0, n))),
                        ),
                        _ => fault_outcome(
                            RuntimeErrorKind::OperandMustBeNumber,
                            lines,
                            code.len() as int,
                            ip1,
                            heap,
                        ),
                    }
                },
                OpCode::OpNot => if stack.len() < 1 {
                    fault_outcome(
                        RuntimeErrorKind::InvalidBytecode,
                        lines,
                        code.len() as int,
                        ip1,
                        heap,
                    )
                } else {
                    run_spec(
                        code,
                        consts,
                        lines,
                        heap,
                        ip1,
                        stack.drop_last().push(Value::Bool(is_falsey_spec(stack.last()))),
                    )
                },
                OpCode::OpEqual => if stack.len() < 2 {
                    fault_outcome(
                        RuntimeErrorKind::InvalidBytecode,
                        lines,
                        code.len() as int,
                        ip1,
                        heap,
                    )
                } else {
                    let b = stack.last();
                    let a = stack[stack.len() - 2];
                    run_spec(
                        code,
                        consts,
                        lines,
                        heap,
                        ip1,
                        stack.drop_last().drop_last().push(
                            Value::Bool(values_equal_spec(heap, a, b)),
                        ),
                    )
                },
                OpCode::OpNotEqual => if stack.len() < 2 {
                    fault_outcome(
                        RuntimeErrorKind::InvalidBytecode,
                        lines,
                        code.len() as int,
                        ip1,
                        heap,
                    )
                } else {
                    let b = stack.last();
                    let a = stack[stack.len() - 2];
                    run_spec(
                        code,
                        consts,
                        lines,
                        heap,
                        ip1,
                        stack.drop_last().drop_last().push(
                            Value::Bool(!values_equal_spec(heap, a, b)),
                        ),
                    )
                },
                OpCode::OpAdd => if stack.len() < 2 {
                    fault_outcome(
                        RuntimeErrorKind::InvalidBytecode,
                        lines,
                        code.len() as int,
                        ip1,
                        heap,
                    )
                } else {
                    let b = stack.last();
                    let a = stack[stack.len() - 2];
                    match (a, b) {
                        (Value::Number(x), Value::Number(y)) => run_spec(
                            code,
                            consts,
                            lines,
                            heap,
                            ip1,
                            stack.drop_last().drop_last().push(
                                Value::Number(i64_specs::wrapping_add(x, y)),
                            ),
                        ),
                        (Value::Obj(i), Value::Obj(j)) => run_spec(
                            code,
                            consts,
                            lines,
                            heap.push(heap[i as int] + heap[j as int]),
                            ip1,
                            stack.drop_last().drop_last().push(Value::Obj(heap.len() as usize)),
                        ),
                        _ => fault_outcome(
                            RuntimeErrorKind::OperandsMustBeTwoNumbersOrTwoStrings,
                            lines,
                            code.len() as int,
                            ip1,
                            heap,
                        ),
                    }
                },
                OpCode::OpSubtract => if stack.len() < 2 {
                    fault_outcome(
                        RuntimeErrorKind::InvalidBytecode,
                        lines,
                        code.len() as int,
                        ip1,
                        heap,
                    )
                } else {
                    match (stack[stack.len() - 2], stack.last()) {
                        (Value::Number(x), Value::Number(y)) => run_spec(
                            code,
                            consts,
                            lines,
                            heap,
                            ip1,
                            stack.drop_last().drop_last().push(
                                Value::Number(i64_specs::wrapping_sub(x, y)),
                            ),
                        ),
                        _ => fault_outcome(
                            RuntimeErrorKind::OperandsMustBeNumbers,
                            lines,
                            code.len() as int,
                            ip1,
                            heap,
                        ),
                    }
                },
                OpCode::OpMultiply => if stack.len() < 2 {
                    fault_outcome(
                        RuntimeErrorKind::InvalidBytecode,
                        lines,
                        code.len() as int,
                        ip1,
                        heap,
                    )
                } else {
                    match (stack[stack.len() - 2], stack.last()) {
                        (Value::Number(x), Value::Number(y)) => run_spec(
                            code,
                            consts,
                            lines,
                            heap,
                            ip1,
                            stack.drop_last().drop_last().push(
                                Value::Number(i64_specs::wrapping_mul(x, y)),
                            ),
                        ),
                        _ => fault_outcome(
                            RuntimeErrorKind::OperandsMustBeNumbers,
                            lines,
                            code.len() as int,
                            ip1,
                            heap,
                        ),
                    }
                },
                OpCode::OpDivide => if stack.len() < 2 {
                    fault_outcome(
                        RuntimeErrorKind::InvalidBytecode,
                        lines,
                        code.len() as int,
                        ip1,
                        heap,
                    )
                } else {
                    match (stack[stack.len() - 2], stack.last()) {
                        (Value::Number(x), Value::Number(y)) => if y == 0 {
                            fault_outcome(
                                RuntimeErrorKind::DivisionByZero,
                                lines,
                                code.len() as int,
                                ip1,
                                heap,
                            )
                        } else {
                            run_spec(
                                code,
                                consts,
                                lines,
                                heap,
                                ip1,
                                stack.drop_last().drop_last().push(
                                    Value::Number(wrap_div(x as int, y as int) as i64),
                                ),
                            )
                        },
                        _ => fault_outcome(
                            RuntimeErrorKind::OperandsMustBeNumbers,
                            lines,
                            code.len() as int,
                            ip1,
                            heap,
                        ),
                    }
                },
                OpCode::OpGreater => if stack.len() < 2 {
                    fault_outcome(
                        RuntimeErrorKind::InvalidBytecode,
                        lines,
                        code.len() as int,
                        ip1,
                        heap,
                    )
                } else {
                    match (stack[stack.len() - 2], stack.last()) {
                        (Value::Number(x), Value::Number(y)) => run_spec(
                            code,
                            consts,
                            lines,
                            heap,
                            ip1,
                            stack.drop_last().drop_last().push(Value::Bool(x > y)),
                        ),
                        _ => fault_outcome(
                            RuntimeErrorKind::OperandsMustBeNumbers,
                            lines,
                            code.len() as int,
                            ip1,
                            heap,
                        ),
                    }
                },
                OpCode::OpLess => if stack.len() < 2 {
                    fault_outcome(
                        RuntimeErrorKind::InvalidBytecode,
                        lines,
                        code.len() as int,
                        ip1,
                        heap,
                    )
                } else {
                    match (stack[stack.len() - 2], stack.last()) {
                        (Value::Number(x), Value::Number(y)) => run_spec(
                            code,
                            consts,
                            lines,
                            heap,
                            ip1,
                            stack.drop_last().drop_last().push(Value::Bool(x < y)),
                        ),
                        _ => fault_outcome(
                            RuntimeErrorKind::OperandsMustBeNumbers,
                            lines,
                            code.len() as int,
                            ip1,
                            heap,
                        ),
                    }
                },
                OpCode::OpGreaterEqual => if stack.len() < 2 {
                    fault_outcome(
                        RuntimeErrorKind::InvalidBytecode,
                        lines,
                        code.len() as int,
                        ip1,
                        heap,
                    )
                } else {
                    match (stack[stack.len() - 2], stack.last()) {
                        (Value::Number(x), Value::Number(y)) => run_spec(
                            code,
                            consts,
                            lines,
                            heap,
                            ip1,
                            stack.drop_last().drop_last().push(Value::Bool(x >= y)),
                        ),
                        _ => fault_outcome(
                            RuntimeErrorKind::OperandsMustBeNumbers,
                            lines,
                            code.len() as int,
                            ip1,
                            heap,
                        ),
                    }
                },
                OpCode::OpLessEqual => if stack.len() < 2 {
                    fault_outcome(
                        RuntimeErrorKind::InvalidBytecode,
                        lines,
                        code.len() as int,
                        ip1,
                        heap,
                    )
                } else {
                    match (stack[stack.len() - 2], stack.last()) {
                        (Value::Number(x), Value::Number(y)) => run_spec(
                            code,
                            consts,
                            lines,
                            heap,
                            ip1,
                            stack.drop_last().drop_last().push(Value::Bool(x <= y)),
                        ),
                        _ => fault_outcome(
                            RuntimeErrorKind::OperandsMustBeNumbers,
                            lines,
                            code.len() as int,
                            ip1,
                            heap,
                        ),
                    }
                },
            },
        }
    }
}


/// Along a balanced code segment that ends at the closing return, the
/// machine follows the depth simulation: it never pops past the bottom of
/// the stack and never meets a malformed instruction. It either reaches the
/// return with exactly the simulated depth, printing the top value, or
/// stops early with one of the language's own runtime faults.
#[verifier::rlimit(100)]
#[verifier::spinoff_prover]
proof fn lemma_balanced_execution(
    code: Seq<u8>,
    consts: Seq<Value>,
    lines: Seq<Line>,
    heap: Seq<Seq<u8>>,
    ip: int,
    stack: Seq<Value>,
    rp: int,
    d2: int,
)
    requires
        0 <= ip <= rp,
        rp == code.len() - 1,
        code[rp] == 0,
        exec_ok(code, consts.len() as int, ip, rp, stack.len() as int) == Some(d2),
        d2 >= 1,
        stack.len() <= 256,
    ensures
        ({
            let out = run_spec(code, consts, lines, heap, ip, stack);
            (out.status == RunStatus::Done && out.stack.len() == d2 - 1) || (out.status
                == RunStatus::Fault && out.fault != RuntimeErrorKind::InvalidBytecode)
        }),
    decreases rp - ip,
{
    reveal_with_fuel(run_spec, 2);
    reveal_with_fuel(exec_ok, 2);
    if ip == rp {
        assert(stack.len() == d2);
    } else {
        match opcode_of_byte(code[ip]) {
            None => {}
            Some(op) => match op {
                OpCode::OpReturn => {}
                OpCode::OpConstant => {
                    if stack.len() < 256 {
                        lemma_balanced_execution(
                            code,
                            consts,
                            lines,
                            heap,
                            ip + 2,
                            stack.push(consts[code[ip + 1] as int]),
                            rp,
                            d2,
                        );
                    }
                }
                OpCode::OpNil => {
                    if stack.len() < 256 {
                        lemma_balanced_execution(
                            code,
                            consts,
                            lines,
                            heap,
                            ip + 1,
                            stack.push(Value::Empty),
                            rp,
                            d2,
                        );
                    }
                }
                OpCode::OpTrue => {
                    if stack.len() < 256 {
                        lemma_balanced_execution(
                            code,
                            consts,
                            lines,
                            heap,
                            ip + 1,
                            stack.push(Value::Bool(true)),
                            rp,
                            d2,
                        );
                    }
                }
                OpCode::OpFalse => {
                    if stack.len() < 256 {
                        lemma_balanced_execution(
                            code,
                            consts,
                            lines,
                            heap,
                            ip + 1,
                            stack.push(Value::Bool(false)),
                            rp,
                            d2,
                        );
                    }
                }
                OpCode::OpNegate => {
                    match stack.last() {
                        Value::Number(n) => {
                            lemma_balanced_execution(
                                code,
                                consts,
                                lines,
                                heap,
                                ip + 1,
                                stack.drop_last().push(
                                    Value::Number(i64_specs::wrapping_sub(0, n)),
                                ),
                                rp,
                                d2,
                            );
                        }
                        _ => {}
                    }
                }
                OpCode::OpNot => {
                    lemma_balanced_execution(
                        code,
                        consts,
                        lines,
                        heap,
                        ip + 1,
                        stack.drop_last().push(Value::Bool(is_falsey_spec(stack.last()))),
                        rp,
                        d2,
                    );
                }
                OpCode::OpEqual => {
                    let b = stack.last();
                    let a = stack[stack.len() - 2];
                    lemma_balanced_execution(
                        code,
                        consts,
                        lines,
                        heap,
                        ip + 1,
                        stack.drop_last().drop_last().push(
                            Value::Bool(values_equal_spec(heap, a, b)),
                        ),
                        rp,
                        d2,
                    );
                }
                OpCode::OpNotEqual => {
                    let b = stack.last();
                    let a = stack[stack.len() - 2];
                    lemma_balanced_execution(
                        code,
                        consts,
                        lines,
                        heap,
                        ip + 1,
                        stack.drop_last().drop_last().push(
                            Value::Bool(!values_equal_spec(heap, a, b)),
                        ),
                        rp,
                        d2,
                    );
                }
                OpCode::OpAdd => {
                    let b = stack.last();
                    let a = stack[stack.len() - 2];
                    match (a, b) {
                        (Value::Number(x), Value::Number(y)) => {
                            lemma_balanced_execution(
                                code,
                                consts,
                                lines,
                                heap,
                                ip + 1,
                                stack.drop_last().drop_last().push(
                                    Value::Number(i64_specs::wrapping_add(x, y)),
                                ),
                                rp,
                                d2,
                            );
                        }
                        (Value::Obj(i), Value::Obj(j)) => {
                            lemma_balanced_execution(
                                code,
                                consts,
                                lines,
                                heap.push(heap[i as int] + heap[j as int]),
                                ip + 1,
                                stack.drop_last().drop_last().push(
                                    Value::Obj(heap.len() as usize),
                                ),
                                rp,
                                d2,
                            );
                        }
                        _ => {}
                    }
                }
                OpCode::OpSubtract => {
                    match (stack[stack.len() - 2], stack.last()) {
                        (Value::Number(x), Value::Number(y)) => {
                            lemma_balanced_execution(
                                code,
                                consts,
                                lines,
                                heap,
                                ip + 1,
                                stack.drop_last().drop_last().push(
                                    Value::Number(i64_specs::wrapping_sub(x, y)),
                                ),
                                rp,
                                d2,
                            );
                        }
                        _ => {}
                    }
                }
                OpCode::OpMultiply => {
                    match (stack[stack.len() - 2], stack.last()) {
                        (Value::Number(x), Value::Number(y)) => {
                            lemma_balanced_execution(
                                code,
                                consts,
                                lines,
                                heap,
                                ip + 1,
                                stack.drop_last().drop_last().push(
                                    Value::Number(i64_specs::wrapping_mul(x, y)),
                                ),
                                rp,
                                d2,
                            );
                        }
                        _ => {}
                    }
                }
                OpCode::OpDivide => {
                    match (stack[stack.len() - 2], stack.last()) {
                        (Value::Number(x), Value::Number(y)) => {
                            if y != 0 {
                                lemma_balanced_execution(
                                    code,
                                    consts,
                                    lines,
                                    heap,
                                    ip + 1,
                                    stack.drop_last().drop_last().push(
                                        Value::Number(wrap_div(x as int, y as int) as i64),
                                    ),
                                    rp,
                                    d2,
                                );
                            }
                        }
                        _ => {}
                    }
                }
                OpCode::OpGreater => {
                    match (stack[stack.len() - 2], stack.last()) {
                        (Value::Number(x), Value::Number(y)) => {
                            lemma_balanced_execution(
                                code,
                                consts,
                                lines,
                                heap,
                                ip + 1,
                                stack.drop_last().drop_last().push(Value::Bool(x > y)),
                                rp,
                                d2,
                            );
                        }
                        _ => {}
                    }
                }
                OpCode::OpLess => {
                    match (stack[stack.len() - 2], stack.last()) {
                        (Value::Number(x), Value::Number(y)) => {
                            lemma_balanced_execution(
                                code,
                                consts,
                                lines,
                                heap,
                                ip + 1,
                                stack.drop_last().drop_last().push(Value::Bool(x < y)),
                                rp,
                                d2,
                            );
                        }
                        _ => {}
                    }
                }
                OpCode::OpGreaterEqual => {
                    match (stack[stack.len() - 2], stack.last()) {
                        (Value::Number(x), Value::Number(y)) => {
                            lemma_balanced_execution(
                                code,
                                consts,
                                lines,
                                heap,
                                ip + 1,
                                stack.drop_last().drop_last().push(Value::Bool(x >= y)),
                                rp,
                                d2,
                            );
                        }
                        _ => {}
                    }
                }
                OpCode::OpLessEqual => {
                    match (stack[stack.len() - 2], stack.last()) {
                        (Value::Number(x), Value::Number(y)) => {
                            lemma_balanced_execution(
                                code,
                                consts,
                                lines,
                                heap,
                                ip + 1,
                                stack.drop_last().drop_last().push(Value::Bool(x <= y)),
                                rp,
                                d2,
                            );
                        }
                        _ => {}
                    }
                }
            },
        }
    }
}

/// The stack discipline of well-formed bytecode: running a chunk that a
/// clean compile produced, from an empty stack, never pops past the bottom
/// and never meets a malformed instruction. At the closing return the
/// printed value is the sole residual — the final stack is empty — and the
/// only other possible ends are the language's own runtime faults.
pub proof fn lemma_well_formed_chunk_runs_cleanly(
    code: Seq<u8>,
    consts: Seq<Value>,
    lines: Seq<Line>,
    heap: Seq<Seq<u8>>,
)
    requires
        chunk_balanced(code, consts.len() as int),
    ensures
        ({
            let out = run_spec(code, consts, lines, heap, 0, Seq::<Value>::empty());
            (out.status == RunStatus::Done && out.stack.len() == 0) || (out.status
                == RunStatus::Fault && out.fault != RuntimeErrorKind::InvalidBytecode)
        }),
{
    lemma_balanced_execution(
        code,
        consts,
        lines,
        heap,
        0,
        Seq::<Value>::empty(),
        code.len() - 1,
        1,
    );
}

/// The stack machine: the chunk under execution, the instruction pointer,
/// the value stack, the heap, and what the last run produced.
pub struct VM {
    pub chunk: Chunk,
    pub ip: usize,
    pub stack: Vec<Value>,
    pub gc: GC,
    pub printed: Option<Vec<u8>>,
    pub runtime_diag: Option<RuntimeError>,
    pub diagnostics: Vec<Diagnostic>,
    /// The heap as the compiler handed it over, before the last execution
    /// extended it; the state the last run's outcome is measured against.
    pub compiled_heap: Ghost<Seq<Seq<u8>>>,
}

/// Two byte buffers hold the same bytes.
fn bytes_equal(x: &Vec<u8>, y: &Vec<u8>) -> (r: bool)
    ensures
        r == (x@ == y@),
{
    if x.len() != y.len() {
        return false;
    }
    let mut i: usize = 0;
    while i < x.len()
        invariant
            i <= x@.len(),
            x@.len() == y@.len(),
            forall|j: int| 0 <= j < i ==> x@[j] == y@[j],
        decreases x@.len() - i,
    {
        if x[i] != y[i] {
            return false;
        }
        i = i + 1;
    }
    proof {
        assert(x@ =~= y@);
    }
    true
}

impl VM {
    /// The machine's invariant: a sound chunk, constants and stack values
    /// that point only at allocated objects, a bounded stack, and an
    /// instruction pointer inside the code.
    pub open spec fn wf(&self) -> bool {
        &&& self.chunk.wf()
        &&& constants_wf(self.chunk@.constants, self.gc.strings().len())
        &&& (forall|i: int|
            0 <= i < self.stack@.len() ==> value_wf(#[trigger] self.stack@[i], self.gc.strings().len()))
        &&& self.stack@.len() <= 256
        &&& self.ip <= self.chunk@.code.len()
    }

    /// A fresh machine with an empty chunk, stack and heap.
    pub fn new() -> (r: VM)
        ensures
            r.wf(),
            r.ip == 0,
            r.chunk@.code.len() == 0,
            r.chunk@.constants.len() == 0,
            r.gc.strings().len() == 0,
            r.stack@.len() == 0,
            r.printed is None,
            r.runtime_diag is None,
            r.diagnostics@.len() == 0,
    {
        VM {
            chunk: Chunk::new(),
            ip: 0,
            stack: Vec::new(),
            gc: GC::new(),
            printed: None,
            runtime_diag: None,
            diagnostics: Vec::new(),
            compiled_heap: Ghost(Seq::empty()),
        }
    }

    /// Readies the machine: an empty stack.
    pub fn init(&mut self)
        requires
            old(self).wf(),
        ensures
            final(self).wf(),
            final(self).stack@.len() == 0,
    {
        self.reset_stack();
    }

    /// Empties the value stack.
    pub fn reset_stack(&mut self)
        requires
            old(self).wf(),
        ensures
            final(self).wf(),
            final(self).stack@.len() == 0,
            final(self).chunk == old(self).chunk,
            final(self).ip == old(self).ip,
            final(self).gc == old(self).gc,
            final(self).printed == old(self).printed,
            final(self).runtime_diag == old(self).runtime_diag,
            final(self).diagnostics == old(self).diagnostics,
    {
        self.stack = Vec::new();
    }

    /// Discards the chunk and rewinds the instruction pointer.
    pub fn reset(&mut self)
        requires
            old(self).wf(),
        ensures
            final(self).wf(),
            final(self).chunk@.code.len() == 0,
            final(self).ip == 0,
    {
        self.chunk = Chunk::new();
        self.ip = 0;
    }

    /// Releases everything the machine holds.
    pub fn free(&mut self)
        requires
            old(self).wf(),
        ensures
            final(self).wf(),
            final(self).stack@.len() == 0,
            final(self).chunk@.code.len() == 0,
    {
        self.chunk = Chunk::new();
        self.ip = 0;
        self.stack = Vec::new();
    }

    /// Pushes a value; the stack must have room.
    pub fn push(&mut self, value: Value)
        requires
            old(self).wf(),
            old(self).stack@.len() < 256,
            value_wf(value, old(self).gc.strings().len()),
        ensures
            final(self).wf(),
            final(self).stack@ == old(self).stack@.push(value),
            final(self).chunk == old(self).chunk,
            final(self).ip == old(self).ip,
            final(self).gc == old(self).gc,
            final(self).printed == old(self).printed,
            final(self).runtime_diag == old(self).runtime_diag,
            final(self).diagnostics == old(self).diagnostics,
    {
        self.stack.push(value);
    }

    /// Pops the top of the stack.
    pub fn pop(&mut self) -> (r: Value)
        requires
            old(self).wf(),
            old(self).stack@.len() >= 1,
        ensures
            final(self).wf(),
            r == old(self).stack@.last(),
            final(self).stack@ == old(self).stack@.drop_last(),
            final(self).chunk == old(self).chunk,
            final(self).ip == old(self).ip,
            final(self).gc == old(self).gc,
            final(self).printed == old(self).printed,
            final(self).runtime_diag == old(self).runtime_diag,
            value_wf(r, final(self).gc.strings().len()),
            final(self).diagnostics == old(self).diagnostics,
    {
        let r = self.stack.pop().unwrap();
        r
    }

    /// The value on top of the stack.
    pub fn peek(&self) -> (r: Value)
        requires
            self.wf(),
            self.stack@.len() >= 1,
        ensures
            r == self.stack@.last(),
            value_wf(r, self.gc.strings().len()),
    {
        self.stack[self.stack.len() - 1]
    }

    /// The value just under the top of the stack.
    pub fn peek_next(&self) -> (r: Value)
        requires
            self.wf(),
            self.stack@.len() >= 2,
        ensures
            r == self.stack@[self.stack@.len() - 2],
            value_wf(r, self.gc.strings().len()),
    {
        self.stack[self.stack.len() - 2]
    }

    /// Whether a value counts as false.
    pub fn is_falsey(v: Value) -> (r: bool)
        ensures
            r == is_falsey_spec(v),
    {
        match v {
            Value::Bool(b) => !b,
            Value::Number(_) => false,
            Value::Empty => true,
            Value::Obj(_) => false,
        }
    }

    /// Tag-strict equality of two values; strings compare by content.
    pub fn values_equal(&self, a: Value, b: Value) -> (r: bool)
        requires
            self.wf(),
            value_wf(a, self.gc.strings().len()),
            value_wf(b, self.gc.strings().len()),
        ensures
            r == values_equal_spec(self.gc.strings(), a, b),
    {
        match (a, b) {
            (Value::Bool(b1), Value::Bool(b2)) => b1 == b2,
            (Value::Number(n1), Value::Number(n2)) => n1 == n2,
            (Value::Empty, Value::Empty) => true,
            (Value::Obj(i), Value::Obj(j)) => bytes_equal(
                &self.gc.get(i).chars,
                &self.gc.get(j).chars,
            ),
            _ => false,
        }
    }

    /// Allocates the concatenation of two heap strings, left then right,
    /// and returns the new object's index.
    pub fn concatenate(&mut self, i: usize, j: usize) -> (r: usize)
        requires
            old(self).wf(),
            i < old(self).gc.strings().len(),
            j < old(self).gc.strings().len(),
        ensures
            final(self).wf(),
            final(self).gc.strings() == old(self).gc.strings().push(
                old(self).gc.strings()[i as int] + old(self).gc.strings()[j as int],
            ),
            r == old(self).gc.strings().len(),
            final(self).chunk == old(self).chunk,
            final(self).ip == old(self).ip,
            final(self).stack == old(self).stack,
            final(self).printed == old(self).printed,
            final(self).runtime_diag == old(self).runtime_diag,
            final(self).diagnostics == old(self).diagnostics,
    {
        let mut chars: Vec<u8> = Vec::new();
        let left = self.gc.get(i);
        let mut k: usize = 0;
        while k < left.chars.len()
            invariant
                k <= left.chars@.len(),
                chars@ == left.chars@.subrange(0, k as int),
            decreases left.chars@.len() - k,
        {
            chars.push(left.chars[k]);
            k = k + 1;
            proof {
                assert(chars@ =~= left.chars@.subrange(0, k as int));
            }
        }
        proof {
            assert(chars@ =~= self.gc.strings()[i as int]);
        }
        let right = self.gc.get(j);
        let mut k2: usize = 0;
        while k2 < right.chars.len()
            invariant
                k2 <= right.chars@.len(),
                chars@ == self.gc.strings()[i as int] + right.chars@.subrange(0, k2 as int),
                right.chars@ == self.gc.strings()[j as int],
                i < self.gc.strings().len(),
                j < self.gc.strings().len(),
            decreases right.chars@.len() - k2,
        {
            chars.push(right.chars[k2]);
            k2 = k2 + 1;
            proof {
                assert(chars@ =~= self.gc.strings()[i as int] + right.chars@.subrange(
                    0,
                    k2 as int,
                ));
            }
        }
        proof {
            assert(chars@ =~= self.gc.strings()[i as int] + self.gc.strings()[j as int]);
        }
        let r = allocate_string(&mut self.gc, chars);
        proof {
            assert forall|x: int|
                0 <= x < self.stack@.len() implies value_wf(
                #[trigger] self.stack@[x],
                self.gc.strings().len(),
            ) by {}
            assert forall|x: int|
                0 <= x < self.chunk@.constants.len() implies value_wf(
                #[trigger] self.chunk@.constants[x],
                self.gc.strings().len(),
            ) by {}
        }
        r
    }

    /// Records a runtime failure at the line of the previously executed
    /// instruction and clears the stack.
    pub fn runtime_error(&mut self, kind: RuntimeErrorKind)
        requires
            old(self).wf(),
        ensures
            final(self).wf(),
            final(self).stack@.len() == 0,
            final(self).runtime_diag == Some(
                RuntimeError {
                    kind,
                    line: fault_line_at(
                        old(self).chunk@.lines,
                        old(self).chunk@.code.len() as int,
                        old(self).ip as int,
                    ),
                },
            ),
            final(self).chunk == old(self).chunk,
            final(self).ip == old(self).ip,
            final(self).gc == old(self).gc,
            final(self).printed == old(self).printed,
            final(self).diagnostics == old(self).diagnostics,
    {
        let size = self.chunk.code_size();
        let line: usize = if size == 0 {
            0
        } else {
            let instr = if self.ip > 0 {
                self.ip - 1
            } else {
                self.ip
            };
            let clamped = if instr < size {
                instr
            } else {
                size - 1
            };
            self.chunk.get_line(clamped)
        };
        self.runtime_diag = Some(RuntimeError { kind, line });
        self.reset_stack();
    }

    /// What executing the chunk from instruction pointer `ip` with this
    /// machine's heap and stack produces.
    pub open spec fn spec_at(vm: VM, ip: int) -> RunOutcome {
        run_spec(vm.chunk@.code, vm.chunk@.constants, vm.chunk@.lines, vm.gc.strings(), ip, vm.stack@)
    }

    /// The machine has recorded exactly the fault `out` describes.
    pub open spec fn fault_reported(pre: VM, post: VM, out: RunOutcome) -> bool {
        &&& out.status == RunStatus::Fault
        &&& (match post.runtime_diag {
            Some(e) => e.kind == out.fault && e.line == out.line,
            None => false,
        })
        &&& post.stack@.len() == 0
        &&& post.printed == pre.printed
    }

    /// Executes the return instruction: pop the result, render it, end.
    fn op_return(&mut self) -> (r: InterpretResult)
        requires
            old(self).wf(),
            1 <= old(self).ip <= old(self).chunk@.code.len(),
            opcode_of_byte(old(self).chunk@.code[old(self).ip - 1]) == Some(OpCode::OpReturn),
        ensures
            final(self).wf(),
            final(self).chunk == old(self).chunk,
            final(self).diagnostics == old(self).diagnostics,
            ({
                let out = Self::spec_at(*old(self), old(self).ip - 1);
                match out.status {
                    RunStatus::Done => {
                        &&& r == InterpretResult::InterpretOk
                        &&& (match final(self).printed {
                            Some(p) => p@ == out.printed,
                            None => false,
                        })
                        &&& final(self).gc.strings() == out.heap
                        &&& final(self).stack@ == out.stack
                        &&& final(self).runtime_diag == old(self).runtime_diag
                    },
                    RunStatus::Fault => {
                        &&& r == InterpretResult::InterpretRuntimeError
                        &&& Self::fault_reported(*old(self), *final(self), out)
                    },
                }
            }),
    {
        proof {
            reveal_with_fuel(run_spec, 1);
        }
        if self.stack.len() == 0 {
            self.runtime_error(RuntimeErrorKind::InvalidBytecode);
            return InterpretResult::InterpretRuntimeError;
        }
        let v = self.pop();
        let bytes = print_value(&self.gc, v);
        self.printed = Some(bytes);
        InterpretResult::InterpretOk
    }

    /// Executes the constant instruction: read the operand byte and push
    /// the pooled value.
    fn op_constant(&mut self) -> (r: Option<InterpretResult>)
        requires
            old(self).wf(),
            1 <= old(self).ip <= old(self).chunk@.code.len(),
            opcode_of_byte(old(self).chunk@.code[old(self).ip - 1]) == Some(OpCode::OpConstant),
        ensures
            final(self).wf(),
            final(self).chunk == old(self).chunk,
            final(self).diagnostics == old(self).diagnostics,
            final(self).ip >= old(self).ip,
            match r {
                None => {
                    &&& Self::spec_at(*old(self), old(self).ip - 1) == Self::spec_at(
                        *final(self),
                        final(self).ip as int,
                    )
                    &&& final(self).printed == old(self).printed
                    &&& final(self).runtime_diag == old(self).runtime_diag
                },
                Some(res) => {
                    &&& res == InterpretResult::InterpretRuntimeError
                    &&& Self::fault_reported(
                        *old(self),
                        *final(self),
                        Self::spec_at(*old(self), old(self).ip - 1),
                    )
                },
            },
    {
        proof {
            reveal_with_fuel(run_spec, 1);
        }
        let size = self.chunk.code_size();
        if self.ip >= size {
            self.runtime_error(RuntimeErrorKind::InvalidBytecode);
            return Some(InterpretResult::InterpretRuntimeError);
        }
        let ind = self.chunk.code_byte(self.ip);
        self.ip = self.ip + 1;
        if ind as usize >= self.chunk.constants_size() {
            self.runtime_error(RuntimeErrorKind::InvalidBytecode);
            return Some(InterpretResult::InterpretRuntimeError);
        }
        if self.stack.len() >= STACK_MAX {
            self.runtime_error(RuntimeErrorKind::StackOverflow);
            return Some(InterpretResult::InterpretRuntimeError);
        }
        let v = self.chunk.get_constant(ind);
        self.push(v);
        None
    }

    /// Executes one of the three literal instructions by pushing its value.
    fn op_push_literal(&mut self, op: OpCode, v: Value) -> (r: Option<InterpretResult>)
        requires
            old(self).wf(),
            1 <= old(self).ip <= old(self).chunk@.code.len(),
            opcode_of_byte(old(self).chunk@.code[old(self).ip - 1]) == Some(op),
            (op == OpCode::OpNil && v == Value::Empty) || (op == OpCode::OpTrue && v
                == Value::Bool(true)) || (op == OpCode::OpFalse && v == Value::Bool(false)),
        ensures
            final(self).wf(),
            final(self).chunk == old(self).chunk,
            final(self).diagnostics == old(self).diagnostics,
            final(self).ip >= old(self).ip,
            match r {
                None => {
                    &&& Self::spec_at(*old(self), old(self).ip - 1) == Self::spec_at(
                        *final(self),
                        final(self).ip as int,
                    )
                    &&& final(self).printed == old(self).printed
                    &&& final(self).runtime_diag == old(self).runtime_diag
                },
                Some(res) => {
                    &&& res == InterpretResult::InterpretRuntimeError
                    &&& Self::fault_reported(
                        *old(self),
                        *final(self),
                        Self::spec_at(*old(self), old(self).ip - 1),
                    )
                },
            },
    {
        proof {
            reveal_with_fuel(run_spec, 1);
        }
        if self.stack.len() >= STACK_MAX {
            self.runtime_error(RuntimeErrorKind::StackOverflow);
            return Some(InterpretResult::InterpretRuntimeError);
        }
        self.push(v);
        None
    }

    /// Executes negate: the top of the stack must be a number.
    fn op_negate(&mut self) -> (r: Option<InterpretResult>)
        requires
            old(self).wf(),
            1 <= old(self).ip <= old(self).chunk@.code.len(),
            opcode_of_byte(old(self).chunk@.code[old(self).ip - 1]) == Some(OpCode::OpNegate),
        ensures
            final(self).wf(),
            final(self).chunk == old(self).chunk,
            final(self).diagnostics == old(self).diagnostics,
            final(self).ip >= old(self).ip,
            match r {
                None => {
                    &&& Self::spec_at(*old(self), old(self).ip - 1) == Self::spec_at(
                        *final(self),
                        final(self).ip as int,
                    )
                    &&& final(self).printed == old(self).printed
                    &&& final(self).runtime_diag == old(self).runtime_diag
                },
                Some(res) => {
                    &&& res == InterpretResult::InterpretRuntimeError
                    &&& Self::fault_reported(
                        *old(self),
                        *final(self),
                        Self::spec_at(*old(self), old(self).ip - 1),
                    )
                },
            },
    {
        proof {
            reveal_with_fuel(run_spec, 1);
        }
        if self.stack.len() == 0 {
            self.runtime_error(RuntimeErrorKind::InvalidBytecode);
            return Some(InterpretResult::InterpretRuntimeError);
        }
        let top = self.peek();
        match top {
            Value::Number(n) => {
                let _ = self.pop();
                self.push(Value::Number(0i64.wrapping_sub(n)));
                None
            }
            _ => {
                self.runtime_error(RuntimeErrorKind::OperandMustBeNumber);
                Some(InterpretResult::InterpretRuntimeError)
            }
        }
    }

    /// Executes logical not: any value pops to its falsiness.
    fn op_not(&mut self) -> (r: Option<InterpretResult>)
        requires
            old(self).wf(),
            1 <= old(self).ip <= old(self).chunk@.code.len(),
            opcode_of_byte(old(self).chunk@.code[old(self).ip - 1]) == Some(OpCode::OpNot),
        ensures
            final(self).wf(),
            final(self).chunk == old(self).chunk,
            final(self).diagnostics == old(self).diagnostics,
            final(self).ip >= old(self).ip,
            match r {
                None => {
                    &&& Self::spec_at(*old(self), old(self).ip - 1) == Self::spec_at(
                        *final(self),
                        final(self).ip as int,
                    )
                    &&& final(self).printed == old(self).printed
                    &&& final(self).runtime_diag == old(self).runtime_diag
                },
                Some(res) => {
                    &&& res == InterpretResult::InterpretRuntimeError
                    &&& Self::fault_reported(
                        *old(self),
                        *final(self),
                        Self::spec_at(*old(self), old(self).ip - 1),
                    )
                },
            },
    {
        proof {
            reveal_with_fuel(run_spec, 1);
        }
        if self.stack.len() == 0 {
            self.runtime_error(RuntimeErrorKind::InvalidBytecode);
            return Some(InterpretResult::InterpretRuntimeError);
        }
        let v = self.pop();
        self.push(Value::Bool(VM::is_falsey(v)));
        None
    }

    /// Executes equality or its negation: pop two, push the comparison.
    fn op_equality(&mut self, negated: bool) -> (r: Option<InterpretResult>)
        requires
            old(self).wf(),
            1 <= old(self).ip <= old(self).chunk@.code.len(),
            opcode_of_byte(old(self).chunk@.code[old(self).ip - 1]) == Some(
                if negated {
                    OpCode::OpNotEqual
                } else {
                    OpCode::OpEqual
                },
            ),
        ensures
            final(self).wf(),
            final(self).chunk == old(self).chunk,
            final(self).diagnostics == old(self).diagnostics,
            final(self).ip >= old(self).ip,
            match r {
                None => {
                    &&& Self::spec_at(*old(self), old(self).ip - 1) == Self::spec_at(
                        *final(self),
                        final(self).ip as int,
                    )
                    &&& final(self).printed == old(self).printed
                    &&& final(self).runtime_diag == old(self).runtime_diag
                },
                Some(res) => {
                    &&& res == InterpretResult::InterpretRuntimeError
                    &&& Self::fault_reported(
                        *old(self),
                        *final(self),
                        Self::spec_at(*old(self), old(self).ip - 1),
                    )
                },
            },
    {
        proof {
            reveal_with_fuel(run_spec, 1);
        }
        if self.stack.len() < 2 {
            self.runtime_error(RuntimeErrorKind::InvalidBytecode);
            return Some(InterpretResult::InterpretRuntimeError);
        }
        let b = self.pop();
        let a = self.pop();
        let eq = self.values_equal(a, b);
        if negated {
            self.push(Value::Bool(!eq));
        } else {
            self.push(Value::Bool(eq));
        }
        None
    }

    /// Executes addition: numbers add, strings concatenate left to right,
    /// anything else is a type error.
    fn op_add(&mut self) -> (r: Option<InterpretResult>)
        requires
            old(self).wf(),
            1 <= old(self).ip <= old(self).chunk@.code.len(),
            opcode_of_byte(old(self).chunk@.code[old(self).ip - 1]) == Some(OpCode::OpAdd),
        ensures
            final(self).wf(),
            final(self).chunk == old(self).chunk,
            final(self).diagnostics == old(self).diagnostics,
            final(self).ip >= old(self).ip,
            match r {
                None => {
                    &&& Self::spec_at(*old(self), old(self).ip - 1) == Self::spec_at(
                        *final(self),
                        final(self).ip as int,
                    )
                    &&& final(self).printed == old(self).printed
                    &&& final(self).runtime_diag == old(self).runtime_diag
                },
                Some(res) => {
                    &&& res == InterpretResult::InterpretRuntimeError
                    &&& Self::fault_reported(
                        *old(self),
                        *final(self),
                        Self::spec_at(*old(self), old(self).ip - 1),
                    )
                },
            },
    {
        proof {
            reveal_with_fuel(run_spec, 1);
        }
        if self.stack.len() < 2 {
            self.runtime_error(RuntimeErrorKind::InvalidBytecode);
            return Some(InterpretResult::InterpretRuntimeError);
        }
        let b = self.peek();
        let a = self.peek_next();
        match (a, b) {
            (Value::Number(x), Value::Number(y)) => {
                let _ = self.pop();
                let _ = self.pop();
                self.push(Value::Number(x.wrapping_add(y)));
                None
            }
            (Value::Obj(i), Value::Obj(j)) => {
                let s = self.concatenate(i, j);
                let _ = self.pop();
                let _ = self.pop();
                self.push(Value::Obj(s));
                proof {
                    assert(final(self).stack@ =~= old(self).stack@.drop_last().drop_last().push(
                        Value::Obj(old(self).gc.strings().len() as usize),
                    ));
                }
                None
            }
            _ => {
                self.runtime_error(RuntimeErrorKind::OperandsMustBeTwoNumbersOrTwoStrings);
                Some(InterpretResult::InterpretRuntimeError)
            }
        }
    }

    /// Executes a numeric binary instruction: subtraction, multiplication,
    /// division, or an ordering comparison. Both operands must be numbers;
    /// division by zero is a runtime error.
    fn op_numeric(&mut self, op: OpCode) -> (r: Option<InterpretResult>)
        requires
            old(self).wf(),
            1 <= old(self).ip <= old(self).chunk@.code.len(),
            opcode_of_byte(old(self).chunk@.code[old(self).ip - 1]) == Some(op),
            op == OpCode::OpSubtract || op == OpCode::OpMultiply || op == OpCode::OpDivide || op
                == OpCode::OpGreater || op == OpCode::OpLess || op == OpCode::OpGreaterEqual || op
                == OpCode::OpLessEqual,
        ensures
            final(self).wf(),
            final(self).chunk == old(self).chunk,
            final(self).diagnostics == old(self).diagnostics,
            final(self).ip >= old(self).ip,
            match r {
                None => {
                    &&& Self::spec_at(*old(self), old(self).ip - 1) == Self::spec_at(
                        *final(self),
                        final(self).ip as int,
                    )
                    &&& final(self).printed == old(self).printed
                    &&& final(self).runtime_diag == old(self).runtime_diag
                },
                Some(res) => {
                    &&& res == InterpretResult::InterpretRuntimeError
                    &&& Self::fault_reported(
                        *old(self),
                        *final(self),
                        Self::spec_at(*old(self), old(self).ip - 1),
                    )
                },
            },
    {
        proof {
            reveal_with_fuel(run_spec, 1);
        }
        if self.stack.len() < 2 {
            self.runtime_error(RuntimeErrorKind::InvalidBytecode);
            return Some(InterpretResult::InterpretRuntimeError);
        }
        let b = self.peek();
        let a = self.peek_next();
        match (a, b) {
            (Value::Number(x), Value::Number(y)) => {
                match op {
                    OpCode::OpSubtract => {
                        let _ = self.pop();
                        let _ = self.pop();
                        self.push(Value::Number(x.wrapping_sub(y)));
                        None
                    }
                    OpCode::OpMultiply => {
                        let _ = self.pop();
                        let _ = self.pop();
                        self.push(Value::Number(x.wrapping_mul(y)));
                        None
                    }
                    OpCode::OpDivide => {
                        if y == 0 {
                            self.runtime_error(RuntimeErrorKind::DivisionByZero);
                            return Some(InterpretResult::InterpretRuntimeError);
                        }
                        let _ = self.pop();
                        let _ = self.pop();
                        let q = div_values(x, y);
                        self.push(Value::Number(q));
                        None
                    }
                    OpCode::OpGreater => {
                        let _ = self.pop();
                        let _ = self.pop();
                        self.push(Value::Bool(x > y));
                        None
                    }
                    OpCode::OpLess => {
                        let _ = self.pop();
                        let _ = self.pop();
                        self.push(Value::Bool(x < y));
                        None
                    }
                    OpCode::OpGreaterEqual => {
                        let _ = self.pop();
                        let _ = self.pop();
                        self.push(Value::Bool(x >= y));
                        None
                    }
                    _ => {
                        let _ = self.pop();
                        let _ = self.pop();
                        self.push(Value::Bool(x <= y));
                        None
                    }
                }
            }
            _ => {
                self.runtime_error(RuntimeErrorKind::OperandsMustBeNumbers);
                Some(InterpretResult::InterpretRuntimeError)
            }
        }
    }

    /// Faults because the instruction pointer ran past the code without a
    /// return instruction.
    fn fault_past_end(&mut self) -> (r: InterpretResult)
        requires
            old(self).wf(),
            old(self).ip >= old(self).chunk@.code.len(),
        ensures
            final(self).wf(),
            final(self).chunk == old(self).chunk,
            final(self).diagnostics == old(self).diagnostics,
            r == InterpretResult::InterpretRuntimeError,
            Self::fault_reported(
                *old(self),
                *final(self),
                Self::spec_at(*old(self), old(self).ip as int),
            ),
    {
        proof {
            reveal_with_fuel(run_spec, 1);
        }
        self.runtime_error(RuntimeErrorKind::InvalidBytecode);
        InterpretResult::InterpretRuntimeError
    }

    /// Faults on a byte that decodes to no instruction.
    fn fault_bad_opcode(&mut self) -> (r: InterpretResult)
        requires
            old(self).wf(),
            1 <= old(self).ip <= old(self).chunk@.code.len(),
            opcode_of_byte(old(self).chunk@.code[old(self).ip - 1]) is None,
        ensures
            final(self).wf(),
            final(self).chunk == old(self).chunk,
            final(self).diagnostics == old(self).diagnostics,
            r == InterpretResult::InterpretRuntimeError,
            Self::fault_reported(
                *old(self),
                *final(self),
                Self::spec_at(*old(self), old(self).ip - 1),
            ),
    {
        proof {
            reveal_with_fuel(run_spec, 1);
        }
        self.runtime_error(RuntimeErrorKind::InvalidBytecode);
        InterpretResult::InterpretRuntimeError
    }

    /// The fetch-decode-execute loop. Returns, prints and ends on the
    /// return instruction; aborts on a type error, an overflowing stack or
    /// malformed bytecode. The result is exactly what `run_spec` says of
    /// the starting state.
    pub fn run(&mut self) -> (r: InterpretResult)
        requires
            old(self).wf(),
        ensures
            final(self).wf(),
            final(self).chunk == old(self).chunk,
            final(self).diagnostics == old(self).diagnostics,
            ({
                let out = Self::spec_at(*old(self), old(self).ip as int);
                match out.status {
                    RunStatus::Done => {
                        &&& r == InterpretResult::InterpretOk
                        &&& (match final(self).printed {
                            Some(p) => p@ == out.printed,
                            None => false,
                        })
                        &&& final(self).gc.strings() == out.heap
                        &&& final(self).stack@ == out.stack
                        &&& final(self).runtime_diag == old(self).runtime_diag
                    },
                    RunStatus::Fault => {
                        &&& r == InterpretResult::InterpretRuntimeError
                        &&& (match final(self).runtime_diag {
                            Some(e) => e.kind == out.fault && e.line == out.line,
                            None => false,
                        })
                        &&& final(self).stack@.len() == 0
                        &&& final(self).printed == old(self).printed
                    },
                }
            }),
    {
        let ghost target = Self::spec_at(*self, self.ip as int);
        loop
            invariant
                self.wf(),
                self.chunk == old(self).chunk,
                self.printed == old(self).printed,
                self.runtime_diag == old(self).runtime_diag,
                self.diagnostics == old(self).diagnostics,
                target == Self::spec_at(*self, self.ip as int),
                target == Self::spec_at(*old(self), old(self).ip as int),
            decreases self.chunk@.code.len() - self.ip,
        {
            let ghost at_top = *self;
            let size = self.chunk.code_size();
            if self.ip >= size {
                return self.fault_past_end();
            }
            let byte = self.chunk.code_byte(self.ip);
            self.ip = self.ip + 1;
            proof {
                assert(Self::spec_at(at_top, at_top.ip as int) == Self::spec_at(
                    *self,
                    self.ip - 1,
                ));
            }
            let decoded = OpCode::from_byte(byte);
            match decoded {
                None => {
                    return self.fault_bad_opcode();
                }
                Some(op) => match op {
                    OpCode::OpReturn => {
                        return self.op_return();
                    }
                    OpCode::OpConstant => {
                        if let Some(res) = self.op_constant() {
                            return res;
                        }
                    }
                    OpCode::OpNil => {
                        if let Some(res) = self.op_push_literal(op, Value::Empty) {
                            return res;
                        }
                    }
                    OpCode::OpTrue => {
                        if let Some(res) = self.op_push_literal(op, Value::Bool(true)) {
                            return res;
                        }
                    }
                    OpCode::OpFalse => {
                        if let Some(res) = self.op_push_literal(op, Value::Bool(false)) {
                            return res;
                        }
                    }
                    OpCode::OpNegate => {
                        if let Some(res) = self.op_negate() {
                            return res;
                        }
                    }
                    OpCode::OpNot => {
                        if let Some(res) = self.op_not() {
                            return res;
                        }
                    }
                    OpCode::OpEqual => {
                        if let Some(res) = self.op_equality(false) {
                            return res;
                        }
                    }
                    OpCode::OpNotEqual => {
                        if let Some(res) = self.op_equality(true) {
                            return res;
                        }
                    }
                    OpCode::OpAdd => {
                        if let Some(res) = self.op_add() {
                            return res;
                        }
                    }
                    OpCode::OpSubtract => {
                        if let Some(res) = self.op_numeric(op) {
                            return res;
                        }
                    }
                    OpCode::OpMultiply => {
                        if let Some(res) = self.op_numeric(op) {
                            return res;
                        }
                    }
                    OpCode::OpDivide => {
                        if let Some(res) = self.op_numeric(op) {
                            return res;
                        }
                    }
                    OpCode::OpGreater => {
                        if let Some(res) = self.op_numeric(op) {
                            return res;
                        }
                    }
                    OpCode::OpLess => {
                        if let Some(res) = self.op_numeric(op) {
                            return res;
                        }
                    }
                    OpCode::OpGreaterEqual => {
                        if let Some(res) = self.op_numeric(op) {
                            return res;
                        }
                    }
                    OpCode::OpLessEqual => {
                        if let Some(res) = self.op_numeric(op) {
                            return res;
                        }
                    }
                },
            }
        }
    }

    /// Compiles and runs one source unit. On a compile failure the
    /// diagnostics are kept and nothing runs; otherwise the machine takes
    /// over the compiled chunk and heap, and execution's outcome stands in
    /// `printed` or `runtime_diag`.
    pub fn interpret(&mut self, source: Vec<u8>) -> (r: InterpretResult)
        requires
            old(self).wf(),
            source@.len() < usize::MAX,
        ensures
            final(self).wf(),
            r == InterpretResult::InterpretCompileError ==> final(self).diagnostics@.len() > 0,
            r != InterpretResult::InterpretCompileError ==> final(self).diagnostics@.len() == 0,
            (r == InterpretResult::InterpretOk <==> final(self).printed is Some),
            (r == InterpretResult::InterpretRuntimeError <==> final(self).runtime_diag is Some),
            r == InterpretResult::InterpretOk ==> final(self).stack@.len() == 0,
            match final(self).runtime_diag {
                Some(e) => e.kind != RuntimeErrorKind::InvalidBytecode,
                None => true,
            },
            r != InterpretResult::InterpretCompileError ==> {
                &&& chunk_balanced(
                    final(self).chunk@.code,
                    final(self).chunk@.constants.len() as int,
                )
                &&& ({
                    let out = run_spec(
                        final(self).chunk@.code,
                        final(self).chunk@.constants,
                        final(self).chunk@.lines,
                        final(self).compiled_heap@,
                        0,
                        Seq::<Value>::empty(),
                    );
                    match out.status {
                        RunStatus::Done => {
                            &&& r == InterpretResult::InterpretOk
                            &&& (match final(self).printed {
                                Some(p) => p@ == out.printed,
                                None => false,
                            })
                            &&& final(self).gc.strings() == out.heap
                        },
                        RunStatus::Fault => {
                            &&& r == InterpretResult::InterpretRuntimeError
                            &&& (match final(self).runtime_diag {
                                Some(e) => e.kind == out.fault && e.line == out.line,
                                None => false,
                            })
                        },
                    }
                })
            },
    {
        self.diagnostics = Vec::new();
        self.runtime_diag = None;
        self.printed = None;
        let mut compiler = Compiler::new(Vec::new());
        let ok = compiler.compile(source);
        if !ok {
            self.diagnostics = compiler.parser.diagnostics;
            return InterpretResult::InterpretCompileError;
        }
        self.chunk = compiler.chunk;
        self.gc = compiler.gc;
        self.ip = 0;
        self.stack = Vec::new();
        let ghost handed_over = self.gc.strings();
        proof {
            lemma_well_formed_chunk_runs_cleanly(
                self.chunk@.code,
                self.chunk@.constants,
                self.chunk@.lines,
                self.gc.strings(),
            );
            assert(self.stack@ =~= Seq::<Value>::empty());
        }
        let res = self.run();
        self.compiled_heap = Ghost(handed_over);
        res
    }
}

/// Division of two machine numbers, truncating toward zero; the one
/// overflowing quotient wraps. The divisor must not be zero.
fn div_values(a: i64, b: i64) -> (r: i64)
    requires
        b != 0,
    ensures
        r == wrap_div(a as int, b as int) as i64,
{
    let mag_a: u64 = if a >= 0 {
        a as u64
    } else if a == i64::MIN {
        9223372036854775808u64
    } else {
        (-a) as u64
    };
    let mag_b: u64 = if b >= 0 {
        b as u64
    } else if b == i64::MIN {
        9223372036854775808u64
    } else {
        (-b) as u64
    };
    let q: u64 = mag_a / mag_b;
    proof {
        vstd::arithmetic::div_mod::lemma_div_nonincreasing(mag_a as int, mag_b as int);
    }
    if (a < 0) == (b < 0) {
        if q >= 9223372036854775808u64 {
            i64::MIN
        } else {
            q as i64
        }
    } else {
        if q >= 9223372036854775808u64 {
            i64::MIN
        } else {
            let qi = q as i64;
            -qi
        }
    }
}

} // verus!
