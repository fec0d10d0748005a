use vstd::prelude::*;
use crate::chunk::{decode, Opcode};
use crate::value::{Constant, Value};

verus! {

/// How an interpretation ended, or why it stopped.
///
/// `Suspended` is no end: the next instruction needs a computation on
/// floating-point numbers, which the library leaves to its host. The machine
/// is then as it was before the instruction, and goes on when the host hands
/// it the answer.
#[allow(non_camel_case_types)]
#[derive(Debug, Clone, Copy, PartialEq, Eq, Structural)]
pub enum InterpretResult {
    Success,
    CompileError,
    RuntimeError,
    Suspended,
}

/// The state of the stack machine as a mathematical value.
pub struct Machine {
    /// The position in the code of the next instruction.
    pub ip: nat,
    /// The stack, its top last.
    pub stack: Seq<Value>,
    /// The global bindings.
    pub symbols: Map<Seq<u8>, Value>,
    /// The values that `OPPRINT` has printed, in order.
    pub output: Seq<Value>,
    /// The value that `OPRETURN` took from the stack, once it has run.
    pub result: Option<Value>,
}

/// A computation on floating-point numbers that the machine asks of its
/// host.
pub enum Task {
    /// The number that a literal's digits denote.
    Literal(Seq<u8>),
    /// The instruction applied to a left and a right operand, each an `Int`
    /// or a `Float`.
    Binary(Opcode, Value, Value),
}

/// What the host answers: a number, as its bit pattern, or a truth value.
#[derive(Debug, Clone, Copy)]
pub enum Answer {
    Number(u64),
    Truth(bool),
}

/// A value is falsey if it is `Nil` or `Bool(false)`, and truthy otherwise.
pub open spec fn falsey(v: Value) -> bool {
    v == Value::Nil || v == Value::Bool(false)
}

/// Whether the value is a number.
pub open spec fn is_number(v: Value) -> bool {
    v is Int || v is Float
}

/// Equality of values: two values are equal if they are of the same variant
/// and hold the same. Whether two floating-point numbers are equal is for the
/// host to say, so for two of them there is no answer here.
pub open spec fn equal(l: Value, r: Value) -> Option<bool> {
    if l is Float && r is Float {
        None
    } else {
        Some(l == r)
    }
}

/// Whether the instruction is one of the four of arithmetic.
pub open spec fn is_arithmetic(op: Opcode) -> bool {
    op == Opcode::OPADD || op == Opcode::OPSUBTRACT || op == Opcode::OPMULTIPLY || op
        == Opcode::OPDIVIDE
}

/// Whether the instruction is one of the four that order two numbers.
pub open spec fn is_comparison(op: Opcode) -> bool {
    op == Opcode::OPLT || op == Opcode::OPGT || op == Opcode::OPLTE || op == Opcode::OPGTE
}

/// The result of an arithmetic instruction on two integers, where it is an
/// `i64`. Division truncates towards zero; there is no result for a division
/// by zero nor for one that leaves the range of `i64`.
pub open spec fn int_arith(op: Opcode, l: i64, r: i64) -> Option<i64> {
    match op {
        Opcode::OPADD => if i64::MIN <= l + r <= i64::MAX {
            Some((l + r) as i64)
        } else {
            None
        },
        Opcode::OPSUBTRACT => if i64::MIN <= l - r <= i64::MAX {
            Some((l - r) as i64)
        } else {
            None
        },
        Opcode::OPMULTIPLY => if i64::MIN <= l * r <= i64::MAX {
            Some((l * r) as i64)
        } else {
            None
        },
        Opcode::OPDIVIDE => l.checked_div(r),
        _ => None,
    }
}

/// The result of a comparison of two integers.
pub open spec fn int_compare(op: Opcode, l: i64, r: i64) -> bool {
    match op {
        Opcode::OPLT => l < r,
        Opcode::OPGT => l > r,
        Opcode::OPLTE => l <= r,
        Opcode::OPGTE => l >= r,
        _ => false,
    }
}

/// What an instruction with two operands does with the left operand `l` and
/// the right operand `r`, where the library can say it alone.
pub enum Binary {
    /// The value that takes the place of the two operands.
    Value(Value),
    /// The host has to compute it.
    Host,
    /// The operands do not suit the instruction, or the result is out of
    /// range.
    Fault,
}

/// The result of an instruction with two operands.
///
/// On two integers arithmetic gives an integer and a comparison a truth
/// value. Where both operands are numbers and one of them is a float, the
/// result is the host's to compute, and is a float for arithmetic. Anything
/// else is a fault. `OPEQUAL` takes any two values.
pub open spec fn binary(op: Opcode, l: Value, r: Value) -> Binary {
    if op == Opcode::OPEQUAL {
        match equal(l, r) {
            Some(b) => Binary::Value(Value::Bool(b)),
            None => Binary::Host,
        }
    } else if is_arithmetic(op) || is_comparison(op) {
        match (l, r) {
            (Value::Int(a), Value::Int(b)) => if is_comparison(op) {
                Binary::Value(Value::Bool(int_compare(op, a, b)))
            } else {
                match int_arith(op, a, b) {
                    Some(n) => Binary::Value(Value::Int(n)),
                    None => Binary::Fault,
                }
            },
            _ => if is_number(l) && is_number(r) {
                Binary::Host
            } else {
                Binary::Fault
            },
        }
    } else {
        Binary::Fault
    }
}

/// Whether the instruction takes two operands from the stack and puts one
/// value in their place.
pub open spec fn is_binary(op: Opcode) -> bool {
    is_arithmetic(op) || is_comparison(op) || op == Opcode::OPEQUAL
}

/// The instruction at `m.ip`, if the code holds one there together with its
/// operand.
pub open spec fn fetch(m: Machine, code: Seq<u8>) -> Option<Opcode> {
    if m.ip < code.len() {
        match decode(code[m.ip as int]) {
            Some(op) => if m.ip + op.operand_width() < code.len() {
                Some(op)
            } else {
                None
            },
            None => None,
        }
    } else {
        None
    }
}

/// The operand of the instruction at `m.ip`.
pub open spec fn operand(m: Machine, code: Seq<u8>) -> u8 {
    code[m.ip as int + 1]
}

/// The computation that the host has to perform before the machine can go
/// on, if the next instruction needs one: the loading of a float constant, or
/// an instruction with two operands of which [`binary`] says so.
pub open spec fn pending(m: Machine, code: Seq<u8>, pool: Seq<Constant>) -> Option<Task> {
    match fetch(m, code) {
        Some(Opcode::OPCONSTANT) => {
            let ix = operand(m, code) as int;
            if ix < pool.len() && pool[ix] is Float {
                Some(Task::Literal(pool[ix]->Float_0))
            } else {
                None
            }
        },
        Some(op) => {
            let n = m.stack.len() as int;
            if is_binary(op) && n >= 2 && binary(op, m.stack[n - 2], m.stack[n - 1])
                == Binary::Host {
                Some(Task::Binary(op, m.stack[n - 2], m.stack[n - 1]))
            } else {
                None
            }
        },
        None => None,
    }
}

/// The machine after an instruction of `width` operand bytes that leaves the
/// stack as `stack`.
pub open spec fn advance(m: Machine, width: nat, stack: Seq<Value>) -> Machine {
    Machine { ip: m.ip + 1 + width, stack, ..m }
}

/// One instruction: the machine afterwards, and `None` if the machine goes
/// on or else why it stops.
///
/// Where the machine stops for any reason but `Success` it is left as it was.
/// `CompileError` stands for code that the machine cannot read: no
/// instruction at `ip`, an unknown or reserved instruction, a missing
/// operand, an operand that names no constant, or a name that is no symbol.
/// `RuntimeError` stands for a stack that holds too little and for values
/// that do not suit the instruction.
pub open spec fn step(m: Machine, code: Seq<u8>, pool: Seq<Constant>) -> (Machine, Option<
    InterpretResult,
>) {
    let n = m.stack.len() as int;
    let malformed = (m, Some(InterpretResult::CompileError));
    let fault = (m, Some(InterpretResult::RuntimeError));
    match fetch(m, code) {
        None => malformed,
        Some(op) => {
            if pending(m, code, pool).is_some() {
                (m, Some(InterpretResult::Suspended))
            } else if op == Opcode::OPNEGATE {
                malformed
            } else if op.names_constant() {
                let ix = operand(m, code) as int;
                if ix >= pool.len() {
                    malformed
                } else {
                    match (op, pool[ix]) {
                        (Opcode::OPCONSTANT, Constant::Int(v)) => (
                            advance(m, 1, m.stack.push(Value::Int(v))),
                            None,
                        ),
                        (Opcode::OPCONSTANT, Constant::Str(t)) => (
                            advance(m, 1, m.stack.push(Value::Str(t))),
                            None,
                        ),
                        (Opcode::OPCONSTANT, Constant::Symbol(t)) => (
                            advance(m, 1, m.stack.push(Value::Symbol(t))),
                            None,
                        ),
                        (Opcode::OPDEFSYM, Constant::Symbol(t)) => (
                            advance(m, 1, m.stack.push(Value::Symbol(t))),
                            None,
                        ),
                        (Opcode::OPSYM, Constant::Symbol(t)) => if m.symbols.contains_key(t) {
                            (advance(m, 1, m.stack.push(m.symbols[t])), None)
                        } else {
                            fault
                        },
                        _ => malformed,
                    }
                }
            } else if op == Opcode::OPJMP {
                (Machine { ip: operand(m, code) as nat, ..m }, None)
            } else if op == Opcode::OPNIL {
                (advance(m, 0, m.stack.push(Value::Nil)), None)
            } else if op == Opcode::OPTRUE {
                (advance(m, 0, m.stack.push(Value::Bool(true))), None)
            } else if op == Opcode::OPFALSE {
                (advance(m, 0, m.stack.push(Value::Bool(false))), None)
            } else if n < 1 {
                fault
            } else {
                let top = m.stack[n - 1];
                let rest = m.stack.drop_last();
                if op == Opcode::OPJMPIFFALSE {
                    if falsey(top) {
                        (Machine { ip: operand(m, code) as nat, stack: rest, ..m }, None)
                    } else {
                        (advance(m, 1, rest), None)
                    }
                } else if op == Opcode::OPRETURN {
                    (
                        Machine { result: Some(top), ..advance(m, 0, rest) },
                        Some(InterpretResult::Success),
                    )
                } else if op == Opcode::OPPOP {
                    (advance(m, 0, rest), None)
                } else if op == Opcode::OPNOT {
                    (advance(m, 0, rest.push(Value::Bool(falsey(top)))), None)
                } else if op == Opcode::OPLEN {
                    match top {
                        Value::Str(t) => (
                            advance(m, 0, rest.push(Value::Int(t.len() as i64))),
                            None,
                        ),
                        _ => (advance(m, 0, rest.push(Value::Nil)), None),
                    }
                } else if op == Opcode::OPPRINT {
                    (
                        Machine {
                            output: m.output.push(top),
                            ..advance(m, 0, rest.push(Value::Nil))
                        },
                        None,
                    )
                } else if n < 2 {
                    fault
                } else {
                    let below = m.stack[n - 2];
                    let rest2 = rest.drop_last();
                    if op == Opcode::OPDEF {
                        match below {
                            Value::Symbol(name) => (
                                Machine {
                                    symbols: m.symbols.insert(name, top),
                                    ..advance(m, 0, rest2.push(Value::Nil))
                                },
                                None,
                            ),
                            _ => fault,
                        }
                    } else {
                        match binary(op, below, top) {
                            Binary::Value(v) => (advance(m, 0, rest2.push(v)), None),
                            _ => fault,
                        }
                    }
                }
            }
        },
    }
}

/// Whether the answer is of the kind that the task asks for: a number for a
/// literal and for arithmetic, a truth value for a comparison and for
/// `OPEQUAL`.
pub open spec fn answers(task: Task, answer: Answer) -> bool {
    match task {
        Task::Literal(_) => answer is Number,
        Task::Binary(op, _, _) => if is_arithmetic(op) {
            answer is Number
        } else {
            answer is Truth
        },
    }
}

/// The value that an answer stands for.
pub open spec fn answer_value(answer: Answer) -> Value {
    match answer {
        Answer::Number(bits) => Value::Float(bits),
        Answer::Truth(b) => Value::Bool(b),
    }
}

/// The suspended instruction, carried out with the host's answer: the
/// machine afterwards, and `None` if it goes on. Where nothing is pending, or
/// the answer is not of the kind asked for, the machine stays as it is and
/// stops with `RuntimeError`.
pub open spec fn resume(m: Machine, code: Seq<u8>, pool: Seq<Constant>, answer: Answer) -> (
    Machine,
    Option<InterpretResult>,
) {
    match pending(m, code, pool) {
        Some(task) => if answers(task, answer) {
            match task {
                Task::Literal(_) => (advance(m, 1, m.stack.push(answer_value(answer))), None),
                Task::Binary(_, _, _) => (
                    advance(m, 0, m.stack.drop_last().drop_last().push(answer_value(answer))),
                    None,
                ),
            }
        } else {
            (m, Some(InterpretResult::RuntimeError))
        },
        None => (m, Some(InterpretResult::RuntimeError)),
    }
}

/// How far `ip` is from the end of the code.
pub open spec fn remaining(m: Machine, code: Seq<u8>) -> nat {
    if m.ip <= code.len() {
        (code.len() - m.ip) as nat
    } else {
        0
    }
}

/// Instructions one after the other, until one stops the machine: the
/// machine then, and why it stopped.
///
/// A jump that does not lead forward stops the machine with `CompileError`,
/// after the jump: the code generator emits no such jump, and without one
/// every run comes to an end.
pub open spec fn run(m: Machine, code: Seq<u8>, pool: Seq<Constant>) -> (Machine, InterpretResult)
    decreases remaining(m, code),
{
    let (next, stop) = step(m, code, pool);
    match stop {
        Some(why) => (next, why),
        None => if remaining(next, code) < remaining(m, code) {
            run(next, code, pool)
        } else {
            (next, InterpretResult::CompileError)
        },
    }
}

/// Every instruction that the machine carries out changes the depth of the
/// stack by the instruction's stack effect: one that lets the machine go on,
/// and `OPRETURN`, which ends the run.
pub proof fn lemma_step_stack_effect(m: Machine, code: Seq<u8>, pool: Seq<Constant>)
    requires
        step(m, code, pool).1 is None || step(m, code, pool).1 == Some(InterpretResult::Success),
    ensures
        fetch(m, code) matches Some(op) && step(m, code, pool).0.stack.len() == m.stack.len()
            + op.stack_effect(),
{
}

/// An instruction that was suspended and is carried out with the host's
/// answer changes the depth of the stack by its stack effect too.
pub proof fn lemma_resume_stack_effect(
    m: Machine,
    code: Seq<u8>,
    pool: Seq<Constant>,
    answer: Answer,
)
    requires
        resume(m, code, pool, answer).1 is None,
    ensures
        fetch(m, code) matches Some(op) && resume(m, code, pool, answer).0.stack.len()
            == m.stack.len() + op.stack_effect(),
{
}

/// Where the machine stops for any reason but the end of the run, it is left
/// as it was.
pub proof fn lemma_stop_leaves_machine(m: Machine, code: Seq<u8>, pool: Seq<Constant>)
    requires
        step(m, code, pool).1 matches Some(why) && why != InterpretResult::Success,
    ensures
        step(m, code, pool).0 == m,
{
}

/// The coercion of numbers. Arithmetic on two integers gives an integer, or
/// a fault where the result is no `i64`. On two numbers of which at least one
/// is a float it is the host's to compute, and the value that the machine
/// then puts on the stack is a float.
pub proof fn lemma_coercion(op: Opcode, l: Value, r: Value, answer: Answer)
    requires
        is_arithmetic(op),
        is_number(l),
        is_number(r),
    ensures
        l is Int && r is Int ==> binary(op, l, r) == (match int_arith(op, l->Int_0, r->Int_0) {
            Some(n) => Binary::Value(Value::Int(n)),
            None => Binary::Fault,
        }),
        l is Float || r is Float ==> binary(op, l, r) == Binary::Host,
        answers(Task::Binary(op, l, r), answer) ==> answer_value(answer) is Float,
{
}

/// A comparison of two integers gives a truth value; on two numbers of which
/// at least one is a float it is the host's to compute, and the value that
/// the machine then puts on the stack is a truth value.
pub proof fn lemma_comparison(op: Opcode, l: Value, r: Value, answer: Answer)
    requires
        is_comparison(op),
        is_number(l),
        is_number(r),
    ensures
        l is Int && r is Int ==> binary(op, l, r) == Binary::Value(
            Value::Bool(int_compare(op, l->Int_0, r->Int_0)),
        ),
        l is Float || r is Float ==> binary(op, l, r) == Binary::Host,
        answers(Task::Binary(op, l, r), answer) ==> answer_value(answer) is Bool,
{
}

/// A run that has not stopped at once is a run from the machine after one
/// instruction.
pub proof fn lemma_run_unfold(m: Machine, code: Seq<u8>, pool: Seq<Constant>)
    requires
        step(m, code, pool).1 is None,
        step(m, code, pool).0.ip > m.ip,
    ensures
        run(m, code, pool) == run(step(m, code, pool).0, code, pool),
{
}

} // verus!
