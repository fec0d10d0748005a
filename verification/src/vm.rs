use vstd::prelude::*;
use vstd::string::*;
use crate::chunk::{Chunk, Opcode};
use crate::machine::{
    binary, equal, falsey, fetch, int_arith, int_compare, is_arithmetic, is_comparison, operand,
    pending, remaining, Binary, Machine, Task,
};
pub use crate::machine::{Answer, InterpretResult};
use crate::value::{copy_bytes, same_bytes, ConstantType, Value, ValueType};

verus! {

/// A global binding: a name and the value bound to it.
#[derive(Debug)]
pub struct Binding {
    pub name: Vec<u8>,
    pub value: ValueType,
}

/// The bindings that a list of bindings stands for: a later binding of a
/// name takes the place of an earlier one.
pub open spec fn bindings(list: Seq<Binding>) -> Map<Seq<u8>, Value>
    decreases list.len(),
{
    if list.len() == 0 {
        Map::empty()
    } else {
        bindings(list.drop_last()).insert(list.last().name@, list.last().value.deep_view())
    }
}

/// The stack machine.
#[derive(Debug)]
pub struct VM {
    /// The position in the code of the next instruction.
    pub ip: usize,
    /// The stack, its top last.
    pub stack: Vec<ValueType>,
    /// The global bindings; see [`bindings`].
    pub symbols: Vec<Binding>,
    /// The values that `OPPRINT` has printed, in order.
    pub output: Vec<ValueType>,
    /// The value that `OPRETURN` took from the stack, once it has run.
    pub result: Option<ValueType>,
}

impl View for VM {
    type V = Machine;

    open spec fn view(&self) -> Machine {
        Machine {
            ip: self.ip as nat,
            stack: self.stack.deep_view(),
            symbols: bindings(self.symbols@),
            output: self.output.deep_view(),
            result: match self.result {
                Some(v) => Some(v.deep_view()),
                None => None,
            },
        }
    }
}

/// A computation on floating-point numbers that the machine asks of its
/// host.
#[derive(Debug)]
pub enum FloatTask {
    /// The number that a literal's digits denote.
    Literal(Vec<u8>),
    /// The instruction applied to a left and a right operand, each an `INT`
    /// or a `FLOAT`.
    Binary(Opcode, ValueType, ValueType),
}

impl DeepView for FloatTask {
    type V = Task;

    open spec fn deep_view(&self) -> Task {
        match self {
            FloatTask::Literal(digits) => Task::Literal(digits@),
            FloatTask::Binary(op, l, r) => Task::Binary(*op, l.deep_view(), r.deep_view()),
        }
    }
}

/// A machine at the start of the code, with nothing on its stack and nothing
/// bound.
pub fn init_vm() -> (vm: VM)
    ensures
        vm@ == (Machine {
            ip: 0,
            stack: Seq::empty(),
            symbols: Map::empty(),
            output: Seq::empty(),
            result: None,
        }),
{
    let vm = VM {
        ip: 0,
        stack: Vec::new(),
        symbols: Vec::new(),
        output: Vec::new(),
        result: None,
    };
    assert(vm@.stack =~= Seq::empty());
    assert(vm@.output =~= Seq::empty());
    vm
}

/// Releases what a machine holds. A machine holds nothing that outlives it,
/// so there is nothing to do.
pub fn free_vm() {
}

/// Whether the value is falsey: `NIL` or `BOOL(false)`.
pub fn is_falsey(v: &ValueType) -> (b: bool)
    ensures
        b == falsey(v.deep_view()),
{
    match v {
        ValueType::NIL => true,
        ValueType::BOOL(b) => !*b,
        _ => false,
    }
}

/// Whether two values are equal, where the library can say it: `None` for
/// two floats.
pub fn values_equal(l: &ValueType, r: &ValueType) -> (same: Option<bool>)
    ensures
        same == equal(l.deep_view(), r.deep_view()),
{
    match (l, r) {
        (ValueType::FLOAT(_), ValueType::FLOAT(_)) => None,
        (ValueType::BOOL(a), ValueType::BOOL(b)) => Some(*a == *b),
        (ValueType::NIL, ValueType::NIL) => Some(true),
        (ValueType::INT(a), ValueType::INT(b)) => Some(*a == *b),
        (ValueType::STRING(a), ValueType::STRING(b)) => Some(same_bytes(a, b)),
        (ValueType::SYMBOL(a), ValueType::SYMBOL(b)) => Some(same_bytes(a, b)),
        _ => Some(false),
    }
}

impl VM {
    /// The value `ix` places below the top of the stack.
    pub fn peek(&self, ix: usize) -> (v: &ValueType)
        requires
            ix < self.stack.len(),
        ensures
            *v == self.stack@[self.stack.len() - 1 - ix],
            v.deep_view() == self@.stack[self@.stack.len() - 1 - ix],
    {
        &self.stack[self.stack.len() - (1 + ix)]
    }

    /// Puts `v` on the stack.
    fn push(&mut self, v: ValueType)
        ensures
            final(self)@ == (Machine { stack: old(self)@.stack.push(v.deep_view()), ..old(self)@ }),
    {
        self.stack.push(v);
        assert(self@.stack =~= old(self)@.stack.push(v.deep_view()));
    }

    /// Takes the top of the stack.
    fn pop(&mut self) -> (v: ValueType)
        requires
            old(self).stack.len() > 0,
        ensures
            final(self)@ == (Machine { stack: old(self)@.stack.drop_last(), ..old(self)@ }),
            v.deep_view() == old(self)@.stack.last(),
    {
        let v = self.stack.pop().unwrap();
        assert(self@.stack =~= old(self)@.stack.drop_last());
        v
    }

    /// The value bound to `name`, if one is.
    fn lookup(&self, name: &Vec<u8>) -> (found: Option<ValueType>)
        ensures
            self@.symbols.contains_key(name@) <==> found.is_some(),
            found matches Some(v) ==> v.deep_view() == self@.symbols[name@],
    {
        let mut i: usize = self.symbols.len();
        proof {
            assert(self.symbols@.subrange(0, i as int) =~= self.symbols@);
        }
        while i > 0
            invariant
                i <= self.symbols.len(),
                bindings(self.symbols@).contains_key(name@) <==> bindings(
                    self.symbols@.subrange(0, i as int),
                ).contains_key(name@),
                bindings(self.symbols@).contains_key(name@) ==> bindings(self.symbols@)[name@]
                    == bindings(self.symbols@.subrange(0, i as int))[name@],
            decreases i,
        {
            let ghost prefix = self.symbols@.subrange(0, i as int);
            proof {
                assert(prefix.drop_last() =~= self.symbols@.subrange(0, i - 1));
                assert(prefix.last() == self.symbols@[i - 1]);
            }
            i -= 1;
            if same_bytes(&self.symbols[i].name, name) {
                return Some(self.symbols[i].value.copy());
            }
        }
        None
    }

    /// Binds `name` to `value`.
    fn define(&mut self, name: Vec<u8>, value: ValueType)
        ensures
            final(self)@ == (Machine {
                symbols: old(self)@.symbols.insert(name@, value.deep_view()),
                ..old(self)@
            }),
    {
        let ghost before = self.symbols@;
        self.symbols.push(Binding { name, value });
        assert(self.symbols@.drop_last() =~= before);
    }
}

/// What an instruction with two operands comes to; see [`Binary`].
#[derive(Debug)]
pub enum BinaryResult {
    Value(ValueType),
    Host,
    Fault,
}

impl DeepView for BinaryResult {
    type V = Binary;

    open spec fn deep_view(&self) -> Binary {
        match self {
            BinaryResult::Value(v) => Binary::Value(v.deep_view()),
            BinaryResult::Host => Binary::Host,
            BinaryResult::Fault => Binary::Fault,
        }
    }
}

/// The result of an arithmetic instruction on two integers, where it is an
/// `i64`.
pub fn int_arithmetic(op: Opcode, l: i64, r: i64) -> (n: Option<i64>)
    ensures
        n == int_arith(op, l, r),
{
    match op {
        Opcode::OPADD => l.checked_add(r),
        Opcode::OPSUBTRACT => l.checked_sub(r),
        Opcode::OPMULTIPLY => l.checked_mul(r),
        Opcode::OPDIVIDE => l.checked_div(r),
        _ => None,
    }
}

/// The result of a comparison of two integers.
pub fn int_comparison(op: Opcode, l: i64, r: i64) -> (b: bool)
    ensures
        b == int_compare(op, l, r),
{
    match op {
        Opcode::OPLT => l < r,
        Opcode::OPGT => l > r,
        Opcode::OPLTE => l <= r,
        Opcode::OPGTE => l >= r,
        _ => false,
    }
}

/// Whether the instruction is one of the four of arithmetic.
pub fn arithmetic(op: Opcode) -> (b: bool)
    ensures
        b == is_arithmetic(op),
{
    match op {
        Opcode::OPADD | Opcode::OPSUBTRACT | Opcode::OPMULTIPLY | Opcode::OPDIVIDE => true,
        _ => false,
    }
}

/// Whether the instruction is one of the four that order two numbers.
pub fn comparison(op: Opcode) -> (b: bool)
    ensures
        b == is_comparison(op),
{
    match op {
        Opcode::OPLT | Opcode::OPGT | Opcode::OPLTE | Opcode::OPGTE => true,
        _ => false,
    }
}

/// The result of the instruction `op` on the left operand `l` and the right
/// operand `r`.
pub fn apply_binary(op: Opcode, l: &ValueType, r: &ValueType) -> (res: BinaryResult)
    ensures
        res.deep_view() == binary(op, l.deep_view(), r.deep_view()),
{
    if let Opcode::OPEQUAL = op {
        match values_equal(l, r) {
            Some(b) => BinaryResult::Value(ValueType::BOOL(b)),
            None => BinaryResult::Host,
        }
    } else if arithmetic(op) || comparison(op) {
        match (l, r) {
            (ValueType::INT(a), ValueType::INT(b)) => {
                if comparison(op) {
                    BinaryResult::Value(ValueType::BOOL(int_comparison(op, *a, *b)))
                } else {
                    match int_arithmetic(op, *a, *b) {
                        Some(n) => BinaryResult::Value(ValueType::INT(n)),
                        None => BinaryResult::Fault,
                    }
                }
            },
            (ValueType::INT(_), ValueType::FLOAT(_)) => BinaryResult::Host,
            (ValueType::FLOAT(_), ValueType::INT(_)) => BinaryResult::Host,
            (ValueType::FLOAT(_), ValueType::FLOAT(_)) => BinaryResult::Host,
            _ => BinaryResult::Fault,
        }
    } else {
        BinaryResult::Fault
    }
}

impl VM {
    /// The instruction at `ip`, if the code holds one there together with
    /// its operand.
    pub fn fetch_op(&self, chunk: &Chunk) -> (op: Option<Opcode>)
        ensures
            op == fetch(self@, chunk.code@),
    {
        if self.ip < chunk.code.len() {
            match Opcode::from_u8(chunk.code[self.ip]) {
                Some(op) => {
                    if op.operand_bytes() < chunk.code.len() - self.ip {
                        Some(op)
                    } else {
                        None
                    }
                },
                None => None,
            }
        } else {
            None
        }
    }

    /// The operand of the instruction at `ip`.
    fn operand_byte(&self, chunk: &Chunk) -> (byte: u8)
        requires
            fetch(self@, chunk.code@) matches Some(op) && op.operand_width() == 1,
        ensures
            byte == operand(self@, chunk.code@),
            self.ip + 2 <= chunk.code@.len(),
    {
        assert(self.ip + 1 < chunk.code.len());
        chunk.code[self.ip + 1]
    }

    /// The computation that the host has to perform before the machine can
    /// go on, if the next instruction needs one.
    pub fn float_task(&self, chunk: &Chunk) -> (task: Option<FloatTask>)
        ensures
            task.is_some() <==> pending(self@, chunk.code@, chunk.pool()).is_some(),
            task matches Some(t) ==> pending(self@, chunk.code@, chunk.pool()) == Some(
                t.deep_view(),
            ),
    {
        match self.fetch_op(chunk) {
            Some(Opcode::OPCONSTANT) => {
                let ix: usize = self.operand_byte(chunk) as usize;
                if ix < chunk.constants.values.len() {
                    match &chunk.constants.values[ix] {
                        ConstantType::FLOAT(digits) => Some(FloatTask::Literal(copy_bytes(digits))),
                        _ => None,
                    }
                } else {
                    None
                }
            },
            Some(op) => {
                let n: usize = self.stack.len();
                if (arithmetic(op) || comparison(op) || op == Opcode::OPEQUAL) && n >= 2 {
                    let l = &self.stack[n - 2];
                    let r = &self.stack[n - 1];
                    match apply_binary(op, l, r) {
                        BinaryResult::Host => Some(FloatTask::Binary(op, l.copy(), r.copy())),
                        _ => None,
                    }
                } else {
                    None
                }
            },
            None => None,
        }
    }

    /// Whether the next instruction needs a computation by the host.
    pub fn suspended(&self, chunk: &Chunk) -> (b: bool)
        ensures
            b == pending(self@, chunk.code@, chunk.pool()).is_some(),
    {
        match self.fetch_op(chunk) {
            Some(Opcode::OPCONSTANT) => {
                let ix: usize = self.operand_byte(chunk) as usize;
                if ix < chunk.constants.values.len() {
                    match &chunk.constants.values[ix] {
                        ConstantType::FLOAT(_) => true,
                        _ => false,
                    }
                } else {
                    false
                }
            },
            Some(op) => {
                let n: usize = self.stack.len();
                if (arithmetic(op) || comparison(op) || op == Opcode::OPEQUAL) && n >= 2 {
                    match apply_binary(op, &self.stack[n - 2], &self.stack[n - 1]) {
                        BinaryResult::Host => true,
                        _ => false,
                    }
                } else {
                    false
                }
            },
            None => false,
        }
    }

    /// An instruction that names a constant and is not suspended: `OPCONSTANT`,
    /// `OPDEFSYM` or `OPSYM`.
    fn load(&mut self, chunk: &Chunk, op: Opcode) -> (stop: Option<InterpretResult>)
        requires
            fetch(old(self)@, chunk.code@) == Some(op),
            pending(old(self)@, chunk.code@, chunk.pool()).is_none(),
            op.names_constant(),
        ensures
            (final(self)@, stop) == crate::machine::step(old(self)@, chunk.code@, chunk.pool()),
    {
        let ix: usize = self.operand_byte(chunk) as usize;
        assert(self.ip + 2 <= chunk.code.len());
        if ix >= chunk.constants.values.len() {
            return Some(InterpretResult::CompileError);
        }
        let constant = &chunk.constants.values[ix];
        assert(chunk.pool()[ix as int] == constant.deep_view());
        match (op, constant) {
            (Opcode::OPCONSTANT, ConstantType::INT(n)) => {
                self.push(ValueType::INT(*n));
            },
            (Opcode::OPCONSTANT, ConstantType::STRING(t)) => {
                self.push(ValueType::STRING(copy_bytes(t)));
            },
            (Opcode::OPCONSTANT, ConstantType::SYMBOL(t)) => {
                self.push(ValueType::SYMBOL(copy_bytes(t)));
            },
            (Opcode::OPDEFSYM, ConstantType::SYMBOL(t)) => {
                self.push(ValueType::SYMBOL(copy_bytes(t)));
            },
            (Opcode::OPSYM, ConstantType::SYMBOL(t)) => {
                match self.lookup(t) {
                    Some(v) => {
                        self.push(v);
                    },
                    None => {
                        return Some(InterpretResult::RuntimeError);
                    },
                }
            },
            _ => {
                return Some(InterpretResult::CompileError);
            },
        }
        self.ip = self.ip + 2;
        None
    }

    /// An instruction that takes one or two values from the stack and is not
    /// suspended.
    fn consume(&mut self, chunk: &Chunk, op: Opcode) -> (stop: Option<InterpretResult>)
        requires
            fetch(old(self)@, chunk.code@) == Some(op),
            pending(old(self)@, chunk.code@, chunk.pool()).is_none(),
            op != Opcode::OPNEGATE,
            !op.names_constant(),
            op != Opcode::OPJMP,
            op != Opcode::OPNIL,
            op != Opcode::OPTRUE,
            op != Opcode::OPFALSE,
        ensures
            (final(self)@, stop) == crate::machine::step(old(self)@, chunk.code@, chunk.pool()),
    {
        if self.stack.len() < 1 {
            return Some(InterpretResult::RuntimeError);
        }
        assert(self.ip + 1 <= chunk.code.len());
        match op {
            Opcode::OPJMPIFFALSE => {
                let target: usize = self.operand_byte(chunk) as usize;
                let top = self.pop();
                if is_falsey(&top) {
                    self.ip = target;
                } else {
                    self.ip = self.ip + 2;
                }
                None
            },
            Opcode::OPRETURN => {
                let top = self.pop();
                self.result = Some(top);
                self.ip = self.ip + 1;
                Some(InterpretResult::Success)
            },
            Opcode::OPPOP => {
                let _ = self.pop();
                self.ip = self.ip + 1;
                None
            },
            Opcode::OPNOT => {
                let top = self.pop();
                self.push(ValueType::BOOL(is_falsey(&top)));
                self.ip = self.ip + 1;
                None
            },
            Opcode::OPLEN => {
                let top = self.pop();
                match top {
                    ValueType::STRING(t) => {
                        let n: usize = t.len();
                        self.push(ValueType::INT(#[verifier::truncate] (n as i64)));
                    },
                    _ => {
                        self.push(ValueType::NIL);
                    },
                }
                self.ip = self.ip + 1;
                None
            },
            Opcode::OPPRINT => {
                let top = self.pop();
                let ghost before = self@;
                self.output.push(top);
                assert(self@.output =~= before.output.push(top.deep_view()));
                self.push(ValueType::NIL);
                self.ip = self.ip + 1;
                None
            },
            _ => {
                if self.stack.len() < 2 {
                    return Some(InterpretResult::RuntimeError);
                }
                if let Opcode::OPDEF = op {
                    match self.peek(1) {
                        ValueType::SYMBOL(_) => {},
                        _ => {
                            return Some(InterpretResult::RuntimeError);
                        },
                    }
                    let top = self.pop();
                    let below = self.pop();
                    match below {
                        ValueType::SYMBOL(name) => {
                            self.define(name, top);
                        },
                        _ => {},
                    }
                    self.push(ValueType::NIL);
                    self.ip = self.ip + 1;
                    None
                } else {
                    match apply_binary(op, self.peek(1), self.peek(0)) {
                        BinaryResult::Value(v) => {
                            let _ = self.pop();
                            let _ = self.pop();
                            self.push(v);
                            self.ip = self.ip + 1;
                            None
                        },
                        _ => Some(InterpretResult::RuntimeError),
                    }
                }
            },
        }
    }

    /// Carries out the instruction at `ip`. Returns `None` if the machine
    /// goes on, else why it stops; see [`crate::machine::step`].
    pub fn step(&mut self, chunk: &Chunk) -> (stop: Option<InterpretResult>)
        ensures
            (final(self)@, stop) == crate::machine::step(old(self)@, chunk.code@, chunk.pool()),
    {
        let op = match self.fetch_op(chunk) {
            Some(op) => op,
            None => {
                return Some(InterpretResult::CompileError);
            },
        };
        if self.suspended(chunk) {
            return Some(InterpretResult::Suspended);
        }
        assert(self.ip + 1 <= chunk.code.len());
        match op {
            Opcode::OPNEGATE => Some(InterpretResult::CompileError),
            Opcode::OPCONSTANT | Opcode::OPDEFSYM | Opcode::OPSYM => self.load(chunk, op),
            Opcode::OPJMP => {
                self.ip = self.operand_byte(chunk) as usize;
                None
            },
            Opcode::OPNIL => {
                self.push(ValueType::NIL);
                self.ip = self.ip + 1;
                None
            },
            Opcode::OPTRUE => {
                self.push(ValueType::BOOL(true));
                self.ip = self.ip + 1;
                None
            },
            Opcode::OPFALSE => {
                self.push(ValueType::BOOL(false));
                self.ip = self.ip + 1;
                None
            },
            _ => self.consume(chunk, op),
        }
    }

    /// Carries out the suspended instruction with the host's answer. Returns
    /// `None` if the machine goes on; see [`crate::machine::resume`].
    pub fn resume(&mut self, chunk: &Chunk, answer: Answer) -> (stop: Option<InterpretResult>)
        ensures
            (final(self)@, stop) == crate::machine::resume(
                old(self)@,
                chunk.code@,
                chunk.pool(),
                answer,
            ),
    {
        let op = match self.fetch_op(chunk) {
            Some(op) => op,
            None => {
                return Some(InterpretResult::RuntimeError);
            },
        };
        if !self.suspended(chunk) {
            return Some(InterpretResult::RuntimeError);
        }
        assert(self.ip + 1 <= chunk.code.len());
        let value = match answer {
            Answer::Number(bits) => ValueType::FLOAT(bits),
            Answer::Truth(b) => ValueType::BOOL(b),
        };
        if let Opcode::OPCONSTANT = op {
            assert(self.ip + 2 <= chunk.code.len());
            match answer {
                Answer::Number(_) => {},
                Answer::Truth(_) => {
                    return Some(InterpretResult::RuntimeError);
                },
            }
            self.push(value);
            self.ip = self.ip + 2;
            None
        } else {
            let numeric = match answer {
                Answer::Number(_) => true,
                Answer::Truth(_) => false,
            };
            if arithmetic(op) != numeric {
                return Some(InterpretResult::RuntimeError);
            }
            let _ = self.pop();
            let _ = self.pop();
            self.push(value);
            self.ip = self.ip + 1;
            None
        }
    }

    /// Carries out instructions until one stops the machine, and returns why
    /// it stopped; see [`crate::machine::run`].
    pub fn run(&mut self, chunk: &Chunk) -> (why: InterpretResult)
        ensures
            (final(self)@, why) == crate::machine::run(old(self)@, chunk.code@, chunk.pool()),
    {
        loop
            invariant
                crate::machine::run(self@, chunk.code@, chunk.pool()) == crate::machine::run(
                    old(self)@,
                    chunk.code@,
                    chunk.pool(),
                ),
            decreases remaining(self@, chunk.code@),
        {
            let before: usize = self.ip;
            match self.step(chunk) {
                Some(why) => {
                    return why;
                },
                None => {
                    if self.ip <= before {
                        return InterpretResult::CompileError;
                    }
                },
            }
        }
    }
}

/// The machine at the start of the code, with nothing on its stack and
/// nothing bound.
pub open spec fn fresh() -> Machine {
    Machine {
        ip: 0,
        stack: Seq::empty(),
        symbols: Map::empty(),
        output: Seq::empty(),
        result: None,
    }
}

/// Whether the machine `after` and the result `why` are what the
/// interpretation of the source `src` makes of the machine `before`, with
/// `filled` as the chunk that holds the code. Where the translation fails the
/// machine is left as it was and the result is `CompileError`; else the code
/// runs on a machine that starts afresh.
pub open spec fn interpreted(
    src: Seq<u8>,
    chunk: &Chunk,
    filled: &Chunk,
    before: Machine,
    after: Machine,
    why: InterpretResult,
) -> bool {
    ||| crate::compiler::compiled(src, chunk, filled, true) && why
        == InterpretResult::CompileError && after == before
    ||| crate::compiler::compiled(src, chunk, filled, false) && (after, why) == crate::machine::run(
        fresh(),
        filled.code@,
        filled.pool(),
    )
}

impl VM {
    /// Translates `source` into code, which is added to `chunk`, and runs the
    /// code of `chunk` on a machine that starts afresh; see [`interpreted`].
    pub fn interpret(&mut self, source: &str, chunk: &mut Chunk) -> (why: InterpretResult)
        ensures
            interpreted(
                source.spec_bytes(),
                old(chunk),
                final(chunk),
                old(self)@,
                final(self)@,
                why,
            ),
    {
        if !crate::compiler::compile(source, chunk) {
            return InterpretResult::CompileError;
        }
        self.ip = 0;
        self.stack = Vec::new();
        self.symbols = Vec::new();
        self.output = Vec::new();
        self.result = None;
        assert(self@.stack =~= Seq::<Value>::empty());
        assert(self@.output =~= Seq::<Value>::empty());
        self.run(chunk)
    }
}

/// An interpretation with a chunk that was empty ends with `CompileError`
/// only where the translation failed: the code of a translation that has not
/// failed never stops the machine for the code's sake.
pub proof fn lemma_interpreted_runs(
    src: Seq<u8>,
    chunk: &Chunk,
    filled: &Chunk,
    before: Machine,
    after: Machine,
    why: InterpretResult,
)
    requires
        interpreted(src, chunk, filled, before, after, why),
        chunk.code@.len() == 0,
        chunk.lines@.len() == 0,
        why == InterpretResult::CompileError,
    ensures
        crate::compiler::compiled(src, chunk, filled, true),
{
    if crate::compiler::compiled(src, chunk, filled, false) {
        crate::compiler::lemma_compiled_runs(src, chunk, filled);
        crate::safety::lemma_run_runs(fresh(), filled.code@, filled.pool());
    }
}

} // verus!
