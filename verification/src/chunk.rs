use vstd::prelude::*;
use crate::value::{init_values, Constant, ConstantType, Values};

verus! {

/// An instruction of the stack machine. The instructions are numbered
/// densely from zero in the order in which they are listed, and that number
/// is the byte that stands for the instruction in a chunk's code.
/// `OPNEGATE` is reserved: nothing emits it and the machine refuses it.
#[allow(non_camel_case_types)]
#[derive(Debug, Clone, Copy, PartialEq, Eq, Structural)]
pub enum Opcode {
    OPCONSTANT,
    OPNEGATE,
    OPADD,
    OPSUBTRACT,
    OPMULTIPLY,
    OPDIVIDE,
    OPRETURN,
    OPNIL,
    OPTRUE,
    OPFALSE,
    OPNOT,
    OPEQUAL,
    OPLT,
    OPGT,
    OPLTE,
    OPGTE,
    OPLEN,
    OPPRINT,
    OPPOP,
    OPDEF,
    OPDEFSYM,
    OPSYM,
    OPJMPIFFALSE,
    OPJMP,
}

/// The number of instructions.
pub const OPCODES: usize = 24;

impl Opcode {
    /// The byte that stands for the instruction.
    pub open spec fn ordinal(self) -> nat {
        match self {
            Opcode::OPCONSTANT => 0,
            Opcode::OPNEGATE => 1,
            Opcode::OPADD => 2,
            Opcode::OPSUBTRACT => 3,
            Opcode::OPMULTIPLY => 4,
            Opcode::OPDIVIDE => 5,
            Opcode::OPRETURN => 6,
            Opcode::OPNIL => 7,
            Opcode::OPTRUE => 8,
            Opcode::OPFALSE => 9,
            Opcode::OPNOT => 10,
            Opcode::OPEQUAL => 11,
            Opcode::OPLT => 12,
            Opcode::OPGT => 13,
            Opcode::OPLTE => 14,
            Opcode::OPGTE => 15,
            Opcode::OPLEN => 16,
            Opcode::OPPRINT => 17,
            Opcode::OPPOP => 18,
            Opcode::OPDEF => 19,
            Opcode::OPDEFSYM => 20,
            Opcode::OPSYM => 21,
            Opcode::OPJMPIFFALSE => 22,
            Opcode::OPJMP => 23,
        }
    }

    /// How many operand bytes follow the instruction: one after an
    /// instruction that names a constant or a jump target, none otherwise.
    pub open spec fn operand_width(self) -> nat {
        match self {
            Opcode::OPCONSTANT | Opcode::OPDEFSYM | Opcode::OPSYM | Opcode::OPJMPIFFALSE
            | Opcode::OPJMP => 1,
            _ => 0,
        }
    }

    /// Whether the operand of the instruction is an index into the constant
    /// pool.
    pub open spec fn names_constant(self) -> bool {
        self == Opcode::OPCONSTANT || self == Opcode::OPDEFSYM || self == Opcode::OPSYM
    }

    /// Whether the operand of the instruction is a position in the code.
    pub open spec fn names_target(self) -> bool {
        self == Opcode::OPJMPIFFALSE || self == Opcode::OPJMP
    }

    /// By how much the instruction changes the depth of the stack.
    pub open spec fn stack_effect(self) -> int {
        match self {
            Opcode::OPCONSTANT => 1,
            Opcode::OPNEGATE => 0,
            Opcode::OPADD => -1,
            Opcode::OPSUBTRACT => -1,
            Opcode::OPMULTIPLY => -1,
            Opcode::OPDIVIDE => -1,
            Opcode::OPRETURN => -1,
            Opcode::OPNIL => 1,
            Opcode::OPTRUE => 1,
            Opcode::OPFALSE => 1,
            Opcode::OPNOT => 0,
            Opcode::OPEQUAL => -1,
            Opcode::OPLT => -1,
            Opcode::OPGT => -1,
            Opcode::OPLTE => -1,
            Opcode::OPGTE => -1,
            Opcode::OPLEN => 0,
            Opcode::OPPRINT => 0,
            Opcode::OPPOP => -1,
            Opcode::OPDEF => -1,
            Opcode::OPDEFSYM => 1,
            Opcode::OPSYM => 1,
            Opcode::OPJMPIFFALSE => -1,
            Opcode::OPJMP => 0,
        }
    }

    /// The byte that stands for the instruction.
    pub fn to_u8(&self) -> (byte: u8)
        ensures
            byte == self.ordinal(),
            byte < OPCODES,
    {
        match self {
            Opcode::OPCONSTANT => 0,
            Opcode::OPNEGATE => 1,
            Opcode::OPADD => 2,
            Opcode::OPSUBTRACT => 3,
            Opcode::OPMULTIPLY => 4,
            Opcode::OPDIVIDE => 5,
            Opcode::OPRETURN => 6,
            Opcode::OPNIL => 7,
            Opcode::OPTRUE => 8,
            Opcode::OPFALSE => 9,
            Opcode::OPNOT => 10,
            Opcode::OPEQUAL => 11,
            Opcode::OPLT => 12,
            Opcode::OPGT => 13,
            Opcode::OPLTE => 14,
            Opcode::OPGTE => 15,
            Opcode::OPLEN => 16,
            Opcode::OPPRINT => 17,
            Opcode::OPPOP => 18,
            Opcode::OPDEF => 19,
            Opcode::OPDEFSYM => 20,
            Opcode::OPSYM => 21,
            Opcode::OPJMPIFFALSE => 22,
            Opcode::OPJMP => 23,
        }
    }

    /// The instruction that `byte` stands for, if it stands for one.
    pub fn from_u8(byte: u8) -> (op: Option<Opcode>)
        ensures
            op == decode(byte),
    {
        match byte {
            0 => Some(Opcode::OPCONSTANT),
            1 => Some(Opcode::OPNEGATE),
            2 => Some(Opcode::OPADD),
            3 => Some(Opcode::OPSUBTRACT),
            4 => Some(Opcode::OPMULTIPLY),
            5 => Some(Opcode::OPDIVIDE),
            6 => Some(Opcode::OPRETURN),
            7 => Some(Opcode::OPNIL),
            8 => Some(Opcode::OPTRUE),
            9 => Some(Opcode::OPFALSE),
            10 => Some(Opcode::OPNOT),
            11 => Some(Opcode::OPEQUAL),
            12 => Some(Opcode::OPLT),
            13 => Some(Opcode::OPGT),
            14 => Some(Opcode::OPLTE),
            15 => Some(Opcode::OPGTE),
            16 => Some(Opcode::OPLEN),
            17 => Some(Opcode::OPPRINT),
            18 => Some(Opcode::OPPOP),
            19 => Some(Opcode::OPDEF),
            20 => Some(Opcode::OPDEFSYM),
            21 => Some(Opcode::OPSYM),
            22 => Some(Opcode::OPJMPIFFALSE),
            23 => Some(Opcode::OPJMP),
            _ => None,
        }
    }

    /// How many operand bytes follow the instruction.
    pub fn operand_bytes(&self) -> (width: usize)
        ensures
            width == self.operand_width(),
    {
        match self {
            Opcode::OPCONSTANT | Opcode::OPDEFSYM | Opcode::OPSYM | Opcode::OPJMPIFFALSE
            | Opcode::OPJMP => 1,
            _ => 0,
        }
    }
}

/// The instruction that `byte` stands for, if it stands for one.
pub open spec fn decode(byte: u8) -> Option<Opcode> {
    match byte {
        0 => Some(Opcode::OPCONSTANT),
        1 => Some(Opcode::OPNEGATE),
        2 => Some(Opcode::OPADD),
        3 => Some(Opcode::OPSUBTRACT),
        4 => Some(Opcode::OPMULTIPLY),
        5 => Some(Opcode::OPDIVIDE),
        6 => Some(Opcode::OPRETURN),
        7 => Some(Opcode::OPNIL),
        8 => Some(Opcode::OPTRUE),
        9 => Some(Opcode::OPFALSE),
        10 => Some(Opcode::OPNOT),
        11 => Some(Opcode::OPEQUAL),
        12 => Some(Opcode::OPLT),
        13 => Some(Opcode::OPGT),
        14 => Some(Opcode::OPLTE),
        15 => Some(Opcode::OPGTE),
        16 => Some(Opcode::OPLEN),
        17 => Some(Opcode::OPPRINT),
        18 => Some(Opcode::OPPOP),
        19 => Some(Opcode::OPDEF),
        20 => Some(Opcode::OPDEFSYM),
        21 => Some(Opcode::OPSYM),
        22 => Some(Opcode::OPJMPIFFALSE),
        23 => Some(Opcode::OPJMP),
        _ => None,
    }
}

/// A byte decodes to an instruction exactly if it is that instruction's
/// number.
pub proof fn lemma_decode_ordinal(op: Opcode, byte: u8)
    ensures
        decode(byte) == Some(op) <==> byte == op.ordinal(),
        decode(byte).is_some() <==> byte < OPCODES,
{
}

/// A compiled unit: the code, for each byte of the code the source line that
/// gave rise to it, and the constants that the code refers to.
#[derive(Debug)]
pub struct Chunk {
    pub code: Vec<u8>,
    pub lines: Vec<u16>,
    pub constants: Values,
}

impl Chunk {
    /// Every byte of the code has its line.
    pub open spec fn well_formed(&self) -> bool {
        self.code@.len() == self.lines@.len()
    }

    /// The constants of the chunk.
    pub open spec fn pool(&self) -> Seq<Constant> {
        self.constants.deep_view()
    }
}

/// A chunk with no code and no constants.
pub fn init_chunk() -> (chunk: Chunk)
    ensures
        chunk.code@ == Seq::<u8>::empty(),
        chunk.lines@ == Seq::<u16>::empty(),
        chunk.pool() == Seq::<Constant>::empty(),
        chunk.well_formed(),
{
    Chunk { code: Vec::new(), lines: Vec::new(), constants: init_values() }
}

impl Chunk {
    /// Adds `byte` at the end of the code, and `line` as its line.
    pub fn write_chunk(&mut self, byte: u8, line: u16)
        ensures
            final(self).code@ == old(self).code@.push(byte),
            final(self).lines@ == old(self).lines@.push(line),
            final(self).constants == old(self).constants,
            old(self).well_formed() ==> final(self).well_formed(),
    {
        self.code.push(byte);
        self.lines.push(line);
    }

    /// Adds `value` at the end of the constant pool and returns its index.
    pub fn add_constant(&mut self, value: ConstantType) -> (index: usize)
        ensures
            index == old(self).pool().len(),
            final(self).pool() == old(self).pool().push(value.deep_view()),
            final(self).code == old(self).code,
            final(self).lines == old(self).lines,
    {
        self.constants.write_values(value)
    }
}

} // verus!
