use vstd::prelude::*;
use crate::chunk::{decode, Chunk, Opcode};

verus! {

/// One instruction of a chunk as a listing shows it.
#[derive(Debug, Clone, Copy, PartialEq, Eq, Structural)]
pub struct Instruction {
    /// Where the instruction starts.
    pub offset: usize,
    /// The line that the instruction came from.
    pub line: u16,
    /// Whether the byte before the instruction came from the same line.
    pub same_line: bool,
    /// The instruction, or `None` for a byte that stands for none.
    pub op: Option<Opcode>,
    /// The operand, where the instruction has one and the code holds it.
    pub operand: Option<u8>,
    /// Where the next instruction starts.
    pub next: usize,
}

/// The instruction that starts at `offset` as a listing shows it. A byte
/// that stands for no instruction, and an instruction whose operand the code
/// does not hold, are shown as one byte.
pub open spec fn shown(code: Seq<u8>, lines: Seq<u16>, offset: int) -> Instruction {
    let op = decode(code[offset]);
    let wide = op.is_some() && op.unwrap().operand_width() == 1 && offset + 1 < code.len();
    Instruction {
        offset: offset as usize,
        line: lines[offset],
        same_line: offset > 0 && lines[offset] == lines[offset - 1],
        op,
        operand: if wide {
            Some(code[offset + 1])
        } else {
            None
        },
        next: if wide {
            (offset + 2) as usize
        } else {
            (offset + 1) as usize
        },
    }
}

/// The instructions of the code from `offset` on, as a listing shows them.
pub open spec fn listing(code: Seq<u8>, lines: Seq<u16>, offset: int) -> Seq<Instruction>
    decreases code.len() - offset,
{
    if 0 <= offset < code.len() && code.len() <= usize::MAX {
        seq![shown(code, lines, offset)] + listing(
            code,
            lines,
            shown(code, lines, offset).next as int,
        )
    } else {
        Seq::empty()
    }
}

/// The name of an instruction in a listing.
pub open spec fn name_of(op: Option<Opcode>) -> Seq<char> {
    match op {
        Some(Opcode::OPCONSTANT) => "OP_CONSTANT"@,
        Some(Opcode::OPNEGATE) => "OP_NEGATE"@,
        Some(Opcode::OPADD) => "OP_ADD"@,
        Some(Opcode::OPSUBTRACT) => "OP_SUBTRACT"@,
        Some(Opcode::OPMULTIPLY) => "OP_MULTIPLY"@,
        Some(Opcode::OPDIVIDE) => "OP_DIVIDE"@,
        Some(Opcode::OPRETURN) => "OP_RETURN"@,
        Some(Opcode::OPNIL) => "OP_NIL"@,
        Some(Opcode::OPTRUE) => "OP_TRUE"@,
        Some(Opcode::OPFALSE) => "OP_FALSE"@,
        Some(Opcode::OPNOT) => "OP_NOT"@,
        Some(Opcode::OPEQUAL) => "OP_EQUAL"@,
        Some(Opcode::OPLT) => "OP_LT"@,
        Some(Opcode::OPGT) => "OP_GT"@,
        Some(Opcode::OPLTE) => "OP_LTE"@,
        Some(Opcode::OPGTE) => "OP_GTE"@,
        Some(Opcode::OPLEN) => "OP_LEN"@,
        Some(Opcode::OPPRINT) => "OP_PRINT"@,
        Some(Opcode::OPPOP) => "OP_POP"@,
        Some(Opcode::OPDEF) => "OP_DEF"@,
        Some(Opcode::OPDEFSYM) => "OP_DEFSYM"@,
        Some(Opcode::OPSYM) => "OP_SYM"@,
        Some(Opcode::OPJMPIFFALSE) => "OP_JMPIFFALSE"@,
        Some(Opcode::OPJMP) => "OP_JMP"@,
        None => "UNKNOWN OPCODE"@,
    }
}

/// The name of an instruction in a listing.
pub fn opcode_name(op: Option<Opcode>) -> (name: &'static str)
    ensures
        name@ == name_of(op),
{
    match op {
        Some(Opcode::OPCONSTANT) => "OP_CONSTANT",
        Some(Opcode::OPNEGATE) => "OP_NEGATE",
        Some(Opcode::OPADD) => "OP_ADD",
        Some(Opcode::OPSUBTRACT) => "OP_SUBTRACT",
        Some(Opcode::OPMULTIPLY) => "OP_MULTIPLY",
        Some(Opcode::OPDIVIDE) => "OP_DIVIDE",
        Some(Opcode::OPRETURN) => "OP_RETURN",
        Some(Opcode::OPNIL) => "OP_NIL",
        Some(Opcode::OPTRUE) => "OP_TRUE",
        Some(Opcode::OPFALSE) => "OP_FALSE",
        Some(Opcode::OPNOT) => "OP_NOT",
        Some(Opcode::OPEQUAL) => "OP_EQUAL",
        Some(Opcode::OPLT) => "OP_LT",
        Some(Opcode::OPGT) => "OP_GT",
        Some(Opcode::OPLTE) => "OP_LTE",
        Some(Opcode::OPGTE) => "OP_GTE",
        Some(Opcode::OPLEN) => "OP_LEN",
        Some(Opcode::OPPRINT) => "OP_PRINT",
        Some(Opcode::OPPOP) => "OP_POP",
        Some(Opcode::OPDEF) => "OP_DEF",
        Some(Opcode::OPDEFSYM) => "OP_DEFSYM",
        Some(Opcode::OPSYM) => "OP_SYM",
        Some(Opcode::OPJMPIFFALSE) => "OP_JMPIFFALSE",
        Some(Opcode::OPJMP) => "OP_JMP",
        None => "UNKNOWN OPCODE",
    }
}

/// The instruction that starts at `offset` as a listing shows it; see
/// [`shown`].
pub fn disassemble_instruction(chunk: &Chunk, offset: usize) -> (instruction: Instruction)
    requires
        chunk.well_formed(),
        offset < chunk.code@.len(),
    ensures
        instruction == shown(chunk.code@, chunk.lines@, offset as int),
        offset < instruction.next <= chunk.code@.len(),
{
    assert(offset < chunk.code.len());
    let op = Opcode::from_u8(chunk.code[offset]);
    let wide = match op {
        Some(o) => o.operand_bytes() == 1 && chunk.code.len() - offset > 1,
        None => false,
    };
    Instruction {
        offset,
        line: chunk.lines[offset],
        same_line: offset > 0 && chunk.lines[offset] == chunk.lines[offset - 1],
        op,
        operand: if wide {
            Some(chunk.code[offset + 1])
        } else {
            None
        },
        next: if wide {
            offset + 2
        } else {
            offset + 1
        },
    }
}

/// The instructions of a chunk as a listing shows them; see [`listing`].
pub fn disassemble_chunk(chunk: &Chunk) -> (instructions: Vec<Instruction>)
    requires
        chunk.well_formed(),
    ensures
        instructions@ == listing(chunk.code@, chunk.lines@, 0),
{
    let mut instructions: Vec<Instruction> = Vec::new();
    let mut offset: usize = 0;
    while offset < chunk.code.len()
        invariant
            chunk.well_formed(),
            offset <= chunk.code@.len(),
            instructions@ + listing(chunk.code@, chunk.lines@, offset as int) == listing(
                chunk.code@,
                chunk.lines@,
                0,
            ),
        decreases chunk.code@.len() - offset,
    {
        let instruction = disassemble_instruction(chunk, offset);
        let ghost rest = listing(chunk.code@, chunk.lines@, instruction.next as int);
        proof {
            assert(instructions@.push(instruction) + rest =~= instructions@ + (seq![instruction]
                + rest));
        }
        instructions.push(instruction);
        offset = instruction.next;
    }
    proof {
        assert(instructions@ + Seq::<Instruction>::empty() =~= instructions@);
    }
    instructions
}

} // verus!
