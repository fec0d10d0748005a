use vstd::prelude::*;
use crate::chunk::Opcode;
use crate::token::{Token, TokenType};
use crate::tree::Ast;
use crate::value::Constant;

verus! {

/// What the code generator has produced so far: the code, the line of each
/// byte of it, the constants, and whether it has met an error.
pub struct Output {
    pub code: Seq<u8>,
    pub lines: Seq<u16>,
    pub pool: Seq<Constant>,
    pub failed: bool,
}

/// The most constants that a chunk can hold: an index into the pool is one
/// byte.
pub const MAX_CONSTANTS: usize = 256;

/// The last position in the code that a jump can name: a jump target is one
/// byte.
pub const MAX_TARGET: usize = 255;

/// The output with one more byte of code, which came from the line `line`.
pub open spec fn put(out: Output, byte: u8, line: u16) -> Output {
    Output { code: out.code.push(byte), lines: out.lines.push(line), ..out }
}

/// The output with an instruction that takes no operand.
pub open spec fn put_op(out: Output, op: Opcode, line: u16) -> Output {
    put(out, op.ordinal() as u8, line)
}

/// The output with an instruction and its operand.
pub open spec fn put_pair(out: Output, op: Opcode, operand: u8, line: u16) -> Output {
    put(put(out, op.ordinal() as u8, line), operand, line)
}

/// The output after an error.
pub open spec fn fail(out: Output) -> Output {
    Output { failed: true, ..out }
}

/// The output with one more constant and the instruction `op` that names
/// it. Where the pool is full this is an error, and nothing is added.
pub open spec fn load(out: Output, constant: Constant, op: Opcode, line: u16) -> Output {
    if out.pool.len() < MAX_CONSTANTS {
        put_pair(
            Output { pool: out.pool.push(constant), ..out },
            op,
            out.pool.len() as u8,
            line,
        )
    } else {
        fail(out)
    }
}

/// The output with the operand at `at` set to the position at which the
/// code now ends. Where that position is more than one byte can name this is
/// an error, and the operand stays as it is.
pub open spec fn patch(out: Output, at: int) -> Output {
    if out.code.len() <= MAX_TARGET && 0 <= at < out.code.len() {
        Output { code: out.code.update(at, out.code.len() as u8), ..out }
    } else {
        fail(out)
    }
}

/// The bytes of the source from `start` on, `length` of them, where the
/// source holds them.
pub open spec fn text(src: Seq<u8>, start: int, length: int) -> Option<Seq<u8>> {
    if 0 <= start && 0 <= length && start + length <= src.len() {
        Some(src.subrange(start, start + length))
    } else {
        None
    }
}

/// The bytes of the source that the token spans.
pub open spec fn lexeme(src: Seq<u8>, token: Token) -> Option<Seq<u8>> {
    text(src, token.start as int, token.length as int)
}

/// The bytes of the source that a string token spans, without the quote at
/// either end.
pub open spec fn quoted(src: Seq<u8>, token: Token) -> Option<Seq<u8>> {
    if token.length >= 2 {
        text(src, token.start + 1, token.length - 2)
    } else {
        None
    }
}

/// Whether the byte is a decimal digit.
pub open spec fn is_decimal(b: u8) -> bool {
    48 <= b <= 57
}

/// The value of a decimal digit.
pub open spec fn digit_value(b: u8) -> nat {
    if is_decimal(b) {
        (b - 48) as nat
    } else {
        0
    }
}

/// The number that a run of decimal digits denotes.
pub open spec fn decimal(digits: Seq<u8>) -> nat
    decreases digits.len(),
{
    if digits.len() == 0 {
        0
    } else {
        decimal(digits.drop_last()) * 10 + digit_value(digits.last())
    }
}

/// The integer that the bytes denote: they are decimal digits, at least
/// one, and the number is an `i64`.
pub open spec fn int_value(digits: Seq<u8>) -> Option<i64> {
    if digits.len() > 0 && (forall|i: int|
        0 <= i < digits.len() ==> is_decimal(#[trigger] digits[i]))
        && decimal(digits) <= i64::MAX {
        Some(decimal(digits) as i64)
    } else {
        None
    }
}

/// The instruction that pushes the literal of the given kind.
pub open spec fn literal_op(kind: TokenType) -> Option<Opcode> {
    match kind {
        TokenType::NIL => Some(Opcode::OPNIL),
        TokenType::TRUE => Some(Opcode::OPTRUE),
        TokenType::FALSE => Some(Opcode::OPFALSE),
        _ => None,
    }
}

/// The instruction that the operator of the given kind stands for.
pub open spec fn operator_op(kind: TokenType) -> Option<Opcode> {
    match kind {
        TokenType::PLUS => Some(Opcode::OPADD),
        TokenType::MINUS => Some(Opcode::OPSUBTRACT),
        TokenType::STAR => Some(Opcode::OPMULTIPLY),
        TokenType::SLASH => Some(Opcode::OPDIVIDE),
        TokenType::NOT => Some(Opcode::OPNOT),
        TokenType::EQUAL => Some(Opcode::OPEQUAL),
        TokenType::LESS => Some(Opcode::OPLT),
        TokenType::GREATER => Some(Opcode::OPGT),
        TokenType::LESSEQUAL => Some(Opcode::OPLTE),
        TokenType::GREATEREQUAL => Some(Opcode::OPGTE),
        TokenType::LEN => Some(Opcode::OPLEN),
        TokenType::PRINT => Some(Opcode::OPPRINT),
        TokenType::DEF => Some(Opcode::OPDEF),
        _ => None,
    }
}

/// Whether the operator of the given kind works on two operands: the four
/// of arithmetic, the four that order two numbers, and `=`.
pub open spec fn takes_two(kind: TokenType) -> bool {
    kind == TokenType::PLUS || kind == TokenType::MINUS || kind == TokenType::STAR || kind
        == TokenType::SLASH || kind == TokenType::EQUAL || kind == TokenType::LESS || kind
        == TokenType::GREATER || kind == TokenType::LESSEQUAL || kind == TokenType::GREATEREQUAL
}

/// The output with the constant that the token denotes and the instruction
/// that names it, where the token denotes a constant: a number, a string or
/// an identifier. It is an error where the source does not hold the token or
/// an integer is out of range.
pub open spec fn constant_of(src: Seq<u8>, token: Token) -> Option<(Constant, Opcode)> {
    match token.typ {
        TokenType::FLOAT => match lexeme(src, token) {
            Some(t) => Some((Constant::Float(t), Opcode::OPCONSTANT)),
            None => None,
        },
        TokenType::INT => match lexeme(src, token) {
            Some(t) => match int_value(t) {
                Some(n) => Some((Constant::Int(n), Opcode::OPCONSTANT)),
                None => None,
            },
            None => None,
        },
        TokenType::STRING => match quoted(src, token) {
            Some(t) => Some((Constant::Str(t), Opcode::OPCONSTANT)),
            None => None,
        },
        TokenType::IDENTIFIER => match lexeme(src, token) {
            Some(t) => Some((Constant::Symbol(t), Opcode::OPSYM)),
            None => None,
        },
        _ => None,
    }
}

/// Whether a token of the kind denotes a constant.
pub open spec fn is_constant_kind(kind: TokenType) -> bool {
    kind == TokenType::FLOAT || kind == TokenType::INT || kind == TokenType::STRING || kind
        == TokenType::IDENTIFIER
}

/// The output with the code for a token that stands alone: a literal or an
/// operator gives its instruction, a constant goes to the pool and gives the
/// instruction that names it, and any other token gives nothing.
pub open spec fn emit_leaf(out: Output, src: Seq<u8>, token: Token) -> Output {
    if literal_op(token.typ).is_some() {
        put_op(out, literal_op(token.typ).unwrap(), token.line)
    } else if operator_op(token.typ).is_some() {
        put_op(out, operator_op(token.typ).unwrap(), token.line)
    } else if is_constant_kind(token.typ) {
        match constant_of(src, token) {
            Some((constant, op)) => load(out, constant, op, token.line),
            None => fail(out),
        }
    } else {
        out
    }
}

/// How far the token of a node is from the end of the tokens. The tokens of
/// the children of a node come after the node's own, so this is less for a
/// child than for its parent.
pub open spec fn height(ast: &Ast, id: usize) -> int {
    ast.tokens@.len() - ast.datum(id)
}

/// The output with the code for the expression at the node `id`.
///
/// A token that stands alone gives what [`emit_leaf`] says. A list gives
/// the code of its form, which its head decides:
///
/// - `(if c t e)`: the code for `c`; a jump taken where `c` is falsey; the
///   code for `t`; a jump; the code for `e`, or where there is no `e` the
///   instruction that pushes nil. The first jump leads to the code for `e` and
///   the second behind it; each is emitted with the operand 0 and patched
///   when its target is known. The jumps and the nil carry the line of the
///   opening parenthesis.
/// - `(def name value)`: the name as a symbol constant with the instruction
///   that pushes it, the code for `value`, and the code for `def`.
/// - any other list: the code for each expression after the head, in order,
///   and then the code for the head.
///
/// An empty list, an `if` with fewer than two or more than three
/// expressions after it, a `def` that is not followed by an identifier and
/// one expression, and an operator on two operands that is not followed by
/// two expressions, are errors and give no code.
pub open spec fn gen(ast: &Ast, src: Seq<u8>, id: usize, out: Output) -> Output
    decreases height(ast, id), ast.children(id).len() + 1,
{
    if !(ast.wf() && ast.has(id)) {
        out
    } else if ast.kind(id) != TokenType::LEFTPAREN {
        emit_leaf(out, src, ast.token(id))
    } else {
        let kids = ast.children(id);
        let line = ast.token(id).line;
        if kids.len() == 0 {
            fail(out)
        } else if ast.kind(kids[0]) == TokenType::IF {
            if kids.len() == 3 || kids.len() == 4 {
                proof {
                    assert(ast.child_follows(id, 1));
                    assert(ast.child_follows(id, 2));
                    if kids.len() == 4 {
                        assert(ast.child_follows(id, 3));
                    }
                }
                let tested = put_pair(gen(ast, src, kids[1], out), Opcode::OPJMPIFFALSE, 0, line);
                let first = tested.code.len() - 1;
                let taken = put_pair(gen(ast, src, kids[2], tested), Opcode::OPJMP, 0, line);
                let second = taken.code.len() - 1;
                let before_else = patch(taken, first);
                let after_else = if kids.len() == 4 {
                    gen(ast, src, kids[3], before_else)
                } else {
                    put_op(before_else, Opcode::OPNIL, line)
                };
                patch(after_else, second)
            } else {
                fail(out)
            }
        } else if ast.kind(kids[0]) == TokenType::DEF {
            if kids.len() == 3 && ast.kind(kids[1]) == TokenType::IDENTIFIER && lexeme(
                src,
                ast.token(kids[1]),
            ).is_some() {
                proof {
                    assert(ast.child_follows(id, 0));
                    assert(ast.child_follows(id, 2));
                }
                let named = load(
                    out,
                    Constant::Symbol(lexeme(src, ast.token(kids[1])).unwrap()),
                    Opcode::OPDEFSYM,
                    ast.token(kids[1]).line,
                );
                gen(ast, src, kids[0], gen(ast, src, kids[2], named))
            } else {
                fail(out)
            }
        } else if takes_two(ast.kind(kids[0])) && kids.len() != 3 {
            fail(out)
        } else {
            proof {
                assert(ast.child_follows(id, 0));
            }
            gen(ast, src, kids[0], gen_rest(ast, src, id, 1, out))
        }
    }
}

/// The output with the code for the children of the node `id` from the
/// `k`th on, in order.
pub open spec fn gen_rest(ast: &Ast, src: Seq<u8>, id: usize, k: int, out: Output) -> Output
    decreases height(ast, id), ast.children(id).len() - k,
{
    if !(ast.wf() && ast.has(id)) || k < 0 || k >= ast.children(id).len() {
        out
    } else {
        proof {
            assert(ast.child_follows(id, k));
        }
        gen_rest(ast, src, id, k + 1, gen(ast, src, ast.children(id)[k], out))
    }
}

/// The output with the code for the expressions at the top of the tree from
/// the `k`th on: the code for each, an instruction that drops its value
/// where another expression follows, and at the end the instruction that
/// returns. The instructions between and after the expressions carry the
/// line 0.
pub open spec fn gen_top(ast: &Ast, src: Seq<u8>, k: int, out: Output) -> Output
    decreases ast.children(ast.root).len() - k,
{
    let kids = ast.children(ast.root);
    if k < 0 || k >= kids.len() {
        put_op(out, Opcode::OPRETURN, 0)
    } else {
        let one = gen(ast, src, kids[k], out);
        gen_top(
            ast,
            src,
            k + 1,
            if k + 1 < kids.len() {
                put_op(one, Opcode::OPPOP, 0)
            } else {
                one
            },
        )
    }
}

/// The output with the code for the whole tree.
pub open spec fn program(ast: &Ast, src: Seq<u8>, out: Output) -> Output {
    gen_top(ast, src, 0, out)
}

} // verus!
