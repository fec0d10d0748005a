use vstd::prelude::*;
use crate::chunk::{decode, lemma_decode_ordinal, Opcode};
use crate::codegen::{
    constant_of, emit_leaf, gen, gen_rest, gen_top, height, is_constant_kind, lexeme, literal_op,
    load, operator_op, patch, program, put_op, put_pair, takes_two, Output, MAX_CONSTANTS,
    MAX_TARGET,
};
use crate::encoding::{
    encoded, lemma_encoded_append, lemma_encoded_patch, lemma_encoded_widens, lemma_patch_reaches,
    lemma_reaches_prefix, starts,
};
use crate::token::{Token, TokenType};
use crate::tree::Ast;
use crate::value::Constant;

verus! {

/// Whether what the generator has produced is sound while it is at work:
/// every byte of the code has its line, the code is a run of instructions,
/// every operand that names a constant names one of the pool, and every jump
/// leads to a position in the code or to its end.
pub open spec fn coded(out: Output) -> bool {
    &&& out.code.len() == out.lines.len()
    &&& encoded(out.code, out.pool.len(), out.code.len() as int)
}

/// Whether what the generator has produced is sound and complete: it is as
/// [`coded`] says, every jump leads to a position in the code, and the last
/// instruction is the one that returns.
pub open spec fn sealed(out: Output) -> bool {
    &&& out.code.len() == out.lines.len()
    &&& out.code.len() > 0
    &&& encoded(out.code, out.pool.len(), out.code.len() - 1)
    &&& starts(out.code, out.code.len() - 1)
    &&& out.code.last() == Opcode::OPRETURN.ordinal()
}

/// Whether `after` holds what `before` held, where it was: the code and the
/// lines of `before` are the beginning of those of `after`, and so are the
/// constants.
pub open spec fn keeps(before: Output, after: Output) -> bool {
    &&& before.code.len() <= after.code.len()
    &&& forall|i: int| 0 <= i < before.code.len() ==> after.code[i] == before.code[i]
    &&& before.pool.len() <= after.pool.len()
    &&& forall|i: int| 0 <= i < before.pool.len() ==> after.pool[i] == before.pool[i]
}

/// To keep what was held is transitive.
pub proof fn lemma_keeps_on(a: Output, b: Output, c: Output)
    requires
        keeps(a, b),
        keeps(b, c),
    ensures
        keeps(a, c),
{
}

/// An instruction that started in the code before starts in the code after,
/// where the code after keeps the code before.
pub proof fn lemma_start_kept(before: Output, after: Output, at: int)
    requires
        keeps(before, after),
        at <= before.code.len(),
        starts(before.code, at),
    ensures
        starts(after.code, at),
{
    lemma_reaches_prefix(before.code, after.code, 0, at);
}

/// An instruction without operand keeps sound what was produced.
pub proof fn lemma_put_op(out: Output, op: Opcode, line: u16)
    requires
        coded(out),
        op.operand_width() == 0,
    ensures
        coded(put_op(out, op, line)),
        keeps(out, put_op(out, op, line)),
        starts(put_op(out, op, line).code, out.code.len() as int),
{
    let byte = op.ordinal() as u8;
    lemma_decode_ordinal(op, byte);
    let more = seq![byte];
    assert(put_op(out, op, line).code =~= out.code + more);
    lemma_encoded_widens(
        out.code,
        out.pool.len(),
        out.code.len() as int,
        out.pool.len(),
        (out.code.len() + 1) as int,
    );
    lemma_encoded_append(out.code, more, out.pool.len(), (out.code.len() + 1) as int);
    lemma_reaches_prefix(out.code, out.code + more, 0, out.code.len() as int);
}

/// A jump with the operand 0 keeps sound what was produced. The jump starts
/// where the code ended.
pub proof fn lemma_put_jump(out: Output, op: Opcode, line: u16)
    requires
        coded(out),
        op.names_target(),
    ensures
        coded(put_pair(out, op, 0, line)),
        keeps(out, put_pair(out, op, 0, line)),
        starts(put_pair(out, op, 0, line).code, out.code.len() as int),
        put_pair(out, op, 0, line).code.len() == out.code.len() + 2,
        decode(put_pair(out, op, 0, line).code[out.code.len() as int]) == Some(op),
{
    let byte = op.ordinal() as u8;
    lemma_decode_ordinal(op, byte);
    let more = seq![byte, 0u8];
    assert(put_pair(out, op, 0, line).code =~= out.code + more);
    lemma_encoded_widens(
        out.code,
        out.pool.len(),
        out.code.len() as int,
        out.pool.len(),
        (out.code.len() + 2) as int,
    );
    lemma_encoded_append(out.code, more, out.pool.len(), (out.code.len() + 2) as int);
    lemma_reaches_prefix(out.code, out.code + more, 0, out.code.len() as int);
}

/// A constant and the instruction that names it keep sound what was
/// produced.
pub proof fn lemma_load(out: Output, constant: Constant, op: Opcode, line: u16)
    requires
        coded(out),
        op.names_constant(),
    ensures
        coded(load(out, constant, op, line)),
        keeps(out, load(out, constant, op, line)),
{
    if out.pool.len() < MAX_CONSTANTS {
        let byte = op.ordinal() as u8;
        lemma_decode_ordinal(op, byte);
        let operand = out.pool.len() as u8;
        let more = seq![byte, operand];
        let after = load(out, constant, op, line);
        assert(after.code =~= out.code + more);
        lemma_encoded_widens(
            out.code,
            out.pool.len(),
            out.code.len() as int,
            after.pool.len(),
            (out.code.len() + 2) as int,
        );
        lemma_encoded_append(out.code, more, after.pool.len(), (out.code.len() + 2) as int);
    }
}

/// To set the operand of a jump to the end of the code keeps sound what
/// was produced, and changes neither where instructions start nor any byte
/// but the operand.
pub proof fn lemma_patch(out: Output, at: int)
    requires
        coded(out),
        0 < at < out.code.len(),
        starts(out.code, at - 1),
        decode(out.code[at - 1]) matches Some(op) && op.names_target(),
    ensures
        coded(patch(out, at)),
        patch(out, at).code.len() == out.code.len(),
        patch(out, at).pool == out.pool,
        forall|i: int| 0 <= i < out.code.len() && i != at ==> patch(out, at).code[i] == out.code[i],
        forall|x: int| starts(patch(out, at).code, x) == starts(out.code, x),
{
    if out.code.len() <= MAX_TARGET {
        let target = out.code.len() as u8;
        lemma_encoded_patch(out.code, at, target, out.pool.len(), out.code.len() as int);
        assert forall|x: int| starts(patch(out, at).code, x) == starts(out.code, x) by {
            lemma_patch_reaches(out.code, at, target, 0, x);
        }
    }
}

/// The code for a token that stands alone keeps sound what was produced.
pub proof fn lemma_emit_leaf(out: Output, src: Seq<u8>, token: Token)
    requires
        coded(out),
    ensures
        coded(emit_leaf(out, src, token)),
        keeps(out, emit_leaf(out, src, token)),
{
    if literal_op(token.typ).is_some() {
        lemma_put_op(out, literal_op(token.typ).unwrap(), token.line);
    } else if operator_op(token.typ).is_some() {
        lemma_put_op(out, operator_op(token.typ).unwrap(), token.line);
    } else if is_constant_kind(token.typ) {
        match constant_of(src, token) {
            Some((constant, op)) => {
                lemma_load(out, constant, op, token.line);
            },
            None => {},
        }
    }
}

/// The code for an expression keeps sound what was produced.
pub proof fn lemma_gen(ast: &Ast, src: Seq<u8>, id: usize, out: Output)
    requires
        coded(out),
    ensures
        coded(gen(ast, src, id, out)),
        keeps(out, gen(ast, src, id, out)),
    decreases height(ast, id), ast.children(id).len() + 1,
{
    if !(ast.wf() && ast.has(id)) {
    } else if ast.kind(id) != TokenType::LEFTPAREN {
        lemma_emit_leaf(out, src, ast.token(id));
    } else {
        let kids = ast.children(id);
        let line = ast.token(id).line;
        if kids.len() == 0 {
        } else if ast.kind(kids[0]) == TokenType::IF {
            if kids.len() == 3 || kids.len() == 4 {
                assert(ast.child_follows(id, 1));
                assert(ast.child_follows(id, 2));
                if kids.len() == 4 {
                    assert(ast.child_follows(id, 3));
                }
                let cond = gen(ast, src, kids[1], out);
                lemma_gen(ast, src, kids[1], out);
                let tested = put_pair(cond, Opcode::OPJMPIFFALSE, 0, line);
                lemma_put_jump(cond, Opcode::OPJMPIFFALSE, line);
                let first = tested.code.len() - 1;
                let then = gen(ast, src, kids[2], tested);
                lemma_gen(ast, src, kids[2], tested);
                lemma_start_kept(tested, then, first - 1);
                let taken = put_pair(then, Opcode::OPJMP, 0, line);
                lemma_put_jump(then, Opcode::OPJMP, line);
                let second = taken.code.len() - 1;
                lemma_start_kept(then, taken, first - 1);
                let before_else = patch(taken, first);
                lemma_patch(taken, first);
                assert(starts(before_else.code, second - 1));
                let after_else = if kids.len() == 4 {
                    gen(ast, src, kids[3], before_else)
                } else {
                    put_op(before_else, Opcode::OPNIL, line)
                };
                if kids.len() == 4 {
                    lemma_gen(ast, src, kids[3], before_else);
                } else {
                    lemma_put_op(before_else, Opcode::OPNIL, line);
                }
                lemma_start_kept(before_else, after_else, second - 1);
                lemma_patch(after_else, second);
                let done = patch(after_else, second);
                assert(keeps(out, done)) by {
                    assert forall|i: int| 0 <= i < out.code.len() implies done.code[i]
                        == out.code[i] by {
                        assert(cond.code[i] == out.code[i]);
                        assert(tested.code[i] == cond.code[i]);
                        assert(then.code[i] == tested.code[i]);
                        assert(taken.code[i] == then.code[i]);
                        assert(before_else.code[i] == taken.code[i]);
                        assert(after_else.code[i] == before_else.code[i]);
                    }
                    assert forall|i: int| 0 <= i < out.pool.len() implies done.pool[i]
                        == out.pool[i] by {
                        assert(cond.pool[i] == out.pool[i]);
                        assert(then.pool[i] == tested.pool[i]);
                        assert(after_else.pool[i] == before_else.pool[i]);
                    }
                }
            }
        } else if ast.kind(kids[0]) == TokenType::DEF {
            if kids.len() == 3 && ast.kind(kids[1]) == TokenType::IDENTIFIER && lexeme(
                src,
                ast.token(kids[1]),
            ).is_some() {
                assert(ast.child_follows(id, 0));
                assert(ast.child_follows(id, 2));
                let named = load(
                    out,
                    Constant::Symbol(lexeme(src, ast.token(kids[1])).unwrap()),
                    Opcode::OPDEFSYM,
                    ast.token(kids[1]).line,
                );
                lemma_load(
                    out,
                    Constant::Symbol(lexeme(src, ast.token(kids[1])).unwrap()),
                    Opcode::OPDEFSYM,
                    ast.token(kids[1]).line,
                );
                let valued = gen(ast, src, kids[2], named);
                lemma_gen(ast, src, kids[2], named);
                lemma_gen(ast, src, kids[0], valued);
                lemma_keeps_on(out, named, valued);
                lemma_keeps_on(out, valued, gen(ast, src, kids[0], valued));
            }
        } else if takes_two(ast.kind(kids[0])) && kids.len() != 3 {
        } else {
            assert(ast.child_follows(id, 0));
            let rest = gen_rest(ast, src, id, 1, out);
            lemma_gen_rest(ast, src, id, 1, out);
            lemma_gen(ast, src, kids[0], rest);
            lemma_keeps_on(out, rest, gen(ast, src, kids[0], rest));
        }
    }
}

/// The code for the children of a node keeps sound what was produced.
pub proof fn lemma_gen_rest(ast: &Ast, src: Seq<u8>, id: usize, k: int, out: Output)
    requires
        coded(out),
    ensures
        coded(gen_rest(ast, src, id, k, out)),
        keeps(out, gen_rest(ast, src, id, k, out)),
    decreases height(ast, id), ast.children(id).len() - k,
{
    if !(ast.wf() && ast.has(id)) || k < 0 || k >= ast.children(id).len() {
    } else {
        assert(ast.child_follows(id, k));
        let one = gen(ast, src, ast.children(id)[k], out);
        lemma_gen(ast, src, ast.children(id)[k], out);
        lemma_gen_rest(ast, src, id, k + 1, one);
        lemma_keeps_on(out, one, gen_rest(ast, src, id, k + 1, one));
    }
}

/// The code for the expressions at the top of a tree, added to what is
/// sound, is sound and complete.
pub proof fn lemma_gen_top(ast: &Ast, src: Seq<u8>, k: int, out: Output)
    requires
        coded(out),
    ensures
        sealed(gen_top(ast, src, k, out)),
        keeps(out, gen_top(ast, src, k, out)),
    decreases ast.children(ast.root).len() - k,
{
    let kids = ast.children(ast.root);
    if k < 0 || k >= kids.len() {
        lemma_put_op(out, Opcode::OPRETURN, 0);
        let done = put_op(out, Opcode::OPRETURN, 0);
        assert(encoded(done.code, done.pool.len(), done.code.len() - 1)) by {
            let more = seq![Opcode::OPRETURN.ordinal() as u8];
            assert(done.code =~= out.code + more);
            lemma_decode_ordinal(Opcode::OPRETURN, Opcode::OPRETURN.ordinal() as u8);
            lemma_encoded_append(out.code, more, out.pool.len(), out.code.len() as int);
        }
    } else {
        let one = gen(ast, src, kids[k], out);
        lemma_gen(ast, src, kids[k], out);
        let next = if k + 1 < kids.len() {
            put_op(one, Opcode::OPPOP, 0)
        } else {
            one
        };
        if k + 1 < kids.len() {
            lemma_put_op(one, Opcode::OPPOP, 0);
        }
        lemma_gen_top(ast, src, k + 1, next);
        lemma_keeps_on(out, one, next);
        lemma_keeps_on(out, next, gen_top(ast, src, k + 1, next));
    }
}

/// The code for a whole tree, added to what is sound, is sound and
/// complete: every byte of the code has its line, the last instruction is the
/// one that returns, every jump leads to a position in the code, and every
/// operand that names a constant names one of the pool.
pub proof fn lemma_program_sealed(ast: &Ast, src: Seq<u8>, out: Output)
    requires
        coded(out),
    ensures
        sealed(program(ast, src, out)),
        keeps(out, program(ast, src, out)),
{
    lemma_gen_top(ast, src, 0, out);
}

/// What has no code and no lines is sound.
pub proof fn lemma_empty_coded(out: Output)
    requires
        out.code.len() == 0,
        out.lines.len() == 0,
    ensures
        coded(out),
{
}

/// The code for a token that stands alone does not undo an error.
pub proof fn lemma_emit_leaf_failed(out: Output, src: Seq<u8>, token: Token)
    requires
        out.failed,
    ensures
        emit_leaf(out, src, token).failed,
{
}

/// The code for an expression does not undo an error: what had failed
/// before has failed after.
pub proof fn lemma_gen_failed(ast: &Ast, src: Seq<u8>, id: usize, out: Output)
    requires
        out.failed,
    ensures
        gen(ast, src, id, out).failed,
    decreases height(ast, id), ast.children(id).len() + 1,
{
    if !(ast.wf() && ast.has(id)) {
    } else if ast.kind(id) != TokenType::LEFTPAREN {
        lemma_emit_leaf_failed(out, src, ast.token(id));
    } else {
        let kids = ast.children(id);
        let line = ast.token(id).line;
        if kids.len() == 0 {
        } else if ast.kind(kids[0]) == TokenType::IF {
            if kids.len() == 3 || kids.len() == 4 {
                assert(ast.child_follows(id, 1));
                assert(ast.child_follows(id, 2));
                if kids.len() == 4 {
                    assert(ast.child_follows(id, 3));
                }
                lemma_gen_failed(ast, src, kids[1], out);
                let tested = put_pair(gen(ast, src, kids[1], out), Opcode::OPJMPIFFALSE, 0, line);
                lemma_gen_failed(ast, src, kids[2], tested);
                let taken = put_pair(gen(ast, src, kids[2], tested), Opcode::OPJMP, 0, line);
                let before_else = patch(taken, tested.code.len() - 1);
                if kids.len() == 4 {
                    lemma_gen_failed(ast, src, kids[3], before_else);
                }
            }
        } else if ast.kind(kids[0]) == TokenType::DEF {
            if kids.len() == 3 && ast.kind(kids[1]) == TokenType::IDENTIFIER && lexeme(
                src,
                ast.token(kids[1]),
            ).is_some() {
                assert(ast.child_follows(id, 0));
                assert(ast.child_follows(id, 2));
                let named = load(
                    out,
                    Constant::Symbol(lexeme(src, ast.token(kids[1])).unwrap()),
                    Opcode::OPDEFSYM,
                    ast.token(kids[1]).line,
                );
                lemma_gen_failed(ast, src, kids[2], named);
                lemma_gen_failed(ast, src, kids[0], gen(ast, src, kids[2], named));
            }
        } else if takes_two(ast.kind(kids[0])) && kids.len() != 3 {
        } else {
            assert(ast.child_follows(id, 0));
            lemma_gen_rest_failed(ast, src, id, 1, out);
            lemma_gen_failed(ast, src, kids[0], gen_rest(ast, src, id, 1, out));
        }
    }
}

/// The code for the children of a node does not undo an error.
pub proof fn lemma_gen_rest_failed(ast: &Ast, src: Seq<u8>, id: usize, k: int, out: Output)
    requires
        out.failed,
    ensures
        gen_rest(ast, src, id, k, out).failed,
    decreases height(ast, id), ast.children(id).len() - k,
{
    if !(ast.wf() && ast.has(id)) || k < 0 || k >= ast.children(id).len() {
    } else {
        assert(ast.child_follows(id, k));
        lemma_gen_failed(ast, src, ast.children(id)[k], out);
        lemma_gen_rest_failed(ast, src, id, k + 1, gen(ast, src, ast.children(id)[k], out));
    }
}

/// The code for the expressions at the top of a tree does not undo an
/// error.
pub proof fn lemma_gen_top_failed(ast: &Ast, src: Seq<u8>, k: int, out: Output)
    requires
        out.failed,
    ensures
        gen_top(ast, src, k, out).failed,
    decreases ast.children(ast.root).len() - k,
{
    let kids = ast.children(ast.root);
    if k < 0 || k >= kids.len() {
    } else {
        let one = gen(ast, src, kids[k], out);
        lemma_gen_failed(ast, src, kids[k], out);
        let next = if k + 1 < kids.len() {
            put_op(one, Opcode::OPPOP, 0)
        } else {
            one
        };
        lemma_gen_top_failed(ast, src, k + 1, next);
    }
}

} // verus!
