use vstd::prelude::*;
use crate::chunk::{decode, lemma_decode_ordinal, Opcode};
use crate::codegen::{
    constant_of, emit_leaf, gen, gen_rest, gen_top, height, is_constant_kind, lexeme, literal_op,
    load, operator_op, patch, program, put_op, put_pair, takes_two, Output, MAX_CONSTANTS,
    MAX_TARGET,
};
use crate::gen_laws::{
    coded, keeps, lemma_emit_leaf, lemma_gen, lemma_gen_failed, lemma_gen_rest,
    lemma_gen_rest_failed, lemma_load, lemma_patch, lemma_put_jump, lemma_put_op,
    lemma_start_kept, sealed,
};
use crate::token::{Token, TokenType};
use crate::tree::Ast;
use crate::encoding::{
    following, lemma_append_starts, lemma_no_start_inside, lemma_patch_reaches, lemma_reaches_on,
    reaches, starts, width_at,
};
use crate::machine::{fetch, remaining, resume, run, step, Answer, InterpretResult, Machine};
use crate::value::Constant;

verus! {

/// Whether the machine can carry out the instruction at `at` whatever its
/// stack holds, as far as the code goes: the byte stands for an instruction
/// that is not reserved, its operand is there, an operand that names a
/// constant names one of the pool, and a symbol where the instruction takes
/// one, and a jump leads forward to the start of an instruction.
pub open spec fn instruction_runs(code: Seq<u8>, pool: Seq<Constant>, at: int) -> bool {
    match decode(code[at]) {
        Some(op) => {
            &&& op != Opcode::OPNEGATE
            &&& at + op.operand_width() < code.len()
            &&& op.names_constant() ==> code[at + 1] < pool.len()
            &&& op == Opcode::OPSYM || op == Opcode::OPDEFSYM
                ==> pool[code[at + 1] as int] is Symbol
            &&& op.names_target() ==> at + 1 < code[at + 1] < code.len() && starts(
                code,
                code[at + 1] as int,
            )
        },
        None => false,
    }
}

/// Whether the machine can run the code: it is a run of instructions that
/// the machine can carry out, and the last of them is the one that returns.
pub open spec fn runs(code: Seq<u8>, pool: Seq<Constant>) -> bool {
    &&& code.len() > 0
    &&& starts(code, code.len() - 1)
    &&& decode(code.last()) == Some(Opcode::OPRETURN)
    &&& forall|at: int|
        0 <= at < code.len() && #[trigger] starts(code, at) ==> instruction_runs(code, pool, at)
}

/// In code that the machine can run, an instruction of a machine that is at
/// the start of one never stops the machine for the code's sake, and leaves
/// the machine at the start of an instruction further on.
pub proof fn lemma_step_runs(m: Machine, code: Seq<u8>, pool: Seq<Constant>)
    requires
        runs(code, pool),
        m.ip < code.len(),
        starts(code, m.ip as int),
    ensures
        step(m, code, pool).1 != Some(InterpretResult::CompileError),
        step(m, code, pool).1 is None ==> {
            &&& m.ip < step(m, code, pool).0.ip < code.len()
            &&& starts(code, step(m, code, pool).0.ip as int)
        },
{
    let at = m.ip as int;
    assert(instruction_runs(code, pool, at));
    let op = decode(code[at]).unwrap();
    assert(fetch(m, code) == Some(op));
    if at < code.len() - 1 {
        lemma_no_start_inside(code, at, code.len() - 1);
    }
    assert(reaches(code, following(code, at), following(code, at)));
    if following(code, at) <= code.len() {
        assert(reaches(code, at, following(code, at)));
        lemma_reaches_on(code, 0, at, following(code, at));
    }
}

/// The same of an instruction that is carried out with the host's answer.
pub proof fn lemma_resume_runs(m: Machine, code: Seq<u8>, pool: Seq<Constant>, answer: Answer)
    requires
        runs(code, pool),
        m.ip < code.len(),
        starts(code, m.ip as int),
    ensures
        resume(m, code, pool, answer).1 != Some(InterpretResult::CompileError),
        resume(m, code, pool, answer).1 is None ==> {
            &&& m.ip < resume(m, code, pool, answer).0.ip < code.len()
            &&& starts(code, resume(m, code, pool, answer).0.ip as int)
        },
{
    let at = m.ip as int;
    assert(instruction_runs(code, pool, at));
    if at < code.len() - 1 {
        lemma_no_start_inside(code, at, code.len() - 1);
    }
    assert(reaches(code, following(code, at), following(code, at)));
    if following(code, at) <= code.len() {
        assert(reaches(code, at, following(code, at)));
        lemma_reaches_on(code, 0, at, following(code, at));
    }
}

/// Code that the machine can run never stops the machine for the code's
/// sake: a run from the start of an instruction ends with the instruction
/// that returns, with an error of the values on the stack, or suspended, and
/// then at the start of an instruction.
pub proof fn lemma_run_runs(m: Machine, code: Seq<u8>, pool: Seq<Constant>)
    requires
        runs(code, pool),
        m.ip < code.len(),
        starts(code, m.ip as int),
    ensures
        run(m, code, pool).1 != InterpretResult::CompileError,
        run(m, code, pool).1 == InterpretResult::Suspended ==> {
            &&& run(m, code, pool).0.ip < code.len()
            &&& starts(code, run(m, code, pool).0.ip as int)
        },
    decreases remaining(m, code),
{
    lemma_step_runs(m, code, pool);
    let (next, stop) = step(m, code, pool);
    if stop is None {
        lemma_run_runs(next, code, pool);
    }
}

/// Whether the instruction at `at` is as [`instruction_runs`] says, but for
/// a jump whose operand is among `pending`, which has yet to be set, and for
/// a jump to the very end of the code, where more code may follow.
pub open spec fn instruction_made(
    code: Seq<u8>,
    pool: Seq<Constant>,
    pending: Set<int>,
    at: int,
) -> bool {
    match decode(code[at]) {
        Some(op) => {
            &&& op != Opcode::OPNEGATE
            &&& at + op.operand_width() < code.len()
            &&& op.names_constant() ==> code[at + 1] < pool.len()
            &&& op == Opcode::OPSYM || op == Opcode::OPDEFSYM
                ==> pool[code[at + 1] as int] is Symbol
            &&& op.names_target() ==> pending.contains(at + 1) || (at + 1 < code[at + 1]
                <= code.len() && starts(code, code[at + 1] as int))
        },
        None => false,
    }
}

/// Whether the machine can run what the generator has produced once the
/// operands among `pending` are set and the code is complete.
pub open spec fn runnable(out: Output, pending: Set<int>) -> bool {
    &&& starts(out.code, out.code.len() as int)
    &&& forall|p: int| pending.contains(p) ==> 0 <= p < out.code.len()
    &&& forall|at: int|
        0 <= at < out.code.len() && #[trigger] starts(out.code, at) ==> instruction_made(
            out.code,
            out.pool,
            pending,
            at,
        )
}

/// What the generator has produced stays runnable with one more
/// instruction at its end that is so.
pub proof fn lemma_made_append(
    out: Output,
    after: Output,
    more: Seq<u8>,
    pending: Set<int>,
    waiting: Set<int>,
)
    requires
        runnable(out, pending),
        more.len() >= 1,
        more.len() == 1 + width_at(more, 0),
        after.code == out.code + more,
        out.pool.len() <= after.pool.len(),
        forall|i: int| 0 <= i < out.pool.len() ==> after.pool[i] == out.pool[i],
        forall|p: int| pending.contains(p) ==> waiting.contains(p),
        forall|p: int| waiting.contains(p) ==> 0 <= p < after.code.len(),
        instruction_made(after.code, after.pool, waiting, out.code.len() as int),
    ensures
        runnable(after, waiting),
{
    lemma_append_starts(out.code, more);
    let n = out.code.len() as int;
    assert forall|at: int|
        0 <= at < after.code.len() && #[trigger] starts(after.code, at) implies instruction_made(
        after.code,
        after.pool,
        waiting,
        at,
    ) by {
        if at < n {
            assert(starts(out.code, at));
            assert(instruction_made(out.code, out.pool, pending, at));
            assert(after.code[at] == out.code[at]);
            let op = decode(out.code[at]).unwrap();
            if op.operand_width() == 1 {
                assert(after.code[at + 1] == out.code[at + 1]);
                if op.names_target() && !pending.contains(at + 1) {
                    assert(starts(after.code, out.code[at + 1] as int));
                }
            }
        }
    }
}

/// An instruction without operand keeps runnable what was so.
pub proof fn lemma_made_op(out: Output, op: Opcode, line: u16, pending: Set<int>)
    requires
        runnable(out, pending),
        op.operand_width() == 0,
        op != Opcode::OPNEGATE,
    ensures
        runnable(put_op(out, op, line), pending),
{
    let byte = op.ordinal() as u8;
    lemma_decode_ordinal(op, byte);
    let more = seq![byte];
    assert(put_op(out, op, line).code =~= out.code + more);
    lemma_made_append(out, put_op(out, op, line), more, pending, pending);
}

/// A jump with the operand 0 keeps runnable what was so, with its operand
/// among those that have yet to be set.
pub proof fn lemma_made_jump(out: Output, op: Opcode, line: u16, pending: Set<int>)
    requires
        runnable(out, pending),
        op.names_target(),
    ensures
        runnable(put_pair(out, op, 0, line), pending.insert(out.code.len() as int + 1)),
{
    let byte = op.ordinal() as u8;
    lemma_decode_ordinal(op, byte);
    let more = seq![byte, 0u8];
    assert(put_pair(out, op, 0, line).code =~= out.code + more);
    lemma_made_append(
        out,
        put_pair(out, op, 0, line),
        more,
        pending,
        pending.insert(out.code.len() as int + 1),
    );
}

/// A constant and the instruction that names it keep runnable what was so,
/// where the constant is a symbol if the instruction takes one.
pub proof fn lemma_made_load(
    out: Output,
    constant: Constant,
    op: Opcode,
    line: u16,
    pending: Set<int>,
)
    requires
        runnable(out, pending),
        op.names_constant(),
        op == Opcode::OPSYM || op == Opcode::OPDEFSYM ==> constant is Symbol,
    ensures
        runnable(load(out, constant, op, line), pending),
{
    if out.pool.len() < MAX_CONSTANTS {
        let byte = op.ordinal() as u8;
        lemma_decode_ordinal(op, byte);
        let more = seq![byte, out.pool.len() as u8];
        let after = load(out, constant, op, line);
        assert(after.code =~= out.code + more);
        lemma_made_append(out, after, more, pending, pending);
    }
}

/// A jump whose operand is set to the end of the code is a jump that the
/// machine can carry out: to set the operand keeps runnable what was so, and
/// the operand is no longer among those that have yet to be set.
pub proof fn lemma_made_patch(out: Output, at: int, pending: Set<int>)
    requires
        runnable(out, pending),
        0 < at < out.code.len(),
        starts(out.code, at - 1),
        decode(out.code[at - 1]) matches Some(op) && op.names_target(),
        out.code.len() <= MAX_TARGET,
    ensures
        runnable(patch(out, at), pending.remove(at)),
{
    let code = out.code;
    let target = code.len() as u8;
    let after = patch(out, at);
    assert forall|x: int| starts(after.code, x) == starts(code, x) by {
        lemma_patch_reaches(code, at, target, 0, x);
    }
    assert forall|x: int|
        0 <= x < after.code.len() && #[trigger] starts(after.code, x) implies instruction_made(
        after.code,
        after.pool,
        pending.remove(at),
        x,
    ) by {
        assert(starts(code, x));
        assert(instruction_made(code, out.pool, pending, x));
        if x == at {
            lemma_no_start_inside(code, at - 1, x);
        }
        if x < at - 1 {
            lemma_no_start_inside(code, x, at - 1);
        }
        if x == at - 1 {
            assert(after.code[at] == target);
        } else {
            let op = decode(code[x]).unwrap();
            if op.operand_width() == 1 {
                assert(after.code[x + 1] == code[x + 1]);
            }
        }
    }
}

/// The code for a token that stands alone keeps runnable what was so.
pub proof fn lemma_made_leaf(out: Output, src: Seq<u8>, token: Token, pending: Set<int>)
    requires
        runnable(out, pending),
    ensures
        runnable(emit_leaf(out, src, token), pending),
{
    if literal_op(token.typ).is_some() {
        lemma_made_op(out, literal_op(token.typ).unwrap(), token.line, pending);
    } else if operator_op(token.typ).is_some() {
        lemma_made_op(out, operator_op(token.typ).unwrap(), token.line, pending);
    } else if is_constant_kind(token.typ) {
        match constant_of(src, token) {
            Some((constant, op)) => {
                lemma_made_load(out, constant, op, token.line, pending);
            },
            None => {},
        }
    }
}

/// The code for an expression keeps runnable what was so, unless the
/// generator meets an error.
pub proof fn lemma_made_gen(ast: &Ast, src: Seq<u8>, id: usize, out: Output, pending: Set<int>)
    requires
        coded(out),
        runnable(out, pending),
    ensures
        !gen(ast, src, id, out).failed ==> runnable(gen(ast, src, id, out), pending),
    decreases height(ast, id), ast.children(id).len() + 1,
{
    if !(ast.wf() && ast.has(id)) {
    } else if ast.kind(id) != TokenType::LEFTPAREN {
        lemma_made_leaf(out, src, ast.token(id), pending);
    } else {
        let kids = ast.children(id);
        let line = ast.token(id).line;
        if kids.len() == 0 {
        } else if ast.kind(kids[0]) == TokenType::IF {
            if kids.len() == 3 || kids.len() == 4 {
                assert(ast.child_follows(id, 1));
                assert(ast.child_follows(id, 2));
                if kids.len() == 4 {
                    assert(ast.child_follows(id, 3));
                }
                let cond = gen(ast, src, kids[1], out);
                let tested = put_pair(cond, Opcode::OPJMPIFFALSE, 0, line);
                let first = tested.code.len() - 1;
                let then = gen(ast, src, kids[2], tested);
                let taken = put_pair(then, Opcode::OPJMP, 0, line);
                let second = taken.code.len() - 1;
                let before_else = patch(taken, first);
                let after_else = if kids.len() == 4 {
                    gen(ast, src, kids[3], before_else)
                } else {
                    put_op(before_else, Opcode::OPNIL, line)
                };
                let done = patch(after_else, second);
                lemma_gen(ast, src, kids[1], out);
                lemma_put_jump(cond, Opcode::OPJMPIFFALSE, line);
                lemma_gen(ast, src, kids[2], tested);
                lemma_start_kept(tested, then, first - 1);
                lemma_put_jump(then, Opcode::OPJMP, line);
                lemma_start_kept(then, taken, first - 1);
                lemma_patch(taken, first);
                if kids.len() == 4 {
                    lemma_gen(ast, src, kids[3], before_else);
                } else {
                    lemma_put_op(before_else, Opcode::OPNIL, line);
                }
                lemma_start_kept(before_else, after_else, second - 1);
                if !done.failed {
                    if before_else.failed && kids.len() == 4 {
                        lemma_gen_failed(ast, src, kids[3], before_else);
                    }
                    if tested.failed {
                        lemma_gen_failed(ast, src, kids[2], tested);
                    }
                    assert(!after_else.failed);
                    assert(!before_else.failed);
                    assert(!taken.failed);
                    assert(!then.failed);
                    assert(!tested.failed);
                    assert(!cond.failed);
                    let p1 = pending.insert(first);
                    let p2 = p1.insert(second);
                    let p3 = p2.remove(first);
                    lemma_made_gen(ast, src, kids[1], out, pending);
                    lemma_made_jump(cond, Opcode::OPJMPIFFALSE, line, pending);
                    lemma_made_gen(ast, src, kids[2], tested, p1);
                    lemma_made_jump(then, Opcode::OPJMP, line, p1);
                    assert(taken.code[first - 1] == tested.code[first - 1]);
                    lemma_made_patch(taken, first, p2);
                    if kids.len() == 4 {
                        lemma_made_gen(ast, src, kids[3], before_else, p3);
                    } else {
                        lemma_made_op(before_else, Opcode::OPNIL, line, p3);
                    }
                    assert(before_else.code[second - 1] == taken.code[second - 1]);
                    assert(after_else.code[second - 1] == before_else.code[second - 1]);
                    lemma_made_patch(after_else, second, p3);
                    assert(p3.remove(second) =~= pending);
                }
            }
        } else if ast.kind(kids[0]) == TokenType::DEF {
            if kids.len() == 3 && ast.kind(kids[1]) == TokenType::IDENTIFIER && lexeme(
                src,
                ast.token(kids[1]),
            ).is_some() {
                assert(ast.child_follows(id, 0));
                assert(ast.child_follows(id, 2));
                let symbol = Constant::Symbol(lexeme(src, ast.token(kids[1])).unwrap());
                let named = load(out, symbol, Opcode::OPDEFSYM, ast.token(kids[1]).line);
                let valued = gen(ast, src, kids[2], named);
                lemma_load(out, symbol, Opcode::OPDEFSYM, ast.token(kids[1]).line);
                lemma_gen(ast, src, kids[2], named);
                if !gen(ast, src, kids[0], valued).failed {
                    if valued.failed {
                        lemma_gen_failed(ast, src, kids[0], valued);
                    }
                    if named.failed {
                        lemma_gen_failed(ast, src, kids[2], named);
                    }
                    lemma_made_load(
                        out,
                        symbol,
                        Opcode::OPDEFSYM,
                        ast.token(kids[1]).line,
                        pending,
                    );
                    lemma_made_gen(ast, src, kids[2], named, pending);
                    lemma_made_gen(ast, src, kids[0], valued, pending);
                }
            }
        } else if takes_two(ast.kind(kids[0])) && kids.len() != 3 {
        } else {
            assert(ast.child_follows(id, 0));
            let rest = gen_rest(ast, src, id, 1, out);
            lemma_gen_rest(ast, src, id, 1, out);
            if !gen(ast, src, kids[0], rest).failed {
                if rest.failed {
                    lemma_gen_failed(ast, src, kids[0], rest);
                }
                lemma_made_rest(ast, src, id, 1, out, pending);
                lemma_made_gen(ast, src, kids[0], rest, pending);
            }
        }
    }
}

/// The code for the children of a node keeps runnable what was so, unless
/// the generator meets an error.
pub proof fn lemma_made_rest(
    ast: &Ast,
    src: Seq<u8>,
    id: usize,
    k: int,
    out: Output,
    pending: Set<int>,
)
    requires
        coded(out),
        runnable(out, pending),
    ensures
        !gen_rest(ast, src, id, k, out).failed ==> runnable(
            gen_rest(ast, src, id, k, out),
            pending,
        ),
    decreases height(ast, id), ast.children(id).len() - k,
{
    if !(ast.wf() && ast.has(id)) || k < 0 || k >= ast.children(id).len() {
    } else {
        assert(ast.child_follows(id, k));
        let one = gen(ast, src, ast.children(id)[k], out);
        lemma_gen(ast, src, ast.children(id)[k], out);
        if !gen_rest(ast, src, id, k + 1, one).failed {
            if one.failed {
                lemma_gen_rest_failed(ast, src, id, k + 1, one);
            }
            lemma_made_gen(ast, src, ast.children(id)[k], out, pending);
            lemma_made_rest(ast, src, id, k + 1, one, pending);
        }
    }
}

/// What the generator has produced with no operand left to set, and the
/// instruction that returns at its end, is code that the machine can run.
pub proof fn lemma_made_return(out: Output, line: u16)
    requires
        runnable(out, Set::<int>::empty()),
    ensures
        runs(put_op(out, Opcode::OPRETURN, line).code, put_op(out, Opcode::OPRETURN, line).pool),
{
    let byte = Opcode::OPRETURN.ordinal() as u8;
    lemma_decode_ordinal(Opcode::OPRETURN, byte);
    let more = seq![byte];
    let after = put_op(out, Opcode::OPRETURN, line);
    assert(after.code =~= out.code + more);
    lemma_append_starts(out.code, more);
    let n = out.code.len() as int;
    assert forall|at: int|
        0 <= at < after.code.len() && #[trigger] starts(after.code, at) implies instruction_runs(
        after.code,
        after.pool,
        at,
    ) by {
        if at < n {
            assert(starts(out.code, at));
            assert(instruction_made(out.code, out.pool, Set::<int>::empty(), at));
            assert(after.code[at] == out.code[at]);
            let op = decode(out.code[at]).unwrap();
            if op.operand_width() == 1 {
                assert(after.code[at + 1] == out.code[at + 1]);
                if op.names_target() {
                    assert(starts(after.code, out.code[at + 1] as int));
                }
            }
        }
    }
}

/// The code for the expressions at the top of a tree, added to what is
/// runnable with no operand left to set, is code that the machine can run,
/// unless the generator meets an error.
pub proof fn lemma_made_top(ast: &Ast, src: Seq<u8>, k: int, out: Output)
    requires
        coded(out),
        runnable(out, Set::<int>::empty()),
    ensures
        !gen_top(ast, src, k, out).failed ==> runs(
            gen_top(ast, src, k, out).code,
            gen_top(ast, src, k, out).pool,
        ),
    decreases ast.children(ast.root).len() - k,
{
    let kids = ast.children(ast.root);
    if k < 0 || k >= kids.len() {
        lemma_made_return(out, 0);
    } else {
        let one = gen(ast, src, kids[k], out);
        lemma_gen(ast, src, kids[k], out);
        let next = if k + 1 < kids.len() {
            put_op(one, Opcode::OPPOP, 0)
        } else {
            one
        };
        if k + 1 < kids.len() {
            lemma_put_op(one, Opcode::OPPOP, 0);
        }
        if !gen_top(ast, src, k + 1, next).failed {
            if next.failed {
                crate::gen_laws::lemma_gen_top_failed(ast, src, k + 1, next);
            }
            lemma_made_gen(ast, src, kids[k], out, Set::<int>::empty());
            if k + 1 < kids.len() {
                lemma_made_op(one, Opcode::OPPOP, 0, Set::<int>::empty());
            }
            lemma_made_top(ast, src, k + 1, next);
        }
    }
}

/// The code for a whole tree is code that the machine can run, unless the
/// generator meets an error: no run of it stops for the code's sake.
pub proof fn lemma_program_runs(ast: &Ast, src: Seq<u8>, out: Output)
    requires
        out.code.len() == 0,
        out.lines.len() == 0,
    ensures
        !program(ast, src, out).failed ==> runs(
            program(ast, src, out).code,
            program(ast, src, out).pool,
        ),
{
    lemma_made_top(ast, src, 0, out);
}

} // verus!
