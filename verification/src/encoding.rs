use vstd::prelude::*;
use crate::chunk::decode;

verus! {

/// How many operand bytes follow the byte at `at`, read as an instruction.
pub open spec fn width_at(code: Seq<u8>, at: int) -> int {
    match decode(code[at]) {
        Some(op) => op.operand_width() as int,
        None => 0,
    }
}

/// Where the instruction after the one at `at` starts.
pub open spec fn following(code: Seq<u8>, at: int) -> int {
    at + 1 + width_at(code, at)
}

/// Whether reading the code instruction by instruction from `from` on leads
/// to `to`.
pub open spec fn reaches(code: Seq<u8>, from: int, to: int) -> bool
    decreases to - from,
{
    if from >= to {
        from == to
    } else {
        0 <= from < code.len() && following(code, from) <= to && reaches(
            code,
            following(code, from),
            to,
        )
    }
}

/// Whether an instruction starts at `at`, or the code ends there, when the
/// code is read from its start.
pub open spec fn starts(code: Seq<u8>, at: int) -> bool {
    reaches(code, 0, at)
}

/// Whether the instruction at `at` is sound: the byte stands for an
/// instruction, its operand is there, an operand that names a constant is
/// less than `pool`, and one that names a position in the code is at most
/// `limit`.
pub open spec fn instruction_ok(code: Seq<u8>, pool: nat, limit: int, at: int) -> bool {
    match decode(code[at]) {
        Some(op) => {
            &&& at + op.operand_width() < code.len()
            &&& op.names_constant() ==> code[at + 1] < pool
            &&& op.names_target() ==> code[at + 1] <= limit
        },
        None => false,
    }
}

/// Whether the code is a run of sound instructions that ends where an
/// instruction ends; see [`instruction_ok`].
pub open spec fn encoded(code: Seq<u8>, pool: nat, limit: int) -> bool {
    &&& starts(code, code.len() as int)
    &&& forall|at: int|
        0 <= at < code.len() && #[trigger] starts(code, at) ==> instruction_ok(
            code,
            pool,
            limit,
            at,
        )
}

/// What leads somewhere does not start behind it.
pub proof fn lemma_reaches_order(code: Seq<u8>, from: int, to: int)
    requires
        reaches(code, from, to),
    ensures
        from <= to,
{
}

/// Whether reading leads from `from` to `to` depends on the code before
/// `to` alone.
pub proof fn lemma_reaches_prefix(a: Seq<u8>, b: Seq<u8>, from: int, to: int)
    requires
        to <= a.len(),
        to <= b.len(),
        forall|i: int| 0 <= i < to ==> a[i] == b[i],
    ensures
        reaches(a, from, to) == reaches(b, from, to),
    decreases to - from,
{
    if from < to && 0 <= from && following(a, from) <= to {
        lemma_reaches_prefix(a, b, following(a, from), to);
    }
}

/// Reading that leads from `a` to `b` and from `b` to `c` leads from `a` to
/// `c`.
pub proof fn lemma_reaches_on(code: Seq<u8>, a: int, b: int, c: int)
    requires
        reaches(code, a, b),
        reaches(code, b, c),
    ensures
        reaches(code, a, c),
    decreases b - a,
{
    if a < b {
        lemma_reaches_order(code, b, c);
        lemma_reaches_order(code, following(code, a), b);
        lemma_reaches_on(code, following(code, a), b, c);
    }
}

/// Of two places to which reading leads from `a`, it leads from the nearer to
/// the farther.
pub proof fn lemma_reaches_between(code: Seq<u8>, a: int, s: int, x: int)
    requires
        reaches(code, a, s),
        reaches(code, a, x),
        s <= x,
    ensures
        reaches(code, s, x),
    decreases s - a,
{
    if a < s {
        lemma_reaches_order(code, following(code, a), s);
        lemma_reaches_between(code, following(code, a), s, x);
    }
}

/// No instruction starts inside another: a start behind the start `s` is at
/// or behind the instruction that follows `s`.
pub proof fn lemma_no_start_inside(code: Seq<u8>, s: int, x: int)
    requires
        starts(code, s),
        starts(code, x),
        s < x,
    ensures
        following(code, s) <= x,
        reaches(code, following(code, s), x),
{
    lemma_reaches_between(code, 0, s, x);
    lemma_reaches_order(code, following(code, s), x);
}

/// Code that is encoded stays so with a larger pool and a larger limit.
pub proof fn lemma_encoded_widens(code: Seq<u8>, pool: nat, limit: int, pool2: nat, limit2: int)
    requires
        encoded(code, pool, limit),
        pool <= pool2,
        limit <= limit2,
    ensures
        encoded(code, pool2, limit2),
{
    assert forall|at: int|
        0 <= at < code.len() && #[trigger] starts(code, at) implies instruction_ok(
        code,
        pool2,
        limit2,
        at,
    ) by {
        assert(instruction_ok(code, pool, limit, at));
    }
}

/// Encoded code with one more sound instruction at its end is encoded. The
/// instruction is given as the bytes `more`: one byte, or two for an
/// instruction with an operand.
pub proof fn lemma_encoded_append(code: Seq<u8>, more: Seq<u8>, pool: nat, limit: int)
    requires
        encoded(code, pool, limit),
        more.len() >= 1,
        more.len() == 1 + width_at(more, 0),
        instruction_ok(code + more, pool, limit, code.len() as int),
    ensures
        encoded(code + more, pool, limit),
{
    let longer = code + more;
    let n = code.len() as int;
    assert(longer[n] == more[0]);
    assert forall|i: int| 0 <= i < n implies code[i] == longer[i] by {}
    lemma_reaches_prefix(code, longer, 0, n);
    assert(starts(longer, n));
    assert(following(longer, n) == longer.len());
    assert(reaches(longer, longer.len() as int, longer.len() as int));
    assert(reaches(longer, n, longer.len() as int));
    lemma_reaches_on(longer, 0, n, longer.len() as int);
    assert forall|at: int|
        0 <= at < longer.len() && #[trigger] starts(longer, at) implies instruction_ok(
        longer,
        pool,
        limit,
        at,
    ) by {
        if at < n {
            lemma_reaches_prefix(code, longer, 0, at);
            assert(starts(code, at));
            assert(instruction_ok(code, pool, limit, at));
            assert(longer[at] == code[at]);
            assert(longer[at + 1] == code[at + 1] || at + 1 >= n);
        } else if at > n {
            lemma_no_start_inside(longer, n, at);
        }
    }
}

/// Encoded code stays encoded when the operand of a jump in it is set to a
/// position within the limit.
pub proof fn lemma_encoded_patch(code: Seq<u8>, at: int, target: u8, pool: nat, limit: int)
    requires
        encoded(code, pool, limit),
        0 < at < code.len(),
        starts(code, at - 1),
        decode(code[at - 1]) matches Some(op) && op.names_target(),
        target <= limit,
    ensures
        encoded(code.update(at, target), pool, limit),
{
    let patched = code.update(at, target);
    assert forall|to: int| starts(code, to) == starts(patched, to) by {
        lemma_patch_reaches(code, at, target, 0, to);
    }
    assert forall|x: int|
        0 <= x < patched.len() && #[trigger] starts(patched, x) implies instruction_ok(
        patched,
        pool,
        limit,
        x,
    ) by {
        assert(starts(code, x));
        assert(instruction_ok(code, pool, limit, x));
        if x == at {
            lemma_no_start_inside(code, at - 1, x);
        }
        if x < at - 1 {
            lemma_no_start_inside(code, x, at - 1);
        }
    }
}

/// Setting the operand of an instruction changes nothing about where
/// instructions start.
pub proof fn lemma_patch_reaches(code: Seq<u8>, at: int, target: u8, from: int, to: int)
    requires
        0 < at < code.len(),
        starts(code, at - 1),
        width_at(code, at - 1) == 1,
        starts(code, from),
    ensures
        reaches(code, from, to) == reaches(code.update(at, target), from, to),
    decreases to - from,
{
    let patched = code.update(at, target);
    if from < to && 0 <= from < code.len() {
        if from == at {
            lemma_no_start_inside(code, at - 1, from);
        }
        assert(patched[from] == code[from]);
        assert(following(patched, from) == following(code, from));
        if following(code, from) <= to {
            assert(reaches(code, following(code, from), following(code, from)));
            assert(reaches(code, from, following(code, from)));
            lemma_reaches_on(code, 0, from, following(code, from));
            lemma_patch_reaches(code, at, target, following(code, from), to);
        }
    }
}

/// Where instructions start in code with one more instruction at its end:
/// where they started before, and where the code ended before.
pub proof fn lemma_append_starts(code: Seq<u8>, more: Seq<u8>)
    requires
        starts(code, code.len() as int),
        more.len() >= 1,
        more.len() == 1 + width_at(more, 0),
    ensures
        starts(code + more, (code + more).len() as int),
        forall|at: int| at <= code.len() ==> starts(code + more, at) == starts(code, at),
        forall|at: int| code.len() < at < (code + more).len() ==> !starts(code + more, at),
{
    let longer = code + more;
    let n = code.len() as int;
    assert(longer[n] == more[0]);
    assert forall|i: int| 0 <= i < n implies code[i] == longer[i] by {}
    assert forall|at: int| at <= code.len() implies starts(code + more, at) == starts(
        code,
        at,
    ) by {
        lemma_reaches_prefix(code, longer, 0, at);
    }
    assert(following(longer, n) == longer.len());
    assert(reaches(longer, longer.len() as int, longer.len() as int));
    assert(reaches(longer, n, longer.len() as int));
    lemma_reaches_on(longer, 0, n, longer.len() as int);
    assert forall|at: int| code.len() < at < (code + more).len() implies !starts(
        code + more,
        at,
    ) by {
        if starts(longer, at) {
            lemma_no_start_inside(longer, n, at);
        }
    }
}

} // verus!
