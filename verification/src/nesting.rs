use vstd::prelude::*;
use crate::token::{Token, TokenType};
use crate::tree::Ast;

verus! {

/// By how much a token changes the depth of what follows it: an opening
/// parenthesis leads one level down and a closing one leads one level up.
pub open spec fn step(t: Token) -> int {
    if t.typ == TokenType::LEFTPAREN {
        1
    } else if t.typ == TokenType::RIGHTPAREN {
        -1
    } else {
        0
    }
}

/// The depth at which the `j`th of the tokens stands. The first token is
/// the root's, at depth 0, and what follows it stands at depth 1 or deeper: a
/// closing parenthesis at depth 1 closes nothing, and what follows it stands
/// at depth 1 again.
pub open spec fn level(ts: Seq<Token>, j: int) -> int
    decreases j,
{
    if j <= 0 {
        0
    } else if j == 1 {
        1
    } else {
        let l = level(ts, j - 1) + step(ts[j - 1]);
        if l < 1 {
            1
        } else {
            l
        }
    }
}

/// Whether the `j`th token is a closing parenthesis that closes nothing.
pub open spec fn stray(ts: Seq<Token>, j: int) -> bool {
    1 <= j < ts.len() && ts[j].typ == TokenType::RIGHTPAREN && level(ts, j) == 1
}

/// Whether none of the tokens before the `n`th is a closing parenthesis
/// that closes nothing.
pub open spec fn clean(ts: Seq<Token>, n: int) -> bool {
    forall|j: int| 1 <= j < n ==> !#[trigger] stray(ts, j)
}

/// Whether the parentheses among the tokens match: every closing
/// parenthesis closes an opening one, and none stays open.
pub open spec fn balanced(ts: Seq<Token>) -> bool {
    clean(ts, ts.len() as int) && level(ts, ts.len() as int) == 1
}

/// Whether all that stands after the `p`th token up to the `n`th stands
/// deeper than `p`.
pub open spec fn above(ts: Seq<Token>, p: int, n: int) -> bool {
    forall|j: int| p < j <= n ==> #[trigger] level(ts, j) > level(ts, p)
}

/// Whether the `c`th token stands directly inside the parentheses that the
/// `p`th token opens: one level deeper, with nothing between them that closes
/// `p`. The root's token opens what holds the whole source.
pub open spec fn inside(ts: Seq<Token>, p: int, c: int) -> bool {
    p < c && level(ts, c) == level(ts, p) + 1 && above(ts, p, c)
}

/// The depth of a token depends on the tokens before it alone.
pub proof fn lemma_level_prefix(a: Seq<Token>, b: Seq<Token>, j: int)
    requires
        j <= a.len(),
        j <= b.len(),
        forall|i: int| 0 <= i < j ==> a[i] == b[i],
    ensures
        level(a, j) == level(b, j),
    decreases j,
{
    if j > 1 {
        lemma_level_prefix(a, b, j - 1);
    }
}

/// What follows the root stands at depth 1 or deeper.
pub proof fn lemma_level_positive(ts: Seq<Token>, j: int)
    requires
        1 <= j,
    ensures
        level(ts, j) >= 1,
{
}

/// One more token changes the depth of none of the tokens before it, and
/// what follows it stands where the token leads.
pub proof fn lemma_level_push(ts: Seq<Token>, t: Token)
    requires
        ts.len() >= 1,
    ensures
        forall|j: int| j <= ts.len() ==> level(ts.push(t), j) == level(ts, j),
        level(ts.push(t), (ts.len() + 1) as int) == if level(ts, ts.len() as int) + step(t) < 1 {
            1
        } else {
            level(ts, ts.len() as int) + step(t)
        },
{
    assert forall|j: int| j <= ts.len() implies level(ts.push(t), j) == level(ts, j) by {
        lemma_level_prefix(ts.push(t), ts, j);
    }
    assert(ts.push(t)[ts.len() as int] == t);
}

/// Whether the `p`th token keeps what follows it deeper depends on the
/// tokens before the end of the range alone.
pub proof fn lemma_above_prefix(a: Seq<Token>, b: Seq<Token>, p: int, n: int)
    requires
        n <= a.len(),
        n <= b.len(),
        forall|i: int| 0 <= i < n ==> a[i] == b[i],
        above(a, p, n),
    ensures
        above(b, p, n),
{
    assert forall|j: int| p < j <= n implies #[trigger] level(b, j) > level(b, p) by {
        lemma_level_prefix(a, b, j);
        lemma_level_prefix(a, b, p);
        assert(level(a, j) > level(a, p));
    }
}

impl Ast {
    /// Whether the `k`th child of the node `p` stands directly inside the
    /// parentheses of `p`, after the child before it.
    pub open spec fn edge_nested(&self, p: usize, k: int) -> bool {
        &&& inside(self.tokens@, self.datum(p) as int, self.datum(self.children(p)[k]) as int)
        &&& k > 0 ==> self.datum(self.children(p)[k - 1]) < self.datum(self.children(p)[k])
    }

    /// The children of every node are the expressions that stand directly
    /// inside its parentheses, in the order of the source.
    pub open spec fn nested(&self) -> bool {
        forall|p: usize, k: int|
            self.has(p) && 0 <= k < self.children(p).len() ==> #[trigger] self.edge_nested(p, k)
    }

    /// Whether the node `n` is the node of the `j`th token.
    pub open spec fn node_of(&self, n: usize, j: int) -> bool {
        self.has(n) && self.datum(n) == j
    }

    /// Every token has a node but a closing parenthesis, which has none.
    pub open spec fn covered(&self) -> bool {
        forall|j: int|
            0 <= j < self.tokens@.len() && (#[trigger] self.tokens@[j]).typ
                != TokenType::RIGHTPAREN ==> exists|n: usize| self.node_of(n, j)
    }

    /// The tree is as the parser builds trees from tokens: its nodes form a
    /// tree, every token but a closing parenthesis has its node, and the
    /// children of every node are what stands directly inside it.
    pub open spec fn placed(&self) -> bool {
        self.wf() && self.tree() && self.nested() && self.covered()
    }

    /// Whether what comes next stands directly inside the node `p`: the end
    /// of the tokens is one level deeper than `p`, with nothing between them
    /// that closes `p`.
    pub open spec fn opens_at(&self, p: usize) -> bool {
        &&& level(self.tokens@, self.tokens@.len() as int) == level(
            self.tokens@,
            self.datum(p) as int,
        ) + 1
        &&& above(self.tokens@, self.datum(p) as int, self.tokens@.len() as int)
    }
}

/// What one more node does to a tree that is as the parser builds trees:
/// where the end of the tokens stood directly inside `parent`, the tree with a
/// new last child of `parent` for one more token is as the parser builds
/// trees. What comes next stands directly inside the new node if its token is
/// an opening parenthesis, and directly inside `parent` if not.
pub proof fn lemma_place(before: &Ast, after: &Ast, parent: usize, id: usize, t: Token)
    requires
        before.placed(),
        before.has(parent),
        before.opens_at(parent),
        t.typ != TokenType::RIGHTPAREN,
        after.wf(),
        after.tree(),
        after.extends(before),
        after.tokens@ == before.tokens@.push(t),
        after.has(id),
        !before.has(id),
        after.datum(id) == before.tokens@.len(),
        after.children(id) == Seq::<usize>::empty(),
        after.children(parent) == before.children(parent).push(id),
        forall|n: usize|
            before.has(n) && n != parent ==> #[trigger] after.children(n) == before.children(n),
        forall|n: usize| after.has(n) ==> n == id || before.has(n),
    ensures
        after.placed(),
        clean(after.tokens@, after.tokens@.len() as int) == clean(
            before.tokens@,
            before.tokens@.len() as int,
        ),
        above(after.tokens@, after.datum(parent) as int, after.tokens@.len() as int),
        level(after.tokens@, after.datum(id) as int) == level(
            after.tokens@,
            after.datum(parent) as int,
        ) + 1,
        t.typ == TokenType::LEFTPAREN ==> after.opens_at(id),
        t.typ != TokenType::LEFTPAREN ==> after.opens_at(parent),
{
    let old_ts = before.tokens@;
    let ts = after.tokens@;
    let n0 = old_ts.len() as int;
    let dp = before.datum(parent) as int;
    lemma_level_push(old_ts, t);
    assert(before.datum(parent) < before.tokens@.len());
    assert(after.datum(parent) == before.datum(parent));
    assert(level(ts, dp) == level(old_ts, dp));
    assert(level(ts, n0) == level(old_ts, n0));
    assert(ts[n0] == t);
    assert(above(ts, dp, n0 + 1)) by {
        assert forall|j: int| dp < j <= n0 + 1 implies #[trigger] level(ts, j) > level(ts, dp) by {
            if j <= n0 {
                assert(level(old_ts, j) > level(old_ts, dp));
            }
        }
    }
    assert(above(ts, dp, n0));
    if t.typ == TokenType::LEFTPAREN {
        assert(above(ts, n0, n0 + 1)) by {
            assert forall|j: int| n0 < j <= n0 + 1 implies #[trigger] level(ts, j) > level(
                ts,
                n0,
            ) by {}
        }
    }
    assert forall|j: int| 1 <= j < n0 implies stray(ts, j) == stray(old_ts, j) by {
        assert(ts[j] == old_ts[j]);
    }
    assert(!stray(ts, n0));
    if clean(old_ts, n0) {
        assert forall|j: int| 1 <= j < n0 + 1 implies !#[trigger] stray(ts, j) by {
            if j < n0 {
                assert(!stray(old_ts, j));
            }
        }
    }
    if clean(ts, n0 + 1) {
        assert forall|j: int| 1 <= j < n0 implies !#[trigger] stray(old_ts, j) by {
            assert(!stray(ts, j));
        }
    }
    assert forall|j: int|
        0 <= j < ts.len() && (#[trigger] ts[j]).typ != TokenType::RIGHTPAREN implies exists|
        n: usize,
    | after.node_of(n, j) by {
        if j < n0 {
            assert(old_ts[j] == ts[j]);
            let n = choose|n: usize| before.node_of(n, j);
            assert(before.has(n));
            assert(after.node_of(n, j));
        } else {
            assert(after.node_of(id, j));
        }
    }
    assert forall|p: usize, k: int|
        after.has(p) && 0 <= k < after.children(p).len() implies #[trigger] after.edge_nested(
        p,
        k,
    ) by {
        if p == id {
        } else {
            assert(before.has(p));
            assert(after.datum(p) == before.datum(p));
            if p == parent && k == before.children(parent).len() {
                if k > 0 {
                    assert(before.child_follows(parent, k - 1));
                    let prev = before.children(parent)[k - 1];
                    assert(before.has(prev));
                    assert(before.datum(prev) < before.tokens@.len());
                    assert(after.datum(prev) == before.datum(prev));
                }
            } else {
                assert(after.children(p)[k] == before.children(p)[k]);
                assert(before.edge_nested(p, k));
                assert(before.child_follows(p, k));
                let c = before.children(p)[k];
                assert(before.has(c));
                assert(after.datum(c) == before.datum(c));
                assert(before.datum(c) < before.tokens@.len());
                lemma_above_prefix(old_ts, ts, before.datum(p) as int, before.datum(c) as int);
                if k > 0 {
                    assert(before.child_follows(p, k - 1));
                    let prev = before.children(p)[k - 1];
                    assert(before.has(prev));
                    assert(after.datum(prev) == before.datum(prev));
                }
            }
        }
    }
}

/// What a closing parenthesis does to a tree that is as the parser builds
/// trees: the tree with one more token, which is a closing parenthesis and
/// has no node, is as the parser builds trees. What comes next stands one
/// level higher, unless the parenthesis closes nothing.
pub proof fn lemma_close(before: &Ast, after: &Ast, t: Token)
    requires
        before.placed(),
        t.typ == TokenType::RIGHTPAREN,
        after.wf(),
        after.tree(),
        after.extends(before),
        after.tokens@ == before.tokens@.push(t),
        after.nodes() == before.nodes(),
    ensures
        after.placed(),
        level(after.tokens@, after.tokens@.len() as int) == if level(
            before.tokens@,
            before.tokens@.len() as int,
        ) == 1 {
            1
        } else {
            level(before.tokens@, before.tokens@.len() as int) - 1
        },
        clean(after.tokens@, after.tokens@.len() as int) == (clean(
            before.tokens@,
            before.tokens@.len() as int,
        ) && level(before.tokens@, before.tokens@.len() as int) != 1),
        forall|j: int| j <= before.tokens@.len() ==> level(after.tokens@, j) == level(
            before.tokens@,
            j,
        ),
{
    let old_ts = before.tokens@;
    let ts = after.tokens@;
    let n0 = old_ts.len() as int;
    assert(before.datum(before.root) < before.tokens@.len());
    lemma_level_push(old_ts, t);
    lemma_level_positive(old_ts, n0);
    assert(ts[n0] == t);
    assert forall|j: int| 1 <= j < n0 implies stray(ts, j) == stray(old_ts, j) by {
        assert(ts[j] == old_ts[j]);
    }
    assert(stray(ts, n0) == (level(old_ts, n0) == 1));
    if clean(old_ts, n0) && level(old_ts, n0) != 1 {
        assert forall|j: int| 1 <= j < n0 + 1 implies !#[trigger] stray(ts, j) by {
            if j < n0 {
                assert(!stray(old_ts, j));
            }
        }
    }
    if clean(ts, n0 + 1) {
        assert(!stray(ts, n0));
        assert forall|j: int| 1 <= j < n0 implies !#[trigger] stray(old_ts, j) by {
            assert(!stray(ts, j));
        }
    }
    assert forall|j: int|
        0 <= j < ts.len() && (#[trigger] ts[j]).typ != TokenType::RIGHTPAREN implies exists|
        n: usize,
    | after.node_of(n, j) by {
        assert(old_ts[j] == ts[j]);
        let n = choose|n: usize| before.node_of(n, j);
        assert(after.node_of(n, j));
    }
    assert forall|p: usize, k: int|
        after.has(p) && 0 <= k < after.children(p).len() implies #[trigger] after.edge_nested(
        p,
        k,
    ) by {
        assert(before.edge_nested(p, k));
        assert(before.child_follows(p, k));
        let c = before.children(p)[k];
        assert(before.datum(c) < before.tokens@.len());
        lemma_above_prefix(old_ts, ts, before.datum(p) as int, before.datum(c) as int);
    }
}

} // verus!
