use vstd::prelude::*;
use vstd::relations::injective_on;
use vstd::set_lib::{lemma_len_subset, lemma_map_size};
use crate::nesting::level;
use crate::token::{Token, TokenType};
use crate::tree::Ast;

verus! {

/// The number of opening parentheses among the tokens after the root's and
/// before the `n`th.
pub open spec fn opens(ts: Seq<Token>, n: int) -> nat
    decreases n,
{
    if n <= 1 {
        0
    } else {
        opens(ts, n - 1) + if ts[n - 1].typ == TokenType::LEFTPAREN {
            1nat
        } else {
            0nat
        }
    }
}

/// The number of pairs of parentheses among the tokens after the root's and
/// before the `n`th: the closing parentheses that close an opening one.
pub open spec fn pairs(ts: Seq<Token>, n: int) -> nat
    decreases n,
{
    if n <= 1 {
        0
    } else {
        pairs(ts, n - 1) + if ts[n - 1].typ == TokenType::RIGHTPAREN && level(ts, n - 1) > 1 {
            1nat
        } else {
            0nat
        }
    }
}

/// The depth after some tokens is one more than the number of the opening
/// parentheses among them that are not closed.
pub proof fn lemma_level_counts(ts: Seq<Token>, n: int)
    requires
        1 <= n,
    ensures
        level(ts, n) == 1 + opens(ts, n) - pairs(ts, n),
    decreases n,
{
    if n > 1 {
        lemma_level_counts(ts, n - 1);
    }
}

/// The places after the root's and before the `n`th at which the tokens
/// hold an opening parenthesis.
pub open spec fn open_places(ts: Seq<Token>, n: int) -> Set<int> {
    Set::new(|j: int| 1 <= j < n && ts[j].typ == TokenType::LEFTPAREN)
}

/// There are as many places that hold an opening parenthesis as there are
/// opening parentheses.
pub proof fn lemma_open_places(ts: Seq<Token>, n: int)
    ensures
        open_places(ts, n).finite(),
        open_places(ts, n).len() == opens(ts, n),
    decreases n,
{
    if n <= 1 {
        assert(open_places(ts, n) =~= Set::<int>::empty());
    } else {
        lemma_open_places(ts, n - 1);
        if ts[n - 1].typ == TokenType::LEFTPAREN {
            assert(open_places(ts, n) =~= open_places(ts, n - 1).insert(n - 1));
        } else {
            assert(open_places(ts, n) =~= open_places(ts, n - 1));
        }
    }
}

impl Ast {
    /// The internal nodes of the tree: those below the root that hold an
    /// opening parenthesis.
    pub open spec fn internal(&self) -> Set<usize> {
        Set::new(|n: usize| self.has(n) && n != self.root && self.kind(n) == TokenType::LEFTPAREN)
    }
}

/// A tree has as many internal nodes as its tokens hold opening
/// parentheses.
pub proof fn lemma_internal_nodes(ast: &Ast)
    requires
        ast.placed(),
    ensures
        ast.internal().finite(),
        ast.internal().len() == opens(ast.tokens@, ast.tokens@.len() as int),
{
    let ts = ast.tokens@;
    let n = ts.len() as int;
    let f = |id: usize| ast.datum(id) as int;
    let x = ast.internal();
    let y = open_places(ts, n);
    assert(x.subset_of(ast.nodes().dom()));
    lemma_len_subset(x, ast.nodes().dom());
    assert(injective_on(f, x)) by {
        assert forall|a: usize, b: usize| x.contains(a) && x.contains(b) && #[trigger] f(a)
            == #[trigger] f(b) implies a == b by {
            assert(ast.datum(a) == ast.datum(b));
        }
    }
    assert(x.map(f) =~= y) by {
        assert forall|j: int| y.contains(j) implies x.map(f).contains(j) by {
            assert(ts[j].typ != TokenType::RIGHTPAREN);
            let id = choose|id: usize| ast.node_of(id, j);
            assert(ast.datum(ast.root) == 0);
            assert(x.contains(id));
            assert(f(id) == j);
        }
        assert forall|j: int| x.map(f).contains(j) implies y.contains(j) by {
            let id = choose|id: usize| x.contains(id) && f(id) == j;
            assert(ast.has(ast.root));
            assert(ast.datum(id) < ast.tokens@.len());
            if ast.datum(id) == 0 {
                assert(ast.datum(id) == ast.datum(ast.root));
            }
        }
    }
    lemma_map_size(x, y, f);
    lemma_open_places(ts, n);
}

/// The number of internal nodes of a tree is the number of pairs of
/// parentheses among its tokens, where no parenthesis stays open.
pub proof fn lemma_internal_nodes_are_pairs(ast: &Ast)
    requires
        ast.placed(),
        level(ast.tokens@, ast.tokens@.len() as int) == 1,
    ensures
        ast.internal().finite(),
        ast.internal().len() == pairs(ast.tokens@, ast.tokens@.len() as int),
{
    lemma_internal_nodes(ast);
    assert(ast.datum(ast.root) < ast.tokens@.len());
    lemma_level_counts(ast.tokens@, ast.tokens@.len() as int);
}

/// No leaf of a tree holds a parenthesis: a node with a closing parenthesis
/// does not exist, and a node with an opening one is internal.
pub proof fn lemma_leaves_hold_no_parenthesis(ast: &Ast, id: usize)
    requires
        ast.shaped(),
        ast.has(id),
        !ast.internal().contains(id),
    ensures
        ast.kind(id) != TokenType::LEFTPAREN,
        ast.kind(id) != TokenType::RIGHTPAREN,
{
    assert(ast.node_shaped(id));
}

} // verus!
