use vstd::prelude::*;
use indextree::Arena;
use std::num::NonZeroUsize;
use crate::token::{Token, TokenType};

verus! {

/// `Arena` of `indextree`, which holds the nodes of trees. Nothing of what
/// it holds is visible here but through [`arena_nodes`].
#[verifier::external_type_specification]
#[verifier::external_body]
#[verifier::reject_recursive_types(T)]
pub struct ExArena<T>(Arena<T>);

/// The nodes of an arena. Each node that the arena holds and that was not
/// removed is keyed by its one-based index in the arena, and has the datum
/// that it was made with and the indices of its children, first child first.
pub uninterp spec fn arena_nodes(arena: Arena<usize>) -> Map<usize, (usize, Seq<usize>)>;

/// The nodes of an arena that holds none.
pub open spec fn no_nodes() -> Map<usize, (usize, Seq<usize>)> {
    Map::empty()
}

/// A node without children.
pub open spec fn leaf(data: usize) -> (usize, Seq<usize>) {
    (data, Seq::empty())
}

/// The node `node` with one more child, after the children that it has.
pub open spec fn with_child(node: (usize, Seq<usize>), child: usize) -> (usize, Seq<usize>) {
    (node.0, node.1.push(child))
}

/// Whether `child` is a node of `nodes` that can become a child of
/// `parent`: another node, which has no children and is no child itself.
pub open spec fn can_adopt(
    nodes: Map<usize, (usize, Seq<usize>)>,
    parent: usize,
    child: usize,
) -> bool {
    &&& nodes.contains_key(parent)
    &&& nodes.contains_key(child)
    &&& parent != child
    &&& nodes[child].1.len() == 0
    &&& forall|n: usize| nodes.contains_key(n) ==> !(#[trigger] nodes[n]).1.contains(child)
}

/// `Arena::new` of `indextree`: an arena without nodes.
#[verifier::external_body]
pub(crate) fn arena_new() -> (arena: Arena<usize>)
    ensures
        arena_nodes(arena) == no_nodes(),
{
    Arena::new()
}

/// `Arena::new_node` of `indextree`: the arena has one node more, with the
/// datum `data` and without children. Returns the index of the new node,
/// which is the index of no node that the arena held before. The other nodes
/// stay as they are. The outside function panics where the arena holds as
/// many nodes as a `usize` can count, which no arena in memory does.
#[verifier::external_body]
pub(crate) fn arena_new_node(arena: &mut Arena<usize>, data: usize) -> (id: usize)
    ensures
        !arena_nodes(*old(arena)).contains_key(id),
        arena_nodes(*final(arena)) == arena_nodes(*old(arena)).insert(id, leaf(data)),
{
    usize::from(arena.new_node(data))
}

/// `NodeId::append` of `indextree`: the node `child` becomes the last child
/// of the node `parent`. The other nodes stay as they are. The outside
/// function panics where `child` is `parent`, an ancestor of it or removed,
/// and first takes `child` from the parent that it has; `can_adopt` leaves all
/// of these out. `Arena::get_node_id_at` turns each index into the arena's
/// own name for the node, which is there for every node that was not
/// removed.
#[verifier::external_body]
pub(crate) fn arena_append(arena: &mut Arena<usize>, parent: usize, child: usize)
    requires
        can_adopt(arena_nodes(*old(arena)), parent, child),
    ensures
        arena_nodes(*final(arena)) == arena_nodes(*old(arena)).insert(
            parent,
            with_child(arena_nodes(*old(arena))[parent], child),
        ),
{
    let p = arena.get_node_id_at(NonZeroUsize::new(parent).unwrap()).unwrap();
    let c = arena.get_node_id_at(NonZeroUsize::new(child).unwrap()).unwrap();
    p.append(c, arena);
}

/// `NodeId::children` of `indextree`: the indices of the children of the
/// node `id`, first child first. `Arena::get_node_id_at` turns the index into
/// the arena's own name for the node, and the conversion of `indextree` from
/// that name to `usize` gives the index of each child.
#[verifier::external_body]
pub(crate) fn arena_children(arena: &Arena<usize>, id: usize) -> (children: Vec<usize>)
    requires
        arena_nodes(*arena).contains_key(id),
    ensures
        children@ == arena_nodes(*arena)[id].1,
{
    let node = arena.get_node_id_at(NonZeroUsize::new(id).unwrap()).unwrap();
    node.children(arena).map(usize::from).collect()
}

/// `Node::get` of `indextree`, on the node that `Arena::get` finds: the
/// datum of the node `id`. `Arena::get_node_id_at` turns the index into the
/// arena's own name for the node.
#[verifier::external_body]
pub(crate) fn arena_data(arena: &Arena<usize>, id: usize) -> (data: usize)
    requires
        arena_nodes(*arena).contains_key(id),
    ensures
        data == arena_nodes(*arena)[id].0,
{
    let node = arena.get_node_id_at(NonZeroUsize::new(id).unwrap()).unwrap();
    *arena.get(node).unwrap().get()
}

/// A syntax tree. Its nodes live in an arena; the datum of a node is the
/// index of its token in `tokens`, and `root` is the index of the root in the
/// arena.
#[derive(Debug)]
pub struct Ast {
    pub arena: Arena<usize>,
    pub tokens: Vec<Token>,
    pub root: usize,
}

impl Ast {
    /// The nodes of the tree; see [`arena_nodes`].
    pub open spec fn nodes(&self) -> Map<usize, (usize, Seq<usize>)> {
        arena_nodes(self.arena)
    }

    /// Whether `id` is a node of the tree.
    pub open spec fn has(&self, id: usize) -> bool {
        self.nodes().contains_key(id)
    }

    /// The children of the node `id`, first child first.
    pub open spec fn children(&self, id: usize) -> Seq<usize> {
        self.nodes()[id].1
    }

    /// The index in `tokens` of the token of the node `id`.
    pub open spec fn datum(&self, id: usize) -> usize {
        self.nodes()[id].0
    }

    /// The token of the node `id`.
    pub open spec fn token(&self, id: usize) -> Token {
        self.tokens@[self.datum(id) as int]
    }

    /// The kind of the token of the node `id`.
    pub open spec fn kind(&self, id: usize) -> TokenType {
        self.token(id).typ
    }

    /// Whether the `k`th child of the node `id` is a node whose token came
    /// after that of `id`.
    pub open spec fn child_follows(&self, id: usize, k: int) -> bool {
        self.has(self.children(id)[k]) && self.datum(id) < self.datum(self.children(id)[k])
    }

    /// The tree is well formed: it has its root, every node has its token,
    /// and the children of a node are nodes whose tokens came after the
    /// node's own.
    pub open spec fn wf(&self) -> bool {
        &&& self.has(self.root)
        &&& forall|id: usize| self.has(id) ==> #[trigger] self.datum(id) < self.tokens@.len()
        &&& forall|id: usize, k: int|
            self.has(id) && 0 <= k < self.children(id).len() ==> #[trigger] self.child_follows(
                id,
                k,
            )
    }

    /// Whether `n` is the `k`th child of the node `p`.
    pub open spec fn is_child(&self, p: usize, k: int, n: usize) -> bool {
        self.has(p) && 0 <= k < self.children(p).len() && self.children(p)[k] == n
    }

    /// The nodes form a tree below the root: they are finitely many, the
    /// root has the first token, no two nodes have the same token, and every
    /// node but the root is a child of one node, at one place.
    pub open spec fn tree(&self) -> bool {
        &&& self.nodes().dom().finite()
        &&& self.datum(self.root) == 0
        &&& forall|a: usize, b: usize|
            self.has(a) && self.has(b) && #[trigger] self.datum(a) == #[trigger] self.datum(b)
                ==> a == b
        &&& forall|n: usize|
            #[trigger] self.has(n) && n != self.root ==> exists|p: usize, k: int|
                self.is_child(p, k, n)
        &&& forall|p: usize, k: int, q: usize, j: int, n: usize|
            #[trigger] self.is_child(p, k, n) && #[trigger] self.is_child(q, j, n) ==> p == q && k
                == j
    }

    /// Whether the node `id` is as the parser builds nodes: the root is the
    /// one `NOOP` that stands above everything, no other node holds a closing
    /// parenthesis or the end of the source, and only the root and opening
    /// parentheses have children.
    pub open spec fn node_shaped(&self, id: usize) -> bool {
        if id == self.root {
            self.kind(id) == TokenType::NOOP
        } else {
            &&& self.kind(id) != TokenType::RIGHTPAREN
            &&& self.kind(id) != TokenType::EOF
            &&& self.children(id).len() > 0 ==> self.kind(id) == TokenType::LEFTPAREN
        }
    }

    /// Every node is as the parser builds nodes; see [`Ast::node_shaped`].
    pub open spec fn shaped(&self) -> bool {
        forall|id: usize| self.has(id) ==> #[trigger] self.node_shaped(id)
    }

    /// Whether the tree `self` is the tree `before` with more tokens and
    /// nodes: what `before` held, it holds too, where it was.
    pub open spec fn extends(&self, before: &Ast) -> bool {
        &&& self.root == before.root
        &&& before.tokens@.len() <= self.tokens@.len()
        &&& self.tokens@.take(before.tokens@.len() as int) == before.tokens@
        &&& forall|id: usize| #[trigger]
            before.has(id) ==> self.has(id) && self.datum(id) == before.datum(id)
    }

    /// A tree that is its root alone, with `token` as the root's token.
    pub fn new(token: Token) -> (tree: Ast)
        ensures
            tree.wf(),
            tree.tree(),
            tree.tokens@ == seq![token],
            tree.nodes() == no_nodes().insert(tree.root, leaf(0)),
    {
        let mut arena = arena_new();
        let mut tokens: Vec<Token> = Vec::new();
        tokens.push(token);
        let root = arena_new_node(&mut arena, 0);
        let tree = Ast { arena, tokens, root };
        assert(tree.tokens@ =~= seq![token]);
        assert(tree.children(root) =~= Seq::<usize>::empty());
        assert(tree.nodes().dom() =~= Set::<usize>::empty().insert(root));
        tree
    }

    /// Adds a node with the token `token` as the last child of `parent`, and
    /// returns its index in the arena.
    pub fn add(&mut self, parent: usize, token: Token) -> (id: usize)
        requires
            old(self).wf(),
            old(self).has(parent),
        ensures
            final(self).wf(),
            old(self).tree() ==> final(self).tree(),
            !old(self).has(id),
            final(self).root == old(self).root,
            final(self).tokens@ == old(self).tokens@.push(token),
            final(self).nodes() == old(self).nodes().insert(
                id,
                leaf(old(self).tokens.len()),
            ).insert(parent, with_child(old(self).nodes()[parent], id)),
    {
        let datum: usize = self.tokens.len();
        self.tokens.push(token);
        let id = arena_new_node(&mut self.arena, datum);
        let ghost grown = self.nodes();
        proof {
            assert(id != parent);
            assert forall|n: usize| grown.contains_key(n) implies !(#[trigger] grown[n]).1.contains(
                id,
            ) by {
                if n != id && grown[n].1.contains(id) {
                    let k = choose|k: int| 0 <= k < grown[n].1.len() && grown[n].1[k] == id;
                    assert(old(self).child_follows(n, k));
                }
            }
        }
        arena_append(&mut self.arena, parent, id);
        proof {
            let before = old(self).nodes();
            let now = self.nodes();
            assert(now == grown.insert(parent, with_child(grown[parent], id)));
            assert(grown == before.insert(id, leaf(datum)));
            assert(grown[parent] == before[parent]);
            assert(old(self).datum(parent) < old(self).tokens@.len());
            assert forall|n: usize| self.has(n) implies #[trigger] self.datum(n)
                < self.tokens@.len() by {
                if n != id {
                    assert(old(self).has(n));
                    assert(self.datum(n) == old(self).datum(n));
                }
            }
            assert forall|n: usize, k: int|
                self.has(n) && 0 <= k < self.children(n).len() implies #[trigger] self.child_follows(
                n,
                k,
            ) by {
                let c = self.children(n)[k];
                if n == id {
                    assert(self.children(n) == leaf(datum).1);
                } else if n == parent {
                    if k < before[parent].1.len() {
                        assert(old(self).child_follows(parent, k));
                        assert(c == before[parent].1[k]);
                        assert(c != id);
                        assert(self.datum(c) == old(self).datum(c));
                    } else {
                        assert(c == id);
                    }
                } else {
                    assert(old(self).has(n));
                    assert(self.children(n) == old(self).children(n));
                    assert(old(self).child_follows(n, k));
                    assert(c != id);
                    assert(self.datum(c) == old(self).datum(c));
                }
            }
            if old(self).tree() {
                let last = before[parent].1.len() as int;
                assert(now.dom() =~= before.dom().insert(id));
                assert(self.is_child(parent, last, id));
                assert forall|a: usize, b: usize|
                    self.has(a) && self.has(b) && #[trigger] self.datum(a) == #[trigger] self.datum(
                        b,
                    ) implies a == b by {
                    if a != id {
                        assert(old(self).datum(a) < old(self).tokens@.len());
                    }
                    if b != id {
                        assert(old(self).datum(b) < old(self).tokens@.len());
                    }
                    if a != id && b != id {
                        assert(old(self).datum(a) == old(self).datum(b));
                    }
                }
                assert forall|n: usize| #[trigger] self.has(n) && n != self.root implies exists|
                    p: usize,
                    k: int,
                | self.is_child(p, k, n) by {
                    if n != id {
                        assert(old(self).has(n));
                        let (p, k) = choose|p: usize, k: int| old(self).is_child(p, k, n);
                        assert(self.is_child(p, k, n));
                    }
                }
                assert forall|p: usize, k: int, q: usize, j: int, n: usize| #[trigger]
                    self.is_child(p, k, n) && #[trigger] self.is_child(q, j, n) implies p == q && k
                    == j by {
                    if n == id {
                        if p != parent || k != last {
                            assert(old(self).child_follows(p, k));
                        }
                        if q != parent || j != last {
                            assert(old(self).child_follows(q, j));
                        }
                    } else {
                        assert(p != id && q != id);
                        assert(old(self).is_child(p, k, n));
                        assert(old(self).is_child(q, j, n));
                    }
                }
            }
        }
        id
    }

    /// Adds `token` to the tokens of the tree without a node for it. The
    /// nodes stay as they are.
    pub fn note(&mut self, token: Token)
        requires
            old(self).wf(),
        ensures
            final(self).wf(),
            old(self).tree() ==> final(self).tree(),
            final(self).root == old(self).root,
            final(self).tokens@ == old(self).tokens@.push(token),
            final(self).nodes() == old(self).nodes(),
    {
        self.tokens.push(token);
        proof {
            if old(self).tree() {
                assert forall|p: usize, k: int, n: usize|
                    self.is_child(p, k, n) == old(self).is_child(p, k, n) by {}
                assert forall|n: usize| #[trigger] self.has(n) && n != self.root implies exists|
                    p: usize,
                    k: int,
                | self.is_child(p, k, n) by {
                    assert(old(self).has(n) && n != old(self).root);
                    let (p, k) = choose|p: usize, k: int| old(self).is_child(p, k, n);
                    assert(self.is_child(p, k, n));
                }
                assert forall|p: usize, k: int, q: usize, j: int, n: usize| #[trigger]
                    self.is_child(p, k, n) && #[trigger] self.is_child(q, j, n) implies p == q && k
                    == j by {
                    assert(old(self).is_child(p, k, n));
                    assert(old(self).is_child(q, j, n));
                }
                assert forall|a: usize, b: usize|
                    self.has(a) && self.has(b) && #[trigger] self.datum(a) == #[trigger] self.datum(
                        b,
                    ) implies a == b by {
                    assert(old(self).datum(a) == old(self).datum(b));
                }
            }
            assert forall|id: usize| self.has(id) implies #[trigger] self.datum(id)
                < self.tokens@.len() by {
                assert(old(self).datum(id) < old(self).tokens@.len());
            }
            assert forall|n: usize, k: int|
                self.has(n) && 0 <= k < self.children(n).len() implies #[trigger] self.child_follows(
                n,
                k,
            ) by {
                assert(old(self).child_follows(n, k));
            }
        }
    }

    /// The token of the node `id`.
    pub fn token_of(&self, id: usize) -> (token: &Token)
        requires
            self.wf(),
            self.has(id),
        ensures
            *token == self.token(id),
    {
        &self.tokens[arena_data(&self.arena, id)]
    }

    /// The children of the node `id`, first child first.
    pub fn children_of(&self, id: usize) -> (children: Vec<usize>)
        requires
            self.has(id),
        ensures
            children@ == self.children(id),
    {
        arena_children(&self.arena, id)
    }
}

} // verus!
