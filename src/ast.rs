use vstd::prelude::*;
use vstd::set_lib::{lemma_int_range, set_int_range};

use crate::source::Loc;

verus! {

/// The kinds of syntax node that the rules look at; every other kind is `Other`.
#[derive(Clone, Copy, Debug, PartialEq, Eq, Structural)]
pub enum NodeKind {
    And,
    Args,
    Array,
    Block,
    BlockPass,
    Cbase,
    Const,
    Def,
    If,
    Index,
    Or,
    Preexe,
    RegOpt,
    Regexp,
    Send,
    Str,
    Other,
}

/// One node of a syntax tree, with the byte ranges of its parts.
///
/// `name` is a method's name for a call or a definition, a constant's name, or
/// the value of a string literal. `has_receiver` says whether a call has a
/// receiver, or a constant a scope: it is then the first child.
pub struct Node {
    pub kind: NodeKind,
    pub expression: Loc,
    pub name: String,
    pub has_receiver: bool,
    pub selector: Option<Loc>,
    pub keyword: Option<Loc>,
    pub name_loc: Option<Loc>,
    pub begin: Option<Loc>,
    pub end: Option<Loc>,
    pub else_loc: Option<Loc>,
    pub children: Vec<usize>,
}

impl Node {
    /// A node with no name, no optional parts and no children.
    pub fn new(kind: NodeKind, expression: Loc) -> (r: Node)
        ensures
            r.kind == kind,
            r.expression == expression,
            r.kids().len() == 0,
            !r.has_receiver,
    {
        Node {
            kind,
            expression,
            name: String::new(),
            has_receiver: false,
            selector: None,
            keyword: None,
            name_loc: None,
            begin: None,
            end: None,
            else_loc: None,
            children: Vec::new(),
        }
    }

    pub open spec fn kids(&self) -> Seq<usize> {
        self.children@
    }

    /// The indices of the children, in document order.
    pub fn children(&self) -> (r: &Vec<usize>)
        ensures
            r@ == self.kids(),
    {
        &self.children
    }
}

/// A syntax tree held as an arena: node 0 is the root, and every other node is
/// the child of exactly one node with a smaller index.
pub struct SyntaxTree {
    nodes: Vec<Node>,
}

impl SyntaxTree {
    pub closed spec fn len(&self) -> int {
        self.nodes@.len() as int
    }

    pub closed spec fn node_at(&self, i: int) -> Node {
        self.nodes@[i]
    }

    /// Node `j` is the `k`-th child of node `p`.
    pub closed spec fn is_child(&self, p: int, k: int, j: int) -> bool {
        0 <= p < self.len() && 0 <= k < self.nodes@[p].kids().len() && self.nodes@[p].kids()[k] as int == j
    }

    pub closed spec fn wf(&self) -> bool {
        &&& forall|p: int, k: int|
            0 <= p < self.len() && 0 <= k < self.nodes@[p].kids().len() ==> p < #[trigger] self.nodes@[p].kids()[k]
                < self.len()
        &&& forall|p1: int, k1: int, p2: int, k2: int, j: int|
            #[trigger] self.is_child(p1, k1, j) && #[trigger] self.is_child(p2, k2, j) ==> p1 == p2 && k1 == k2
        &&& forall|j: int| 0 < j < self.len() ==> #[trigger] self.has_parent(j)
    }

    /// Node `j` is the child of some node.
    pub closed spec fn has_parent(&self, j: int) -> bool {
        exists|p: int, k: int| #[trigger] self.is_child(p, k, j)
    }

    /// A tree that holds only its root.
    pub fn new(root: Node) -> (r: SyntaxTree)
        requires
            root.kids().len() == 0,
        ensures
            r.wf(),
            r.len() == 1,
    {
        SyntaxTree { nodes: vec![root] }
    }

    /// Adds `node` as the last child of `parent`, and gives its index.
    pub fn add_node(&mut self, parent: usize, node: Node) -> (r: usize)
        requires
            old(self).wf(),
            parent < old(self).len(),
            node.kids().len() == 0,
        ensures
            final(self).wf(),
            r == old(self).len(),
            final(self).len() == old(self).len() + 1,
            forall|i: int| 0 <= i < old(self).len() && i != parent ==> final(self).node_at(i) == old(self).node_at(i),
    {
        let n = self.nodes.len();
        let ghost old_tree = *self;
        self.nodes.push(node);
        let mut p = self.nodes.remove(parent);
        p.children.push(n);
        self.nodes.insert(parent, p);
        assert forall|q: int, k: int|
            0 <= q < self.len() && 0 <= k < self.nodes@[q].kids().len() implies q < #[trigger] self.nodes@[q].kids()[k]
                < self.len() by {
            if q != parent {
                assert(old_tree.nodes@[q].kids()[k] < n);
            } else if k < old_tree.nodes@[q].kids().len() {
                assert(old_tree.nodes@[q].kids()[k] < n);
            }
        }
        assert forall|p1: int, k1: int, p2: int, k2: int, j: int|
            #[trigger] self.is_child(p1, k1, j) && #[trigger] self.is_child(p2, k2, j) implies p1 == p2 && k1 == k2 by {
            if j == n {
                if p1 != parent || k1 != old_tree.nodes@[parent as int].kids().len() {
                    assert(old_tree.is_child(p1, k1, j));
                }
                if p2 != parent || k2 != old_tree.nodes@[parent as int].kids().len() {
                    assert(old_tree.is_child(p2, k2, j));
                }
            } else {
                assert(old_tree.is_child(p1, k1, j));
                assert(old_tree.is_child(p2, k2, j));
            }
        }
        assert forall|j: int| 0 < j < self.len() implies #[trigger] self.has_parent(j) by {
            if j == n {
                assert(self.is_child(parent as int, old_tree.nodes@[parent as int].kids().len() as int, j));
            } else {
                assert(old_tree.has_parent(j));
                let (q, k) = choose|q: int, k: int| #[trigger] old_tree.is_child(q, k, j);
                assert(self.is_child(q, k, j));
            }
        }
        n
    }

    /// The children of a node come after it in the arena.
    pub proof fn lemma_children_after(&self, p: int)
        requires
            self.wf(),
            0 <= p < self.len(),
        ensures
            forall|k: int|
                0 <= k < self.node_at(p).kids().len() ==> p < #[trigger] self.node_at(p).kids()[k] < self.len(),
    {
    }

    /// The node at index `i`.
    pub fn node(&self, i: usize) -> (r: &Node)
        requires
            i < self.len(),
        ensures
            *r == self.node_at(i as int),
    {
        &self.nodes[i]
    }

    pub fn node_count(&self) -> (r: usize)
        ensures
            r == self.len(),
    {
        self.nodes.len()
    }
}

/// For each node of a tree, the index of its parent.
pub struct ParentIndex {
    parents: Vec<Option<usize>>,
}

impl ParentIndex {
    /// The number of nodes that the index covers.
    pub closed spec fn size(&self) -> int {
        self.parents@.len() as int
    }

    pub closed spec fn parent_of(&self, j: int) -> Option<usize> {
        if 0 <= j < self.parents@.len() {
            self.parents@[j]
        } else {
            None
        }
    }

    /// The nodes that have an entry.
    pub closed spec fn entries(&self) -> Set<int> {
        Set::new(|j: int| 0 <= j < self.parents@.len() && self.parents@[j] is Some)
    }

    /// Walks `tree` once and records the parent of each node.
    pub fn build(tree: &SyntaxTree) -> (r: ParentIndex)
        requires
            tree.wf(),
        ensures
            r.size() == tree.len(),
            forall|j: int, p: int|
                #![trigger r.parent_of(j), tree.node_at(p)]
                0 <= p < tree.len() ==> (r.parent_of(j) == Some(p as usize) <==> exists|k: int|
                    #[trigger] tree.is_child(p, k, j)),
            forall|j: int| 0 < j < tree.len() ==> #[trigger] r.parent_of(j) is Some,
            r.parent_of(0) is None,
    {
        let n = tree.node_count();
        let mut parents: Vec<Option<usize>> = Vec::new();
        let mut i: usize = 0;
        while i < n
            invariant
                i <= n == tree.len(),
                parents@.len() == i,
                forall|j: int| 0 <= j < i ==> parents@[j] is None,
            decreases n - i,
        {
            parents.push(None);
            i = i + 1;
        }
        let mut p: usize = 0;
        while p < n
            invariant
                tree.wf(),
                p <= n == tree.len(),
                parents@.len() == n,
                forall|j: int|
                    0 <= j < n ==> (#[trigger] parents@[j] matches Some(q) ==> q < p && exists|k: int|
                        tree.is_child(q as int, k, j)),
                forall|j: int, q: int, k: int|
                    0 <= q < p && #[trigger] tree.is_child(q, k, j) ==> parents@[j] == Some(q as usize),
            decreases n - p,
        {
            let kids = tree.node(p).children();
            let mut k: usize = 0;
            while k < kids.len()
                invariant
                    tree.wf(),
                    p < n == tree.len(),
                    kids@ == tree.node_at(p as int).kids(),
                    k <= kids@.len(),
                    parents@.len() == n,
                    forall|j: int|
                        0 <= j < n ==> (#[trigger] parents@[j] matches Some(q) ==> q <= p && exists|kk: int|
                            tree.is_child(q as int, kk, j)),
                    forall|j: int, q: int, kk: int|
                        0 <= q < p && #[trigger] tree.is_child(q, kk, j) ==> parents@[j] == Some(q as usize),
                    forall|j: int, kk: int|
                        0 <= kk < k && #[trigger] tree.is_child(p as int, kk, j) ==> parents@[j] == Some(p),
                decreases kids@.len() - k,
            {
                let c = kids[k];
                assert(tree.is_child(p as int, k as int, c as int));
                assert(p < tree.node_at(p as int).kids()[k as int]);
                let ghost before = parents@;
                parents.set(c, Some(p));
                assert forall|j: int, q: int, kk: int|
                    0 <= q < p && #[trigger] tree.is_child(q, kk, j) implies parents@[j] == Some(q as usize) by {
                    if j == c {
                        assert(tree.is_child(p as int, k as int, j));
                    }
                }
                k = k + 1;
            }
            p = p + 1;
        }
        let r = ParentIndex { parents };
        assert forall|j: int, q: int|
            #![trigger r.parent_of(j), tree.node_at(q)]
            0 <= q < tree.len() implies (r.parent_of(j) == Some(q as usize) <==> exists|k: int|
                #[trigger] tree.is_child(q, k, j)) by {
            if exists|k: int| #[trigger] tree.is_child(q, k, j) {
                let k = choose|k: int| #[trigger] tree.is_child(q, k, j);
                assert(0 <= j < n);
            }
        }
        assert forall|j: int| 0 < j < tree.len() implies #[trigger] r.parent_of(j) is Some by {
            assert(tree.has_parent(j));
            let (q, k) = choose|q: int, k: int| #[trigger] tree.is_child(q, k, j);
        }
        proof {
            if n > 0 && parents@[0] is Some {
                let q = parents@[0]->0;
                assert(exists|k: int| tree.is_child(q as int, k, 0));
                let k = choose|k: int| tree.is_child(q as int, k, 0);
                assert(q < tree.nodes@[q as int].kids()[k]);
            }
        }
        r
    }

    /// The parent of node `j`, if it has one.
    pub fn parent(&self, j: usize) -> (r: Option<usize>)
        ensures
            r == self.parent_of(j as int),
    {
        if j < self.parents.len() {
            self.parents[j]
        } else {
            None
        }
    }
}

/// The parent index of a tree of `n` nodes has `n - 1` entries: every node but
/// the root has a parent, and the root has none.
pub proof fn lemma_parent_index_complete(tree: &SyntaxTree, index: &ParentIndex)
    requires
        tree.wf(),
        tree.len() > 0,
        index.size() == tree.len(),
        forall|j: int| 0 < j < tree.len() ==> #[trigger] index.parent_of(j) is Some,
        index.parent_of(0) is None,
    ensures
        index.entries().len() == tree.len() - 1,
        index.entries().finite(),
{
    assert forall|j: int| #[trigger] index.entries().contains(j) <==> set_int_range(1, tree.len()).contains(j) by {
        if 0 < j < tree.len() {
            assert(index.parent_of(j) is Some);
        }
    }
    assert(index.entries() =~= set_int_range(1, tree.len()));
    lemma_int_range(1, tree.len());
}

} // verus!
