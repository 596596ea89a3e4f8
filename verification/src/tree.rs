//! A binary search tree of integers whose nodes know their parent. The
//! nodes live in one vector and refer to each other by position; the root
//! is at position 0.

use vstd::prelude::*;

verus! {

/// A node: its element and the positions of its parent and children.
#[derive(Clone, Copy, Debug, PartialEq, Eq, Structural)]
pub struct Node {
    pub elem: i32,
    pub parent: Option<usize>,
    pub left: Option<usize>,
    pub right: Option<usize>,
}

/// A binary tree as a value.
pub enum Shape {
    Empty,
    Branch(i32, Box<Shape>, Box<Shape>),
}

/// `t` with `x` added: smaller elements go left, the others right.
pub open spec fn insert_shape(t: Shape, x: i32) -> Shape
    decreases t,
{
    match t {
        Shape::Empty => Shape::Branch(x, Box::new(Shape::Empty), Box::new(Shape::Empty)),
        Shape::Branch(e, l, r) => if x < e {
            Shape::Branch(e, Box::new(insert_shape(*l, x)), r)
        } else {
            Shape::Branch(e, l, Box::new(insert_shape(*r, x)))
        },
    }
}

/// The elements of the nodes of `t` that have no children, left to right.
pub open spec fn leaves(t: Shape) -> Seq<i32>
    decreases t,
{
    match t {
        Shape::Empty => seq![],
        Shape::Branch(e, l, r) => if *l == Shape::Empty && *r == Shape::Empty {
            seq![e]
        } else {
            leaves(*l) + leaves(*r)
        },
    }
}

/// The elements of `t`, left subtree first, then the node, then the right
/// subtree.
pub open spec fn in_order(t: Shape) -> Seq<i32>
    decreases t,
{
    match t {
        Shape::Empty => seq![],
        Shape::Branch(e, l, r) => in_order(*l) + seq![e] + in_order(*r),
    }
}

/// Every node's left subtree holds only smaller elements and its right
/// subtree no smaller ones.
pub open spec fn is_search_tree(t: Shape) -> bool
    decreases t,
{
    match t {
        Shape::Empty => true,
        Shape::Branch(e, l, r) => {
            &&& is_search_tree(*l)
            &&& is_search_tree(*r)
            &&& forall|i: int| 0 <= i < in_order(*l).len() ==> in_order(*l)[i] < e
            &&& forall|i: int| 0 <= i < in_order(*r).len() ==> in_order(*r)[i] >= e
        },
    }
}

/// `c` is a valid child link of node `i`: a later node whose parent is `i`.
pub open spec fn child_ok(nodes: Seq<Node>, i: int, c: Option<usize>) -> bool {
    match c {
        Some(c) => i < c < nodes.len() && nodes[c as int].parent == Some(i as usize),
        None => true,
    }
}

/// The links of node `i` fit a tree: its children are later nodes that
/// name it as parent, and a node other than the root hangs under an earlier
/// node as its left or right child.
pub open spec fn node_ok(nodes: Seq<Node>, i: int) -> bool {
    &&& child_ok(nodes, i, nodes[i].left)
    &&& child_ok(nodes, i, nodes[i].right)
    &&& (nodes[i].left is Some && nodes[i].right is Some ==> nodes[i].left != nodes[i].right)
    &&& (i > 0 ==> match nodes[i].parent {
        Some(p) => p < i && (nodes[p as int].left == Some(i as usize) || nodes[p as int].right
            == Some(i as usize)),
        None => false,
    })
}

/// The links of `nodes` make a tree rooted at position 0.
pub open spec fn wf_nodes(nodes: Seq<Node>) -> bool {
    &&& nodes.len() > 0
    &&& nodes[0].parent is None
    &&& forall|i: int| 0 <= i < nodes.len() ==> #[trigger] node_ok(nodes, i)
}

/// The subtree of `nodes` under the child link `c` of node `i`.
pub open spec fn child_shape(nodes: Seq<Node>, i: int, c: Option<usize>) -> Shape
    decreases nodes.len() - i, 0int,
{
    match c {
        Some(c) => if 0 <= i < c < nodes.len() {
            shape_at(nodes, c as int)
        } else {
            Shape::Empty
        },
        None => Shape::Empty,
    }
}

/// The subtree of `nodes` rooted at position `i`.
pub open spec fn shape_at(nodes: Seq<Node>, i: int) -> Shape
    decreases nodes.len() - i, 1int,
{
    if 0 <= i < nodes.len() {
        Shape::Branch(
            nodes[i].elem,
            Box::new(child_shape(nodes, i, nodes[i].left)),
            Box::new(child_shape(nodes, i, nodes[i].right)),
        )
    } else {
        Shape::Empty
    }
}

/// `k` is `a` or lies below it.
pub open spec fn descends(nodes: Seq<Node>, k: int, a: int) -> bool
    decreases k,
{
    if k == a {
        true
    } else if 0 <= k < nodes.len() {
        match nodes[k].parent {
            Some(p) => if p < k {
                descends(nodes, p as int, a)
            } else {
                false
            },
            None => false,
        }
    } else {
        false
    }
}

proof fn lemma_descends_below(nodes: Seq<Node>, k: int, a: int)
    requires
        descends(nodes, k, a),
    ensures
        a <= k,
    decreases k,
{
    if k != a {
        let p = nodes[k].parent->0;
        lemma_descends_below(nodes, p as int, a);
    }
}

proof fn lemma_descends_through_child(nodes: Seq<Node>, k: int, c: int, j: int)
    requires
        descends(nodes, k, c),
        0 <= j < c < nodes.len(),
        c <= usize::MAX,
        nodes[c].parent == Some(j as usize),
    ensures
        descends(nodes, k, j),
    decreases k,
{
    if k != c {
        let p = nodes[k].parent->0;
        assert(p < k && descends(nodes, p as int, c));
        lemma_descends_through_child(nodes, p as int, c, j);
        lemma_descends_below(nodes, p as int, c);
        assert(descends(nodes, p as int, j));
        if k != j {
            assert(0 <= k < nodes.len());
            assert(descends(nodes, k, j));
        }
    } else {
        let p = nodes[k].parent->0;
        assert(p as int == j);
        assert(descends(nodes, p as int, j));
    }
}

proof fn lemma_descends_linear(nodes: Seq<Node>, k: int, a: int, b: int)
    requires
        descends(nodes, k, a),
        descends(nodes, k, b),
    ensures
        descends(nodes, a, b) || descends(nodes, b, a),
    decreases k,
{
    if k != a && k != b {
        let p = nodes[k].parent->0;
        lemma_descends_linear(nodes, p as int, a, b);
    }
}

proof fn lemma_descends_same_parents(a: Seq<Node>, b: Seq<Node>, k: int, x: int)
    requires
        0 <= k < a.len() <= b.len(),
        forall|i: int| 0 <= i < a.len() ==> #[trigger] b[i].parent == a[i].parent,
    ensures
        descends(b, k, x) == descends(a, k, x),
    decreases k,
{
    if k != x {
        match a[k].parent {
            Some(p) => if p < k {
                lemma_descends_same_parents(a, b, p as int, x);
            },
            None => {},
        }
    }
}

proof fn lemma_shape_frame(a: Seq<Node>, b: Seq<Node>, j: int)
    requires
        wf_nodes(a),
        wf_nodes(b),
        a.len() <= b.len(),
        0 <= j < a.len(),
        forall|k: int| 0 <= k < b.len() && #[trigger] descends(b, k, j) ==> k < a.len() && b[k] == a[k],
    ensures
        shape_at(b, j) == shape_at(a, j),
    decreases b.len() - j,
{
    assert(descends(b, j, j));
    let n = b[j];
    if let Some(c) = n.left {
        assert(node_ok(b, j));
        assert(descends(b, c as int, j));
        assert forall|k: int| 0 <= k < b.len() && #[trigger] descends(b, k, c as int) implies k
            < a.len() && b[k] == a[k] by {
            lemma_descends_through_child(b, k, c as int, j);
        }
        lemma_shape_frame(a, b, c as int);
    }
    if let Some(c) = n.right {
        assert(node_ok(b, j));
        assert(descends(b, c as int, j));
        assert forall|k: int| 0 <= k < b.len() && #[trigger] descends(b, k, c as int) implies k
            < a.len() && b[k] == a[k] by {
            lemma_descends_through_child(b, k, c as int, j);
        }
        lemma_shape_frame(a, b, c as int);
    }
}

/// The tree.
pub struct Tree {
    nodes: Vec<Node>,
}

impl Tree {
    /// The links make a tree rooted at position 0.
    pub closed spec fn wf(&self) -> bool {
        wf_nodes(self.nodes@)
    }

    /// The tree as a value.
    pub closed spec fn shape(&self) -> Shape {
        shape_at(self.nodes@, 0)
    }

    /// The subtree under the node at `i`.
    pub closed spec fn subtree(&self, i: int) -> Shape {
        shape_at(self.nodes@, i)
    }

    /// The nodes by position.
    pub closed spec fn node_seq(&self) -> Seq<Node> {
        self.nodes@
    }

    /// A well-formed tree has a root, at position 0, and the root has no
    /// parent.
    pub proof fn lemma_root(&self)
        requires
            self.wf(),
        ensures
            self.node_seq().len() > 0,
            self.node_seq()[0].parent is None,
    {
    }

    /// A tree of one element.
    pub fn new(elem: i32) -> (r: Self)
        ensures
            r.wf(),
            r.node_seq() == seq![Node::new_spec(elem)],
            r.shape() == Shape::Branch(elem, Box::new(Shape::Empty), Box::new(Shape::Empty)),
            is_search_tree(r.shape()),
    {
        let mut nodes = Vec::new();
        nodes.push(Node::new(elem));
        let r = Tree { nodes };
        proof {
            assert(node_ok(r.nodes@, 0));
            assert(r.shape() == Shape::Branch(elem, Box::new(Shape::Empty), Box::new(Shape::Empty)));
            assert(in_order(Shape::Empty).len() == 0);
            assert(is_search_tree(Shape::Empty));
        }
        r
    }

    /// Adds an element: smaller ones go left, the others right.
    pub fn push(&mut self, elem: i32)
        requires
            old(self).wf(),
            old(self).node_seq().len() < usize::MAX,
        ensures
            final(self).wf(),
            final(self).shape() == insert_shape(old(self).shape(), elem),
            is_search_tree(old(self).shape()) ==> is_search_tree(final(self).shape()),
            final(self).node_seq().len() == old(self).node_seq().len() + 1,
            forall|k: int|
                0 <= k < old(self).node_seq().len() ==> (#[trigger] final(self).node_seq()[k]).parent
                    == old(self).node_seq()[k].parent,
    {
        Node::push(self, 0, elem);
        proof {
            if is_search_tree(old(self).shape()) {
                lemma_insert_keeps_search_tree(old(self).shape(), elem);
            }
        }
    }

    /// What the descent to the left from the root ends with; the descent
    /// always ends on a node without a left child, and gives nothing.
    pub fn get_left(&self) -> (r: Option<usize>)
        requires
            self.wf(),
        ensures
            r is None,
    {
        Node::get_left(self, 0)
    }

    /// The elements of the nodes without children, left to right.
    pub fn get_leaves(&self) -> (r: Vec<i32>)
        requires
            self.wf(),
        ensures
            r@ == leaves(self.shape()),
    {
        Node::get_leaves(self, 0)
    }

    /// How many nodes the tree has.
    pub fn len(&self) -> (r: usize)
        ensures
            r == self.node_seq().len(),
    {
        self.nodes.len()
    }

    /// The node at position `i`.
    pub fn node(&self, i: usize) -> (r: &Node)
        requires
            i < self.node_seq().len(),
        ensures
            *r == self.node_seq()[i as int],
    {
        &self.nodes[i]
    }
}

impl Node {
    /// The node holding `elem`, with no parent and no children.
    pub open spec fn new_spec(elem: i32) -> Node {
        Node { elem, parent: None, left: None, right: None }
    }

    /// A node with no parent and no children.
    pub fn new(elem: i32) -> (r: Self)
        ensures
            r == Node::new_spec(elem),
            r.elem == elem,
            r.parent is None,
            r.left is None,
            r.right is None,
    {
        Node { elem, parent: None, left: None, right: None }
    }

    /// The position of the node's parent; none for the root.
    pub fn get_parent(&self) -> (r: Option<usize>)
        ensures
            r == self.parent,
    {
        self.parent
    }

    /// The node's element.
    pub fn get_elem(&self) -> (r: i32)
        ensures
            r == self.elem,
    {
        self.elem
    }

    /// Adds `elem` to the subtree under the node at `at`, on the left when it
    /// is smaller than the node's element and on the right otherwise.
    pub fn push(tree: &mut Tree, at: usize, elem: i32)
        requires
            old(tree).wf(),
            at < old(tree).node_seq().len() < usize::MAX,
        ensures
            final(tree).wf(),
            final(tree).node_seq().len() == old(tree).node_seq().len() + 1,
            final(tree).subtree(at as int) == insert_shape(old(tree).subtree(at as int), elem),
            forall|k: int|
                0 <= k < old(tree).node_seq().len() ==> (#[trigger] final(tree).node_seq()[k]).parent
                    == old(tree).node_seq()[k].parent,
            forall|k: int|
                0 <= k < old(tree).node_seq().len() && !descends(old(tree).node_seq(), k, at as int)
                    ==> #[trigger] final(tree).node_seq()[k] == old(tree).node_seq()[k],
            ({
                let p = final(tree).node_seq()[old(tree).node_seq().len() as int].parent;
                p is Some && p->0 < old(tree).node_seq().len() && descends(
                    old(tree).node_seq(),
                    p->0 as int,
                    at as int,
                )
            }),
        decreases old(tree).node_seq().len() - at,
    {
        let ghost old_nodes = tree.nodes@;
        let n = tree.nodes.len();
        let node = tree.nodes[at];
        assert(node_ok(old_nodes, at as int));
        if elem < node.elem {
            match node.left {
                Some(c) => {
                    Node::push(tree, c, elem);
                    proof {
                        Self::lemma_after_child_push(old_nodes, tree.nodes@, at, c, elem, true);
                    }
                },
                None => {
                    let mut fresh = Node::new(elem);
                    fresh.parent = Some(at);
                    tree.nodes.push(fresh);
                    let mut updated = node;
                    updated.left = Some(n);
                    tree.nodes.set(at, updated);
                    proof {
                        Self::lemma_after_attach(old_nodes, tree.nodes@, at, elem, true);
                    }
                },
            }
        } else {
            match node.right {
                Some(c) => {
                    Node::push(tree, c, elem);
                    proof {
                        Self::lemma_after_child_push(old_nodes, tree.nodes@, at, c, elem, false);
                    }
                },
                None => {
                    let mut fresh = Node::new(elem);
                    fresh.parent = Some(at);
                    tree.nodes.push(fresh);
                    let mut updated = node;
                    updated.right = Some(n);
                    tree.nodes.set(at, updated);
                    proof {
                        Self::lemma_after_attach(old_nodes, tree.nodes@, at, elem, false);
                    }
                },
            }
        }
    }

    proof fn lemma_after_attach(a: Seq<Node>, b: Seq<Node>, at: usize, elem: i32, left: bool)
        requires
            wf_nodes(a),
            at < a.len() < usize::MAX,
            b.len() == a.len() + 1,
            b[a.len() as int] == (Node { elem, parent: Some(at), left: None, right: None }),
            left ==> a[at as int].left is None && b[at as int] == (Node {
                left: Some(a.len() as usize),
                ..a[at as int]
            }),
            !left ==> a[at as int].right is None && b[at as int] == (Node {
                right: Some(a.len() as usize),
                ..a[at as int]
            }),
            forall|k: int| 0 <= k < a.len() && k != at ==> #[trigger] b[k] == a[k],
        ensures
            wf_nodes(b),
            left ==> shape_at(b, at as int) == (match shape_at(a, at as int) {
                Shape::Branch(e, l, r) => Shape::Branch(e, Box::new(insert_shape(*l, elem)), r),
                Shape::Empty => Shape::Empty,
            }),
            !left ==> shape_at(b, at as int) == (match shape_at(a, at as int) {
                Shape::Branch(e, l, r) => Shape::Branch(e, l, Box::new(insert_shape(*r, elem))),
                Shape::Empty => Shape::Empty,
            }),
    {
        let n = a.len() as int;
        let ai = at as int;
        let node = a[ai];
        assert(node_ok(a, ai));
        assert(b[ai].parent == node.parent);
        assert(b[ai].elem == node.elem);
        assert forall|i: int| 0 <= i < b.len() implies #[trigger] node_ok(b, i) by {
            if i < n {
                assert(node_ok(a, i));
                if i > 0 {
                    let p = a[i].parent->0 as int;
                    if p == ai {
                        assert(node_ok(a, ai));
                    }
                }
            }
        }
        assert(wf_nodes(b));
        assert(shape_at(b, n) == Shape::Branch(elem, Box::new(Shape::Empty), Box::new(Shape::Empty)));
        assert(child_shape(b, ai, Some(a.len() as usize)) == shape_at(b, n));
        let other = if left { node.right } else { node.left };
        if let Some(c) = other {
            assert forall|k: int| 0 <= k < b.len() && #[trigger] descends(b, k, c as int) implies k
                < a.len() && b[k] == a[k] by {
                lemma_descends_below(b, k, c as int);
                if k == n {
                    assert(descends(b, ai, c as int));
                    lemma_descends_below(b, ai, c as int);
                }
            }
            lemma_shape_frame(a, b, c as int);
        }
        assert(child_shape(b, ai, other) == child_shape(a, ai, other));
        assert(child_shape(a, ai, None) == Shape::Empty);
        assert(shape_at(b, ai) == Shape::Branch(
            node.elem,
            Box::new(child_shape(b, ai, b[ai].left)),
            Box::new(child_shape(b, ai, b[ai].right)),
        ));
        assert(shape_at(a, ai) == Shape::Branch(
            node.elem,
            Box::new(child_shape(a, ai, node.left)),
            Box::new(child_shape(a, ai, node.right)),
        ));
    }

    proof fn lemma_sibling_frame(a: Seq<Node>, b: Seq<Node>, at: usize, c: usize, r: usize)
        requires
            wf_nodes(a),
            wf_nodes(b),
            b.len() == a.len() + 1,
            at < c < a.len(),
            at < r < a.len(),
            c != r,
            a[c as int].parent == Some(at),
            a[r as int].parent == Some(at),
            forall|k: int| 0 <= k < a.len() ==> (#[trigger] b[k]).parent == a[k].parent,
            forall|k: int| 0 <= k < a.len() && !descends(a, k, c as int) ==> #[trigger] b[k] == a[k],
            ({
                let p = b[a.len() as int].parent;
                p is Some && p->0 < a.len() && descends(a, p->0 as int, c as int)
            }),
        ensures
            shape_at(b, r as int) == shape_at(a, r as int),
    {
        let n = a.len() as int;
        let p = b[n].parent->0 as int;
        let (ai, ci, ri) = (at as int, c as int, r as int);
        assert forall|k: int| 0 <= k < b.len() && #[trigger] descends(b, k, ri) implies k < a.len()
            && b[k] == a[k] by {
            if k == n {
                assert(descends(b, p, ri));
                lemma_descends_same_parents(a, b, p, ri);
                lemma_descends_linear(a, p, ci, ri);
            } else {
                lemma_descends_below(b, k, ri);
                lemma_descends_same_parents(a, b, k, ri);
                if descends(a, k, ci) {
                    lemma_descends_linear(a, k, ci, ri);
                }
            }
            if descends(a, ci, ri) {
                assert(descends(a, ai, ri));
                lemma_descends_below(a, ai, ri);
            }
            if descends(a, ri, ci) {
                assert(descends(a, ai, ci));
                lemma_descends_below(a, ai, ci);
            }
        }
        lemma_shape_frame(a, b, ri);
    }

    proof fn lemma_after_child_push(a: Seq<Node>, b: Seq<Node>, at: usize, c: usize, elem: i32, left: bool)
        requires
            wf_nodes(a),
            wf_nodes(b),
            at < a.len(),
            b.len() == a.len() + 1,
            left ==> a[at as int].left == Some(c),
            !left ==> a[at as int].right == Some(c),
            shape_at(b, c as int) == insert_shape(shape_at(a, c as int), elem),
            forall|k: int| 0 <= k < a.len() ==> (#[trigger] b[k]).parent == a[k].parent,
            forall|k: int| 0 <= k < a.len() && !descends(a, k, c as int) ==> #[trigger] b[k] == a[k],
            ({
                let p = b[a.len() as int].parent;
                p is Some && p->0 < a.len() && descends(a, p->0 as int, c as int)
            }),
        ensures
            left ==> shape_at(b, at as int) == (match shape_at(a, at as int) {
                Shape::Branch(e, l, r) => Shape::Branch(e, Box::new(insert_shape(*l, elem)), r),
                Shape::Empty => Shape::Empty,
            }),
            !left ==> shape_at(b, at as int) == (match shape_at(a, at as int) {
                Shape::Branch(e, l, r) => Shape::Branch(e, l, Box::new(insert_shape(*r, elem))),
                Shape::Empty => Shape::Empty,
            }),
            forall|k: int| 0 <= k < a.len() && !descends(a, k, at as int) ==> #[trigger] b[k] == a[k],
            ({
                let p = b[a.len() as int].parent;
                p is Some && p->0 < a.len() && descends(a, p->0 as int, at as int)
            }),
    {
        let n = a.len() as int;
        let (ai, ci) = (at as int, c as int);
        let node = a[ai];
        assert(node_ok(a, ai));
        assert(ai < ci < a.len());
        if descends(a, ai, ci) {
            lemma_descends_below(a, ai, ci);
        }
        assert(b[ai] == node);
        assert forall|k: int| 0 <= k < a.len() && !descends(a, k, ai) implies #[trigger] b[k] == a[k] by {
            if descends(a, k, ci) {
                lemma_descends_through_child(a, k, ci, ai);
            }
        }
        let p = b[n].parent->0 as int;
        lemma_descends_through_child(a, p, ci, ai);
        let other = if left { node.right } else { node.left };
        if let Some(r) = other {
            Self::lemma_sibling_frame(a, b, at, c, r);
        }
        assert(child_shape(b, ai, other) == child_shape(a, ai, other));
        assert(child_shape(b, ai, Some(c)) == shape_at(b, ci));
        assert(child_shape(a, ai, Some(c)) == shape_at(a, ci));
        assert(shape_at(b, ai) == Shape::Branch(
            node.elem,
            Box::new(child_shape(b, ai, node.left)),
            Box::new(child_shape(b, ai, node.right)),
        ));
        assert(shape_at(a, ai) == Shape::Branch(
            node.elem,
            Box::new(child_shape(a, ai, node.left)),
            Box::new(child_shape(a, ai, node.right)),
        ));
    }

    /// The end of the descent to the left from the node at `at`: the descent
    /// always stops at a node without a left child, and gives nothing.
    pub fn get_left(tree: &Tree, at: usize) -> (r: Option<usize>)
        requires
            tree.wf(),
            at < tree.node_seq().len(),
        ensures
            r is None,
        decreases tree.node_seq().len() - at,
    {
        let left_child = tree.nodes[at].left;
        assert(node_ok(tree.nodes@, at as int));
        match left_child {
            Some(n) => Node::get_left(tree, n),
            None => None,
        }
    }

    /// The end of the descent to the right from the node at `at`: the descent
    /// always stops at a node without a right child, and gives nothing.
    pub fn get_right(tree: &Tree, at: usize) -> (r: Option<usize>)
        requires
            tree.wf(),
            at < tree.node_seq().len(),
        ensures
            r is None,
        decreases tree.node_seq().len() - at,
    {
        let right_child = tree.nodes[at].right;
        assert(node_ok(tree.nodes@, at as int));
        match right_child {
            Some(n) => Node::get_right(tree, n),
            None => None,
        }
    }

    /// The elements of the nodes without children in the subtree under the
    /// node at `at`, left to right.
    pub fn get_leaves(tree: &Tree, at: usize) -> (r: Vec<i32>)
        requires
            tree.wf(),
            at < tree.node_seq().len(),
        ensures
            r@ == leaves(tree.subtree(at as int)),
        decreases tree.node_seq().len() - at,
    {
        let node = tree.nodes[at];
        let ghost ns = tree.nodes@;
        proof {
            assert(node_ok(ns, at as int));
            assert(shape_at(ns, at as int) == Shape::Branch(
                node.elem,
                Box::new(child_shape(ns, at as int, node.left)),
                Box::new(child_shape(ns, at as int, node.right)),
            ));
        }
        let mut r = Vec::new();
        if node.left.is_none() && node.right.is_none() {
            r.push(node.elem);
            assert(r@ =~= seq![node.elem]);
        } else {
            if let Some(c) = node.left {
                let mut sub = Node::get_leaves(tree, c);
                r.append(&mut sub);
            }
            assert(r@ =~= leaves(child_shape(ns, at as int, node.left)));
            let ghost first = r@;
            if let Some(c) = node.right {
                let mut sub = Node::get_leaves(tree, c);
                r.append(&mut sub);
            }
            assert(r@ =~= first + leaves(child_shape(ns, at as int, node.right)));
            proof {
                if node.left is Some {
                    let c = node.left->0 as int;
                    assert(ns[c].parent == Some(at));
                    assert(child_shape(ns, at as int, node.left) != Shape::Empty);
                }
                if node.right is Some {
                    let c = node.right->0 as int;
                    assert(child_shape(ns, at as int, node.right) != Shape::Empty);
                }
            }
        }
        r
    }
}

/// Adding `x` to a tree adds exactly `x` to its elements: no element is
/// lost and none other appears.
pub proof fn lemma_insert_adds_element(t: Shape, x: i32)
    ensures
        in_order(insert_shape(t, x)).to_multiset() =~= in_order(t).to_multiset().insert(x),
    decreases t,
{
    broadcast use vstd::seq_lib::lemma_multiset_commutative;
    broadcast use vstd::seq_lib::group_to_multiset_ensures;
    broadcast use vstd::multiset::group_multiset_axioms;

    match t {
        Shape::Empty => {
            assert(in_order(insert_shape(t, x)) =~= seq![x]);
            assert(seq![x] =~= Seq::<i32>::empty().push(x));
        },
        Shape::Branch(e, l, r) => {
            if x < e {
                lemma_insert_adds_element(*l, x);
            } else {
                lemma_insert_adds_element(*r, x);
            }
        },
    }
}

/// Adding an element to a search tree gives a search tree.
pub proof fn lemma_insert_keeps_search_tree(t: Shape, x: i32)
    requires
        is_search_tree(t),
    ensures
        is_search_tree(insert_shape(t, x)),
    decreases t,
{
    broadcast use vstd::seq_lib::group_to_multiset_ensures;
    broadcast use vstd::multiset::group_multiset_axioms;

    match t {
        Shape::Empty => {},
        Shape::Branch(e, l, r) => {
            if x < e {
                lemma_insert_keeps_search_tree(*l, x);
                lemma_insert_adds_element(*l, x);
                let s = in_order(insert_shape(*l, x));
                assert forall|i: int| 0 <= i < s.len() implies s[i] < e by {
                    assert(s.contains(s[i]));
                    assert(s.to_multiset().count(s[i]) > 0);
                    if s[i] != x {
                        assert(in_order(*l).to_multiset().count(s[i]) > 0);
                        assert(in_order(*l).contains(s[i]));
                    }
                }
            } else {
                lemma_insert_keeps_search_tree(*r, x);
                lemma_insert_adds_element(*r, x);
                let s = in_order(insert_shape(*r, x));
                assert forall|i: int| 0 <= i < s.len() implies s[i] >= e by {
                    assert(s.contains(s[i]));
                    assert(s.to_multiset().count(s[i]) > 0);
                    if s[i] != x {
                        assert(in_order(*r).to_multiset().count(s[i]) > 0);
                        assert(in_order(*r).contains(s[i]));
                    }
                }
            }
        },
    }
}

/// `s` occurs in `t`: it is `t` or occurs in one of `t`'s subtrees.
pub open spec fn occurs_in(s: Shape, t: Shape) -> bool
    decreases t,
{
    s == t || match t {
        Shape::Empty => false,
        Shape::Branch(_, l, r) => occurs_in(s, *l) || occurs_in(s, *r),
    }
}

/// A node holding `e` with no children.
pub open spec fn lone(e: i32) -> Shape {
    Shape::Branch(e, Box::new(Shape::Empty), Box::new(Shape::Empty))
}

/// The leaves listed are exactly the elements of the nodes without
/// children: an element is listed if and only if a node holding it with
/// neither a left nor a right child occurs in the tree; a node with any
/// child is never listed.
pub proof fn lemma_leaves_are_childless(t: Shape, e: i32)
    ensures
        leaves(t).contains(e) <==> occurs_in(lone(e), t),
    decreases t,
{
    match t {
        Shape::Empty => {},
        Shape::Branch(x, l, r) => {
            lemma_leaves_are_childless(*l, e);
            lemma_leaves_are_childless(*r, e);
            if *l == Shape::Empty && *r == Shape::Empty {
                assert(leaves(t) == seq![x]);
                if leaves(t).contains(e) {
                    assert(leaves(t)[0] == e);
                }
                if x == e {
                    assert(leaves(t)[0] == e);
                }
            } else {
                let a = leaves(*l);
                let b = leaves(*r);
                assert(leaves(t) == a + b);
                assert(t != lone(e));
                if (a + b).contains(e) {
                    let k = choose|k: int| 0 <= k < (a + b).len() && (a + b)[k] == e;
                    if k < a.len() {
                        assert(a[k] == e);
                    } else {
                        assert(b[k - a.len()] == e);
                    }
                }
                if a.contains(e) {
                    let k = choose|k: int| 0 <= k < a.len() && a[k] == e;
                    assert((a + b)[k] == e);
                }
                if b.contains(e) {
                    let k = choose|k: int| 0 <= k < b.len() && b[k] == e;
                    assert((a + b)[a.len() + k] == e);
                }
            }
        },
    }
}

/// The elements of a search tree, read left to right, never decrease.
pub proof fn lemma_search_tree_sorted(t: Shape)
    requires
        is_search_tree(t),
    ensures
        forall|i: int, j: int|
            0 <= i <= j < in_order(t).len() ==> in_order(t)[i] <= in_order(t)[j],
    decreases t,
{
    match t {
        Shape::Empty => {},
        Shape::Branch(e, l, r) => {
            lemma_search_tree_sorted(*l);
            lemma_search_tree_sorted(*r);
            let a = in_order(*l);
            let b = in_order(*r);
            let s = in_order(t);
            assert(s =~= a + seq![e] + b);
            assert forall|i: int, j: int| 0 <= i <= j < s.len() implies s[i] <= s[j] by {
                if j < a.len() {
                } else if j == a.len() {
                    if i < a.len() {
                        assert(a[i] < e);
                    }
                } else {
                    assert(s[j] == b[j - a.len() - 1]);
                    if i < a.len() {
                        assert(a[i] < e);
                        assert(b[j - a.len() - 1] >= e);
                    } else if i == a.len() {
                        assert(b[j - a.len() - 1] >= e);
                    }
                }
            }
        },
    }
}

} // verus!
