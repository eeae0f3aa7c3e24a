//! A concrete syntax tree held as plain values: what the rules read of a
//! parsed file.

use vstd::prelude::*;

use crate::rules::source::{text_between, valid_range};
use crate::text::str_eq;

verus! {

/// A named field of a node: the child that stands in that role.
pub struct NodeField {
    pub name: String,
    pub child: usize,
}

/// One node of the tree. Children are indices into the tree's node list.
pub struct SyntaxNode {
    pub kind: String,
    pub start_byte: usize,
    pub end_byte: usize,
    pub start_row: usize,
    pub start_column: usize,
    pub end_row: usize,
    pub end_column: usize,
    /// All children, in order.
    pub children: Vec<usize>,
    /// The named children, in order.
    pub named_children: Vec<usize>,
    /// The fields, in the order of their children.
    pub fields: Vec<NodeField>,
}

/// A syntax tree: its nodes, the root first.
pub struct SyntaxTree {
    pub nodes: Vec<SyntaxNode>,
}

/// `c` may be a child of node `i`: it comes later in the node list.
pub open spec fn child_ok(nodes: Seq<SyntaxNode>, i: int, c: usize) -> bool {
    i < c < nodes.len()
}

/// Node `i` is well formed for `source`: its byte range lies between
/// character boundaries, its positions can be counted from 1, and its
/// children come after it.
pub open spec fn node_wf(nodes: Seq<SyntaxNode>, i: int, source: &str) -> bool {
    let n = nodes[i];
    &&& valid_range(source, n.start_byte as int, n.end_byte as int)
    &&& n.start_row < usize::MAX && n.start_column < usize::MAX
    &&& n.end_row < usize::MAX && n.end_column < usize::MAX
    &&& forall|k: int| 0 <= k < n.children@.len() ==> child_ok(nodes, i, #[trigger] n.children@[k])
    &&& forall|k: int|
        0 <= k < n.named_children@.len() ==> child_ok(nodes, i, #[trigger] n.named_children@[k])
    &&& forall|k: int| 0 <= k < n.fields@.len() ==> child_ok(nodes, i, #[trigger] n.fields@[k].child)
}

impl SyntaxTree {
    /// The tree has a root and every node is well formed for `source`.
    pub open spec fn wf(&self, source: &str) -> bool {
        &&& self.nodes@.len() > 0
        &&& forall|i: int| 0 <= i < self.nodes@.len() ==> node_wf(self.nodes@, i, source)
    }
}

/// The nodes of the subtree at `i`, in preorder: the node, then the subtrees
/// of its children from the first to the last.
pub open spec fn preorder(nodes: Seq<SyntaxNode>, i: usize) -> Seq<usize>
    decreases nodes.len() - i, nodes[i as int].children@.len() + 1,
{
    if i < nodes.len() {
        seq![i] + preorder_children(nodes, i, 0)
    } else {
        seq![]
    }
}

/// The subtrees of the children of node `i` from child `k` on, in preorder.
pub open spec fn preorder_children(nodes: Seq<SyntaxNode>, i: usize, k: int) -> Seq<usize>
    decreases nodes.len() - i, nodes[i as int].children@.len() - k,
{
    if i < nodes.len() && 0 <= k < nodes[i as int].children@.len() {
        let c = nodes[i as int].children@[k];
        let sub = if i < c < nodes.len() {
            preorder(nodes, c)
        } else {
            seq![]
        };
        sub + preorder_children(nodes, i, k + 1)
    } else {
        seq![]
    }
}

/// The order in which a walk from the root visits the nodes.
pub open spec fn walk_order(tree: SyntaxTree) -> Seq<usize> {
    preorder(tree.nodes@, 0)
}

fn walk_from(tree: &SyntaxTree, i: usize, order: &mut Vec<usize>)
    requires
        i < tree.nodes@.len(),
        forall|j: int, k: int|
            0 <= j < tree.nodes@.len() && 0 <= k < tree.nodes@[j].children@.len() ==> child_ok(
                tree.nodes@,
                j,
                #[trigger] tree.nodes@[j].children@[k],
            ),
        forall|k: int| 0 <= k < old(order)@.len() ==> old(order)@[k] < tree.nodes@.len(),
    ensures
        final(order)@ == old(order)@ + preorder(tree.nodes@, i),
        forall|k: int| 0 <= k < final(order)@.len() ==> final(order)@[k] < tree.nodes@.len(),
    decreases tree.nodes@.len() - i, tree.nodes@[i as int].children@.len() + 1,
{
    let ghost nodes = tree.nodes@;
    let ghost start = order@;
    order.push(i);
    let node = &tree.nodes[i];
    let count = node.children.len();
    let mut k: usize = 0;
    while k < count
        invariant
            i < nodes.len(),
            nodes == tree.nodes@,
            node == nodes[i as int],
            count == node.children@.len(),
            0 <= k <= count,
            forall|j: int, kk: int|
                0 <= j < nodes.len() && 0 <= kk < nodes[j].children@.len() ==> child_ok(
                    nodes,
                    j,
                    #[trigger] nodes[j].children@[kk],
                ),
            order@ + preorder_children(nodes, i, k as int) == start + preorder(nodes, i),
            forall|q: int| 0 <= q < order@.len() ==> order@[q] < nodes.len(),
        decreases count - k,
    {
        let c = node.children[k];
        assert(child_ok(nodes, i as int, nodes[i as int].children@[k as int]));
        let ghost before = order@;
        walk_from(tree, c, order);
        assert(preorder_children(nodes, i, k as int) =~= preorder(nodes, c) + preorder_children(
            nodes,
            i,
            k + 1,
        ));
        assert(order@ + preorder_children(nodes, i, k + 1) =~= before + preorder_children(
            nodes,
            i,
            k as int,
        ));
        k = k + 1;
    }
    assert(order@ + preorder_children(nodes, i, k as int) =~= order@);
}

/// The nodes of the tree in the order a walk from the root visits them:
/// each node before its children, children from first to last.
pub fn walk_tree(tree: &SyntaxTree, source: &str) -> (r: Vec<usize>)
    requires
        tree.wf(source),
    ensures
        r@ == walk_order(*tree),
        forall|k: int| 0 <= k < r@.len() ==> r@[k] < tree.nodes@.len(),
{
    let mut order: Vec<usize> = Vec::new();
    assert forall|j: int, k: int|
        0 <= j < tree.nodes@.len() && 0 <= k < tree.nodes@[j].children@.len() implies child_ok(
        tree.nodes@,
        j,
        #[trigger] tree.nodes@[j].children@[k],
    ) by {
        assert(node_wf(tree.nodes@, j, source));
    }
    walk_from(tree, 0, &mut order);
    assert(order@ =~= preorder(tree.nodes@, 0));
    order
}

/// The child that stands in the field `name` of a node: the first field of
/// that name.
pub open spec fn field_child(node: SyntaxNode, name: Seq<char>) -> Option<usize> {
    field_child_from(node.fields@, name, 0)
}

/// The child of the first field named `name` among `fields[k..]`.
pub open spec fn field_child_from(fields: Seq<NodeField>, name: Seq<char>, k: int) -> Option<usize>
    decreases fields.len() - k,
{
    if k < 0 || k >= fields.len() {
        None
    } else if fields[k].name@ == name {
        Some(fields[k].child)
    } else {
        field_child_from(fields, name, k + 1)
    }
}

/// The child in the field `name` of a node, if it has one.
pub fn child_by_field_name(node: &SyntaxNode, name: &str) -> (r: Option<usize>)
    ensures
        r == field_child(*node, name@),
        r matches Some(c) ==> exists|k: int|
            0 <= k < node.fields@.len() && #[trigger] node.fields@[k].child == c,
{
    let n = node.fields.len();
    let mut k: usize = 0;
    while k < n
        invariant
            n == node.fields@.len(),
            0 <= k <= n,
            field_child(*node, name@) == field_child_from(node.fields@, name@, k as int),
        decreases n - k,
    {
        if str_eq(node.fields[k].name.as_str(), name) {
            return Some(node.fields[k].child);
        }
        k = k + 1;
    }
    None
}

/// The text of a node: the characters of its byte range.
pub open spec fn node_text(source: &str, node: SyntaxNode) -> Seq<char> {
    text_between(source, node.start_byte as int, node.end_byte as int)
}

} // verus!
