//! The nodes of a trie while it is worked on, and the steps that change
//! them.
//!
//! A node in memory may stand for a stored subtrie that has not been read
//! yet. Changing a trie reads only the nodes on the way to the changed key:
//! everything beside the way stays unread and is kept by its index.

use crate::felt::Felt;
use crate::patricia::{join, prepend, split, update, wf, Tree};
use crate::trie_store::{
    lemma_stored_tree_stays, lemma_stored_tree_wf, row_ok, stored_tree, RowView, StoredNode,
    TrieStore,
};
use vstd::prelude::*;

verus! {

/// A node of a trie in memory.
#[derive(Debug)]
pub enum InternalNode {
    /// A stored subtrie that has not been read yet, by the index of its
    /// root.
    Unresolved(u64),
    /// A node with two children.
    Binary { left: Box<InternalNode>, right: Box<InternalNode> },
    /// A node with one child and the bits that lead to it.
    Edge { path: Vec<bool>, child: Box<InternalNode> },
    /// A value.
    Leaf(Felt),
}

/// The trie that a node in memory stands for, given what is stored.
pub open spec fn node_tree(rows: Seq<RowView>, node: InternalNode) -> Tree
    decreases node,
{
    match node {
        InternalNode::Unresolved(index) => stored_tree(rows, index as nat),
        InternalNode::Binary { left, right } => Tree::Binary(
            Box::new(node_tree(rows, *left)),
            Box::new(node_tree(rows, *right)),
        ),
        InternalNode::Edge { path, child } => Tree::Edge(path@, Box::new(node_tree(rows, *child))),
        InternalNode::Leaf(value) => Tree::Leaf(value@),
    }
}

/// Whether every stored subtrie that a node names is stored.
pub open spec fn node_ok(rows: Seq<RowView>, node: InternalNode) -> bool
    decreases node,
{
    match node {
        InternalNode::Unresolved(index) => index < rows.len(),
        InternalNode::Binary { left, right } => node_ok(rows, *left) && node_ok(rows, *right),
        InternalNode::Edge { path, child } => node_ok(rows, *child),
        InternalNode::Leaf(value) => true,
    }
}

/// The number of nodes in memory that a node is made of.
pub open spec fn node_size(node: InternalNode) -> nat
    decreases node,
{
    match node {
        InternalNode::Unresolved(index) => 1,
        InternalNode::Binary { left, right } => 1 + node_size(*left) + node_size(*right),
        InternalNode::Edge { path, child } => 1 + node_size(*child),
        InternalNode::Leaf(value) => 1,
    }
}

/// The trie that a node that may be missing stands for.
pub open spec fn opt_tree(rows: Seq<RowView>, node: Option<InternalNode>) -> Option<Tree> {
    match node {
        Some(node) => Some(node_tree(rows, node)),
        None => None,
    }
}

/// Whether every stored subtrie that a node that may be missing names is
/// stored.
pub open spec fn opt_ok(rows: Seq<RowView>, node: Option<InternalNode>) -> bool {
    node matches Some(node) ==> node_ok(rows, node)
}

/// Whether a table holds everything that another holds, under the same
/// indices.
pub open spec fn extends(more: Seq<RowView>, rows: Seq<RowView>) -> bool {
    &&& rows.len() <= more.len()
    &&& forall|i: int| 0 <= i < rows.len() ==> rows[i] == more[i]
}

/// A node stands for the same trie when more nodes are stored.
pub proof fn lemma_node_tree_stays(rows: Seq<RowView>, more: Seq<RowView>, node: InternalNode)
    requires
        extends(more, rows),
        node_ok(rows, node),
    ensures
        node_tree(more, node) == node_tree(rows, node),
        node_ok(more, node),
    decreases node,
{
    match node {
        InternalNode::Unresolved(index) => {
            lemma_stored_tree_stays(rows, more, index as nat);
        },
        InternalNode::Binary { left, right } => {
            lemma_node_tree_stays(rows, more, *left);
            lemma_node_tree_stays(rows, more, *right);
        },
        InternalNode::Edge { path, child } => {
            lemma_node_tree_stays(rows, more, *child);
        },
        InternalNode::Leaf(value) => {},
    }
}

/// Reads the root of a stored subtrie: the node in memory that stands for
/// it, with its children unread.
pub fn resolve(store: &TrieStore, index: u64) -> (r: InternalNode)
    requires
        store.wf(),
        index < store@.len(),
    ensures
        node_tree(store@, r) == stored_tree(store@, index as nat),
        node_ok(store@, r),
        !(r is Unresolved),
{
    proof {
        store.lemma_wf();
        assert(row_ok(store@, index as int));
        reveal_with_fuel(node_tree, 3);
        reveal_with_fuel(node_ok, 3);
    }
    match store.get(index) {
        Some(StoredNode::Binary { left, right }) => InternalNode::Binary {
            left: Box::new(InternalNode::Unresolved(left)),
            right: Box::new(InternalNode::Unresolved(right)),
        },
        Some(StoredNode::Edge { child, path }) => InternalNode::Edge {
            path,
            child: Box::new(InternalNode::Unresolved(child)),
        },
        Some(StoredNode::LeafBinary) => {
            let left = store.leaf(index, false);
            let right = store.leaf(index, true);
            InternalNode::Binary {
                left: Box::new(InternalNode::Leaf(left.unwrap())),
                right: Box::new(InternalNode::Leaf(right.unwrap())),
            }
        },
        Some(StoredNode::LeafEdge { path }) => {
            let value = store.leaf(index, false);
            InternalNode::Edge { path, child: Box::new(InternalNode::Leaf(value.unwrap())) }
        },
        None => InternalNode::Unresolved(index),
    }
}

/// The bits of a string after the first.
fn tail_bits(bits: &Vec<bool>) -> (r: Vec<bool>)
    requires
        bits@.len() >= 1,
    ensures
        r@ == bits@.drop_first(),
{
    let mut out: Vec<bool> = Vec::new();
    let mut i: usize = 1;
    while i < bits.len()
        invariant
            1 <= i <= bits@.len(),
            out@ == bits@.subrange(1, i as int),
        decreases bits@.len() - i,
    {
        out.push(bits[i]);
        proof {
            assert(out@ =~= bits@.subrange(1, i + 1));
        }
        i = i + 1;
    }
    proof {
        assert(bits@.subrange(1, i as int) =~= bits@.drop_first());
    }
    out
}

/// A bit and after it the bits of a string.
fn cons_bits(bit: bool, bits: &Vec<bool>) -> (r: Vec<bool>)
    ensures
        r@ == seq![bit] + bits@,
{
    let mut out: Vec<bool> = Vec::new();
    out.push(bit);
    let mut i: usize = 0;
    while i < bits.len()
        invariant
            i <= bits@.len(),
            out@ == seq![bit] + bits@.subrange(0, i as int),
        decreases bits@.len() - i,
    {
        out.push(bits[i]);
        proof {
            assert(out@ =~= seq![bit] + bits@.subrange(0, i + 1));
        }
        i = i + 1;
    }
    proof {
        assert(bits@.subrange(0, i as int) =~= bits@);
    }
    out
}

/// The two halves of a trie in memory.
pub fn split_node(store: &TrieStore, node: Option<InternalNode>) -> (r: (
    Option<InternalNode>,
    Option<InternalNode>,
))
    requires
        store.wf(),
        opt_ok(store@, node),
    ensures
        (opt_tree(store@, r.0), opt_tree(store@, r.1)) == split(opt_tree(store@, node)),
        opt_ok(store@, r.0),
        opt_ok(store@, r.1),
{
    let Some(node) = node else {
        return (None, None);
    };
    let node = match node {
        InternalNode::Unresolved(index) => resolve(store, index),
        other => other,
    };
    match node {
        InternalNode::Binary { left, right } => (Some(*left), Some(*right)),
        InternalNode::Edge { path, child } => {
            let rest = if path.len() <= 1 {
                *child
            } else {
                InternalNode::Edge { path: tail_bits(&path), child }
            };
            if path.len() > 0 && path[0] {
                (None, Some(rest))
            } else {
                (Some(rest), None)
            }
        },
        _ => {
            proof {
                assert(node is Leaf);
            }
            (None, None)
        },
    }
}

/// A trie in memory under one more bit.
pub fn prepend_node(store: &TrieStore, bit: bool, node: InternalNode) -> (r: InternalNode)
    requires
        store.wf(),
        node_ok(store@, node),
    ensures
        node_tree(store@, r) == prepend(bit, node_tree(store@, node)),
        node_ok(store@, r),
{
    let node = match node {
        InternalNode::Unresolved(index) => {
            proof {
                store.lemma_wf();
                lemma_stored_tree_wf(store@, index as nat);
            }
            if store.is_edge(index) {
                // An edge grows into the edge below it, which has to be
                // read for that.
                resolve(store, index)
            } else {
                InternalNode::Unresolved(index)
            }
        },
        other => other,
    };
    match node {
        InternalNode::Edge { path, child } => InternalNode::Edge {
            path: cons_bits(bit, &path),
            child,
        },
        other => {
            let mut path: Vec<bool> = Vec::new();
            path.push(bit);
            proof {
                assert(path@ =~= seq![bit]);
            }
            InternalNode::Edge { path, child: Box::new(other) }
        },
    }
}

/// The trie in memory of two halves.
pub fn join_node(store: &TrieStore, left: Option<InternalNode>, right: Option<InternalNode>) -> (r:
    Option<InternalNode>)
    requires
        store.wf(),
        opt_ok(store@, left),
        opt_ok(store@, right),
    ensures
        opt_tree(store@, r) == join(opt_tree(store@, left), opt_tree(store@, right)),
        opt_ok(store@, r),
{
    match (left, right) {
        (None, None) => None,
        (Some(l), Some(r)) => Some(InternalNode::Binary { left: Box::new(l), right: Box::new(r) }),
        (Some(l), None) => Some(prepend_node(store, false, l)),
        (None, Some(r)) => Some(prepend_node(store, true, r)),
    }
}

/// The trie in memory with a value set under the key that the bits from
/// `depth` on make. To set zero is to take the key out.
pub fn update_node(
    store: &TrieStore,
    node: Option<InternalNode>,
    key: &[bool],
    depth: usize,
    value: Felt,
) -> (r: Option<InternalNode>)
    requires
        store.wf(),
        opt_ok(store@, node),
        depth <= key@.len(),
    ensures
        opt_tree(store@, r) == update(
            opt_tree(store@, node),
            key@.subrange(depth as int, key@.len() as int),
            value@,
        ),
        opt_ok(store@, r),
    decreases key@.len() - depth,
{
    let ghost rest = key@.subrange(depth as int, key@.len() as int);
    if depth >= key.len() {
        if value.is_zero() {
            None
        } else {
            Some(InternalNode::Leaf(value))
        }
    } else {
        proof {
            assert(rest.drop_first() =~= key@.subrange(depth + 1, key@.len() as int));
            assert(rest[0] == key@[depth as int]);
        }
        let (left, right) = split_node(store, node);
        if key[depth] {
            let below = update_node(store, right, key, depth + 1, value);
            join_node(store, left, below)
        } else {
            let below = update_node(store, left, key, depth + 1, value);
            join_node(store, below, right)
        }
    }
}

} // verus!
