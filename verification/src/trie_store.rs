//! The table that holds the nodes of tries.
//!
//! A node is put last and gets the next index, so a node's children have
//! lower indices than the node. The table takes a node only where it makes
//! a well-formed trie with what is stored, and computes the node's hash
//! itself: so every stored node is the root of a well-formed trie, and the
//! hash stored with it is that trie's hash.

use crate::felt::{bits_value, modulus, Felt, KEY_BITS};
use crate::hash::{pedersen, pedersen_hash};
use crate::patricia::{hash, wf, Tree};
use vstd::prelude::*;

verus! {

/// A stored node of a trie.
#[derive(Clone, Debug, PartialEq, Eq)]
pub enum StoredNode {
    /// A node with two children, by their indices.
    Binary { left: u64, right: u64 },
    /// A node with one child, by its index, and the bits that lead to it.
    Edge { child: u64, path: Vec<bool> },
    /// A node with two leaves. The leaves are not nodes: their values are
    /// kept with the node and read by [`TrieStore::leaf`].
    LeafBinary,
    /// A node with one leaf and the bits that lead to it. The leaf is not a
    /// node: its value is kept with the node and read by
    /// [`TrieStore::leaf`].
    LeafEdge { path: Vec<bool> },
}

/// Why the table refused a node.
#[derive(Clone, Copy, Debug, PartialEq, Eq, Structural)]
pub enum TrieStoreError {
    /// No node is stored under an index that the node names.
    MissingNode,
    /// The two children of a binary node are not of one height.
    HeightMismatch,
    /// The node would be higher than a trie is.
    TooHigh,
    /// The path of an edge is empty.
    EmptyPath,
    /// The child of an edge is an edge itself.
    EdgeBelowEdge,
    /// A leaf is zero.
    ZeroLeaf,
}

/// What a stored node is.
pub ghost enum NodeView {
    Binary { left: nat, right: nat },
    Edge { child: nat, path: Seq<bool> },
    LeafBinary { left: nat, right: nat },
    LeafEdge { path: Seq<bool>, value: nat },
}

/// A stored node with its hash and the height of the trie below it.
pub ghost struct RowView {
    pub node: NodeView,
    pub hash: nat,
    pub height: nat,
}

/// The trie whose root is the node with the given index.
pub open spec fn stored_tree(rows: Seq<RowView>, index: nat) -> Tree
    decreases index,
{
    if index >= rows.len() {
        Tree::Leaf(0)
    } else {
        match rows[index as int].node {
            NodeView::Binary { left, right } => if left < index && right < index {
                Tree::Binary(
                    Box::new(stored_tree(rows, left)),
                    Box::new(stored_tree(rows, right)),
                )
            } else {
                Tree::Leaf(0)
            },
            NodeView::Edge { child, path } => if child < index {
                Tree::Edge(path, Box::new(stored_tree(rows, child)))
            } else {
                Tree::Leaf(0)
            },
            NodeView::LeafBinary { left, right } => Tree::Binary(
                Box::new(Tree::Leaf(left)),
                Box::new(Tree::Leaf(right)),
            ),
            NodeView::LeafEdge { path, value } => Tree::Edge(path, Box::new(Tree::Leaf(value))),
        }
    }
}

/// Whether the node with the given index fits what is stored below it.
pub open spec fn row_ok(rows: Seq<RowView>, index: int) -> bool {
    let row = rows[index];
    &&& 1 <= row.height <= KEY_BITS
    &&& row.hash == hash(stored_tree(rows, index as nat))
    &&& match row.node {
        NodeView::Binary { left, right } => {
            &&& left < index
            &&& right < index
            &&& rows[left as int].height == rows[right as int].height
            &&& row.height == rows[left as int].height + 1
        },
        NodeView::Edge { child, path } => {
            &&& child < index
            &&& path.len() >= 1
            &&& row.height == rows[child as int].height + path.len()
            &&& !(rows[child as int].node is Edge)
            &&& !(rows[child as int].node is LeafEdge)
        },
        NodeView::LeafBinary { left, right } => left != 0 && right != 0 && row.height == 1,
        NodeView::LeafEdge { path, value } => value != 0 && path.len() >= 1 && row.height
            == path.len(),
    }
}

/// Whether every stored node fits what is stored below it.
pub open spec fn rows_ok(rows: Seq<RowView>) -> bool {
    forall|i: int| 0 <= i < rows.len() ==> #[trigger] row_ok(rows, i)
}

/// A node's trie does not change when more nodes are stored.
pub proof fn lemma_stored_tree_stays(rows: Seq<RowView>, more: Seq<RowView>, index: nat)
    requires
        rows.len() <= more.len(),
        forall|i: int| 0 <= i < rows.len() ==> rows[i] == more[i],
        index < rows.len(),
    ensures
        stored_tree(more, index) == stored_tree(rows, index),
    decreases index,
{
    match rows[index as int].node {
        NodeView::Binary { left, right } => {
            if left < index && right < index {
                lemma_stored_tree_stays(rows, more, left);
                lemma_stored_tree_stays(rows, more, right);
            }
        },
        NodeView::Edge { child, path } => {
            if child < index {
                lemma_stored_tree_stays(rows, more, child);
            }
        },
        _ => {},
    }
}

/// Every stored node is the root of a well-formed trie of the node's
/// height, which is an edge exactly where the node is one.
pub proof fn lemma_stored_tree_wf(rows: Seq<RowView>, index: nat)
    requires
        rows_ok(rows),
        index < rows.len(),
    ensures
        wf(stored_tree(rows, index), rows[index as int].height),
        stored_tree(rows, index) is Edge <==> (rows[index as int].node is Edge
            || rows[index as int].node is LeafEdge),
    decreases index,
{
    assert(row_ok(rows, index as int));
    reveal_with_fuel(wf, 3);
    match rows[index as int].node {
        NodeView::Binary { left, right } => {
            lemma_stored_tree_wf(rows, left);
            lemma_stored_tree_wf(rows, right);
        },
        NodeView::Edge { child, path } => {
            lemma_stored_tree_wf(rows, child);
        },
        _ => {},
    }
}

/// What is stored stays well formed when a node that fits is stored.
pub proof fn lemma_push_ok(rows: Seq<RowView>, row: RowView)
    requires
        rows_ok(rows),
        row_ok(rows.push(row), rows.len() as int),
    ensures
        rows_ok(rows.push(row)),
{
    let more = rows.push(row);
    assert forall|i: int| 0 <= i < more.len() implies #[trigger] row_ok(more, i) by {
        if i < rows.len() {
            assert(row_ok(rows, i));
            lemma_stored_tree_stays(rows, more, i as nat);
        }
    }
}

/// Whether a stored node, as the table hands it out, is the node that the
/// table holds: of the same kind, with the same children and path.
pub open spec fn shows(node: StoredNode, held: NodeView) -> bool {
    match held {
        NodeView::Binary { left, right } => node == (StoredNode::Binary {
            left: left as u64,
            right: right as u64,
        }) && left <= u64::MAX && right <= u64::MAX,
        NodeView::Edge { child, path } => node matches StoredNode::Edge { child: c, path: p } && c
            == child && p@ == path,
        NodeView::LeafBinary { .. } => node == StoredNode::LeafBinary,
        NodeView::LeafEdge { path, .. } => node matches StoredNode::LeafEdge { path: p } && p@
            == path,
    }
}

/// A stored node as the table holds it.
struct Row {
    node: StoredNode,
    hash: Felt,
    height: usize,
    /// The left leaf of a node with two leaves, the leaf of one with one.
    first_leaf: Felt,
    /// The right leaf of a node with two leaves.
    second_leaf: Felt,
}

spec fn row_view(row: Row) -> RowView {
    RowView {
        node: match row.node {
            StoredNode::Binary { left, right } => NodeView::Binary {
                left: left as nat,
                right: right as nat,
            },
            StoredNode::Edge { child, path } => NodeView::Edge { child: child as nat, path: path@ },
            StoredNode::LeafBinary => NodeView::LeafBinary {
                left: row.first_leaf@,
                right: row.second_leaf@,
            },
            StoredNode::LeafEdge { path } => NodeView::LeafEdge {
                path: path@,
                value: row.first_leaf@,
            },
        },
        hash: row.hash@,
        height: row.height as nat,
    }
}

/// The table of the nodes of tries. Its view is the string of its nodes.
pub struct TrieStore {
    rows: Vec<Row>,
}

impl View for TrieStore {
    type V = Seq<RowView>;

    closed spec fn view(&self) -> Seq<RowView> {
        self.rows@.map_values(|row: Row| row_view(row))
    }
}

/// A copy of a string of bits.
pub fn copy_bits(bits: &[bool]) -> (r: Vec<bool>)
    ensures
        r@ == bits@,
{
    let mut out: Vec<bool> = Vec::new();
    let mut i: usize = 0;
    while i < bits.len()
        invariant
            i <= bits@.len(),
            out@ == bits@.subrange(0, i as int),
        decreases bits@.len() - i,
    {
        out.push(bits[i]);
        proof {
            assert(out@ =~= bits@.subrange(0, i + 1));
        }
        i = i + 1;
    }
    proof {
        assert(bits@.subrange(0, i as int) =~= bits@);
    }
    out
}

/// Whether the bits of a key from `depth` on begin with a path.
pub fn begins_with(path: &[bool], key: &[bool], depth: usize) -> (r: bool)
    requires
        depth + path@.len() <= key@.len(),
    ensures
        r == (key@.subrange(depth as int, depth + path@.len()) == path@),
{
    let mut i: usize = 0;
    let limit: usize = key.len();
    while i < path.len()
        invariant
            i <= path@.len(),
            limit == key@.len(),
            depth + path@.len() <= key@.len(),
            forall|j: int| 0 <= j < i ==> key@[depth + j] == path@[j],
        decreases path@.len() - i,
    {
        if key[depth + i] != path[i] {
            proof {
                let segment = key@.subrange(depth as int, depth + path@.len());
                assert(segment[i as int] != path@[i as int]);
            }
            return false;
        }
        i = i + 1;
    }
    proof {
        assert(key@.subrange(depth as int, depth + path@.len()) =~= path@);
    }
    true
}

/// The hash of an edge: the Pedersen hash of its child's hash and the
/// number of its path, plus the length of the path in the field.
pub fn edge_hash(child_hash: Felt, path: &[bool]) -> (r: Felt)
    requires
        path@.len() <= KEY_BITS,
    ensures
        r@ == (pedersen(child_hash@, bits_value(path@)) + path@.len()) % modulus(),
{
    let path_felt = Felt::from_bits(path);
    let length = Felt::from_u64(path.len() as u64);
    pedersen_hash(child_hash, path_felt).add(length)
}

impl TrieStore {
    /// Whether the table is well formed: every node fits what is stored
    /// below it. Every function of the table keeps it so.
    pub closed spec fn wf(&self) -> bool {
        rows_ok(self@)
    }

    /// What a well-formed table holds to.
    pub proof fn lemma_wf(&self)
        requires
            self.wf(),
        ensures
            rows_ok(self@),
    {
    }

    /// An empty table.
    pub fn new() -> (r: TrieStore)
        ensures
            r.wf(),
            r@.len() == 0,
    {
        TrieStore { rows: Vec::new() }
    }

    /// The number of stored nodes, which is the index that the next node
    /// gets.
    pub fn len(&self) -> (r: usize)
        ensures
            r == self@.len(),
    {
        self.rows.len()
    }

    /// The hash of a stored node.
    pub fn hash(&self, index: u64) -> (r: Option<Felt>)
        ensures
            r is Some <==> index < self@.len(),
            r matches Some(h) ==> h@ == self@[index as int].hash,
    {
        if index < self.rows.len() as u64 {
            Some(self.rows[index as usize].hash)
        } else {
            None
        }
    }

    /// The height of the trie below a stored node.
    pub fn height(&self, index: u64) -> (r: Option<usize>)
        ensures
            r is Some <==> index < self@.len(),
            r matches Some(h) ==> h == self@[index as int].height,
    {
        if index < self.rows.len() as u64 {
            Some(self.rows[index as usize].height)
        } else {
            None
        }
    }

    /// A stored node.
    pub fn get(&self, index: u64) -> (r: Option<StoredNode>)
        ensures
            r is Some <==> index < self@.len(),
            r matches Some(node) ==> shows(node, self@[index as int].node),
    {
        if index < self.rows.len() as u64 {
            let node = match &self.rows[index as usize].node {
                StoredNode::Binary { left, right } => StoredNode::Binary {
                    left: *left,
                    right: *right,
                },
                StoredNode::Edge { child, path } => StoredNode::Edge {
                    child: *child,
                    path: copy_bits(path.as_slice()),
                },
                StoredNode::LeafBinary => StoredNode::LeafBinary,
                StoredNode::LeafEdge { path } => StoredNode::LeafEdge {
                    path: copy_bits(path.as_slice()),
                },
            };
            Some(node)
        } else {
            None
        }
    }

    /// The value of a leaf of a stored node with leaves: of the right leaf
    /// of a node with two where `right` is set, of its left leaf else, and
    /// of the one leaf of a node with one.
    pub fn leaf(&self, index: u64, right: bool) -> (r: Option<Felt>)
        ensures
            r is Some <==> index < self@.len() && (self@[index as int].node is LeafBinary
                || self@[index as int].node is LeafEdge),
            r matches Some(v) ==> match self@[index as int].node {
                NodeView::LeafBinary { left: l, right: rv } => v@ == if right {
                    rv
                } else {
                    l
                },
                NodeView::LeafEdge { value, .. } => v@ == value,
                _ => false,
            },
    {
        if index < self.rows.len() as u64 {
            let row = &self.rows[index as usize];
            match &row.node {
                StoredNode::LeafBinary => Some(
                    if right {
                        row.second_leaf
                    } else {
                        row.first_leaf
                    },
                ),
                StoredNode::LeafEdge { .. } => Some(row.first_leaf),
                _ => None,
            }
        } else {
            None
        }
    }

    /// Whether a stored node is an edge, with a child or with a leaf.
    pub fn is_edge(&self, index: u64) -> (r: bool)
        ensures
            r == (index < self@.len() && (self@[index as int].node is Edge
                || self@[index as int].node is LeafEdge)),
    {
        if index < self.rows.len() as u64 {
            match &self.rows[index as usize].node {
                StoredNode::Edge { .. } => true,
                StoredNode::LeafEdge { .. } => true,
                _ => false,
            }
        } else {
            false
        }
    }

    /// Stores a node with two children.
    pub fn push_binary(&mut self, left: u64, right: u64) -> (r: Result<u64, TrieStoreError>)
        requires
            old(self).wf(),
        ensures
            final(self).wf(),
            r == (if left >= old(self)@.len() || right >= old(self)@.len() {
                Err::<u64, TrieStoreError>(TrieStoreError::MissingNode)
            } else if old(self)@[left as int].height != old(self)@[right as int].height {
                Err(TrieStoreError::HeightMismatch)
            } else if old(self)@[left as int].height >= KEY_BITS {
                Err(TrieStoreError::TooHigh)
            } else {
                Ok(old(self)@.len() as u64)
            }),
            r matches Ok(index) ==> index == old(self)@.len(),
            r is Err ==> final(self)@ == old(self)@,
            r is Ok ==> final(self)@ == old(self)@.push(
                RowView {
                    node: NodeView::Binary { left: left as nat, right: right as nat },
                    hash: pedersen(old(self)@[left as int].hash, old(self)@[right as int].hash),
                    height: old(self)@[left as int].height + 1,
                },
            ),
    {
        let n = self.rows.len();
        if left >= n as u64 || right >= n as u64 {
            return Err(TrieStoreError::MissingNode);
        }
        let height = self.rows[left as usize].height;
        if height != self.rows[right as usize].height {
            return Err(TrieStoreError::HeightMismatch);
        }
        if height >= KEY_BITS {
            return Err(TrieStoreError::TooHigh);
        }
        let hash = pedersen_hash(self.rows[left as usize].hash, self.rows[right as usize].hash);
        let row = Row {
            node: StoredNode::Binary { left, right },
            hash,
            height: height + 1,
            first_leaf: Felt::zero(),
            second_leaf: Felt::zero(),
        };
        proof {
            let rows = self@;
            let more = rows.push(row_view(row));
            assert(self.rows@.push(row).map_values(|row: Row| row_view(row)) =~= more);
            assert(row_ok(rows, left as int));
            assert(row_ok(rows, right as int));
            lemma_stored_tree_stays(rows, more, left as nat);
            lemma_stored_tree_stays(rows, more, right as nat);
            lemma_push_ok(rows, row_view(row));
        }
        self.rows.push(row);
        Ok(n as u64)
    }

    /// Stores a node with one child.
    pub fn push_edge(&mut self, child: u64, path: Vec<bool>) -> (r: Result<u64, TrieStoreError>)
        requires
            old(self).wf(),
        ensures
            final(self).wf(),
            r == (if child >= old(self)@.len() {
                Err::<u64, TrieStoreError>(TrieStoreError::MissingNode)
            } else if path@.len() == 0 {
                Err(TrieStoreError::EmptyPath)
            } else if old(self)@[child as int].node is Edge || old(self)@[child as int].node
                is LeafEdge {
                Err(TrieStoreError::EdgeBelowEdge)
            } else if old(self)@[child as int].height + path@.len() > KEY_BITS {
                Err(TrieStoreError::TooHigh)
            } else {
                Ok(old(self)@.len() as u64)
            }),
            r matches Ok(index) ==> index == old(self)@.len(),
            r is Err ==> final(self)@ == old(self)@,
            r is Ok ==> final(self)@ == old(self)@.push(
                RowView {
                    node: NodeView::Edge { child: child as nat, path: path@ },
                    hash: (pedersen(old(self)@[child as int].hash, bits_value(path@))
                        + path@.len()) % modulus(),
                    height: old(self)@[child as int].height + path@.len(),
                },
            ),
    {
        let n = self.rows.len();
        if child >= n as u64 {
            return Err(TrieStoreError::MissingNode);
        }
        if path.len() == 0 {
            return Err(TrieStoreError::EmptyPath);
        }
        if self.is_edge(child) {
            return Err(TrieStoreError::EdgeBelowEdge);
        }
        let below = self.rows[child as usize].height;
        proof {
            assert(row_ok(self@, child as int));
        }
        if path.len() > KEY_BITS - below {
            return Err(TrieStoreError::TooHigh);
        }
        let hash = edge_hash(self.rows[child as usize].hash, path.as_slice());
        let height = below + path.len();
        let row = Row {
            node: StoredNode::Edge { child, path },
            hash,
            height,
            first_leaf: Felt::zero(),
            second_leaf: Felt::zero(),
        };
        proof {
            let rows = self@;
            let more = rows.push(row_view(row));
            assert(self.rows@.push(row).map_values(|row: Row| row_view(row)) =~= more);
            lemma_stored_tree_stays(rows, more, child as nat);
            lemma_push_ok(rows, row_view(row));
        }
        self.rows.push(row);
        Ok(n as u64)
    }

    /// Stores a node with two leaves.
    pub fn push_leaf_binary(&mut self, left: Felt, right: Felt) -> (r: Result<u64, TrieStoreError>)
        requires
            old(self).wf(),
        ensures
            final(self).wf(),
            r == (if left@ == 0 || right@ == 0 {
                Err::<u64, TrieStoreError>(TrieStoreError::ZeroLeaf)
            } else {
                Ok(old(self)@.len() as u64)
            }),
            r matches Ok(index) ==> index == old(self)@.len(),
            r is Err ==> final(self)@ == old(self)@,
            r is Ok ==> final(self)@ == old(self)@.push(
                RowView {
                    node: NodeView::LeafBinary { left: left@, right: right@ },
                    hash: pedersen(left@, right@),
                    height: 1,
                },
            ),
    {
        let n = self.rows.len();
        if left.is_zero() || right.is_zero() {
            return Err(TrieStoreError::ZeroLeaf);
        }
        let hash = pedersen_hash(left, right);
        let row = Row {
            node: StoredNode::LeafBinary,
            hash,
            height: 1,
            first_leaf: left,
            second_leaf: right,
        };
        proof {
            let rows = self@;
            let more = rows.push(row_view(row));
            assert(self.rows@.push(row).map_values(|row: Row| row_view(row)) =~= more);
            reveal_with_fuel(crate::patricia::hash, 3);
            lemma_push_ok(rows, row_view(row));
        }
        self.rows.push(row);
        Ok(n as u64)
    }

    /// Stores a node with one leaf.
    pub fn push_leaf_edge(&mut self, path: Vec<bool>, value: Felt) -> (r: Result<
        u64,
        TrieStoreError,
    >)
        requires
            old(self).wf(),
        ensures
            final(self).wf(),
            r == (if value@ == 0 {
                Err::<u64, TrieStoreError>(TrieStoreError::ZeroLeaf)
            } else if path@.len() == 0 {
                Err(TrieStoreError::EmptyPath)
            } else if path@.len() > KEY_BITS {
                Err(TrieStoreError::TooHigh)
            } else {
                Ok(old(self)@.len() as u64)
            }),
            r matches Ok(index) ==> index == old(self)@.len(),
            r is Err ==> final(self)@ == old(self)@,
            r is Ok ==> final(self)@ == old(self)@.push(
                RowView {
                    node: NodeView::LeafEdge { path: path@, value: value@ },
                    hash: (pedersen(value@, bits_value(path@)) + path@.len()) % modulus(),
                    height: path@.len(),
                },
            ),
    {
        let n = self.rows.len();
        if value.is_zero() {
            return Err(TrieStoreError::ZeroLeaf);
        }
        if path.len() == 0 {
            return Err(TrieStoreError::EmptyPath);
        }
        if path.len() > KEY_BITS {
            return Err(TrieStoreError::TooHigh);
        }
        let hash = edge_hash(value, path.as_slice());
        let height = path.len();
        let row = Row {
            node: StoredNode::LeafEdge { path },
            hash,
            height,
            first_leaf: value,
            second_leaf: Felt::zero(),
        };
        proof {
            let rows = self@;
            let more = rows.push(row_view(row));
            assert(self.rows@.push(row).map_values(|row: Row| row_view(row)) =~= more);
            reveal_with_fuel(crate::patricia::hash, 3);
            lemma_push_ok(rows, row_view(row));
        }
        self.rows.push(row);
        Ok(n as u64)
    }
}

/// A node to be stored: a stored node with the values of its leaves.
#[derive(Clone, Debug, PartialEq, Eq)]
pub enum NewNode {
    Binary { left: u64, right: u64 },
    Edge { child: u64, path: Vec<bool> },
    LeafBinary { left: Felt, right: Felt },
    LeafEdge { path: Vec<bool>, value: Felt },
}

/// The row that a node to be stored makes in a table, with the hash and
/// the height that the table gives it, or why the table refuses the node.
pub open spec fn new_row(rows: Seq<RowView>, node: NewNode) -> Result<RowView, TrieStoreError> {
    match node {
        NewNode::Binary { left, right } => if left >= rows.len() || right >= rows.len() {
            Err(TrieStoreError::MissingNode)
        } else if rows[left as int].height != rows[right as int].height {
            Err(TrieStoreError::HeightMismatch)
        } else if rows[left as int].height >= KEY_BITS {
            Err(TrieStoreError::TooHigh)
        } else {
            Ok(
                RowView {
                    node: NodeView::Binary { left: left as nat, right: right as nat },
                    hash: pedersen(rows[left as int].hash, rows[right as int].hash),
                    height: rows[left as int].height + 1,
                },
            )
        },
        NewNode::Edge { child, path } => if child >= rows.len() {
            Err(TrieStoreError::MissingNode)
        } else if path@.len() == 0 {
            Err(TrieStoreError::EmptyPath)
        } else if rows[child as int].node is Edge || rows[child as int].node is LeafEdge {
            Err(TrieStoreError::EdgeBelowEdge)
        } else if rows[child as int].height + path@.len() > KEY_BITS {
            Err(TrieStoreError::TooHigh)
        } else {
            Ok(
                RowView {
                    node: NodeView::Edge { child: child as nat, path: path@ },
                    hash: (pedersen(rows[child as int].hash, bits_value(path@)) + path@.len())
                        % modulus(),
                    height: rows[child as int].height + path@.len(),
                },
            )
        },
        NewNode::LeafBinary { left, right } => if left@ == 0 || right@ == 0 {
            Err(TrieStoreError::ZeroLeaf)
        } else {
            Ok(
                RowView {
                    node: NodeView::LeafBinary { left: left@, right: right@ },
                    hash: pedersen(left@, right@),
                    height: 1,
                },
            )
        },
        NewNode::LeafEdge { path, value } => if value@ == 0 {
            Err(TrieStoreError::ZeroLeaf)
        } else if path@.len() == 0 {
            Err(TrieStoreError::EmptyPath)
        } else if path@.len() > KEY_BITS {
            Err(TrieStoreError::TooHigh)
        } else {
            Ok(
                RowView {
                    node: NodeView::LeafEdge { path: path@, value: value@ },
                    hash: (pedersen(value@, bits_value(path@)) + path@.len()) % modulus(),
                    height: path@.len(),
                },
            )
        },
    }
}

/// The hash of a stored node as it is computed from what is below the
/// node: from the stored hashes of its children and from its path, or from
/// its leaves. There is none where a child is not stored or the path is
/// longer than a key.
pub open spec fn recomputed_hash(rows: Seq<RowView>, index: int) -> Option<nat> {
    match rows[index].node {
        NodeView::Binary { left, right } => if left < rows.len() && right < rows.len() {
            Some(pedersen(rows[left as int].hash, rows[right as int].hash))
        } else {
            None
        },
        NodeView::Edge { child, path } => if child < rows.len() && path.len() <= KEY_BITS {
            Some((pedersen(rows[child as int].hash, bits_value(path)) + path.len()) % modulus())
        } else {
            None
        },
        NodeView::LeafBinary { left, right } => Some(pedersen(left, right)),
        NodeView::LeafEdge { path, value } => if path.len() <= KEY_BITS {
            Some((pedersen(value, bits_value(path)) + path.len()) % modulus())
        } else {
            None
        },
    }
}

/// Whether a node is stored and the hash stored with it is the one that is
/// computed from what is below it.
pub open spec fn hash_checks_out(rows: Seq<RowView>, index: nat) -> bool {
    index < rows.len() && recomputed_hash(rows, index as int) == Some(rows[index as int].hash)
}

/// In a well-formed table the hash of every node checks out.
pub proof fn lemma_hash_checks_out(rows: Seq<RowView>, index: nat)
    requires
        rows_ok(rows),
        index < rows.len(),
    ensures
        hash_checks_out(rows, index),
{
    reveal_with_fuel(hash, 3);
    assert(row_ok(rows, index as int));
    match rows[index as int].node {
        NodeView::Binary { left, right } => {
            assert(row_ok(rows, left as int));
            assert(row_ok(rows, right as int));
        },
        NodeView::Edge { child, path } => {
            assert(row_ok(rows, child as int));
        },
        _ => {},
    }
}

impl TrieStore {
    /// Stores a node of any kind: puts the row that the node makes last,
    /// where the node fits what the table holds, and gives its index.
    pub fn push(&mut self, node: NewNode) -> (r: Result<u64, TrieStoreError>)
        requires
            old(self).wf(),
        ensures
            final(self).wf(),
            match new_row(old(self)@, node) {
                Ok(row) => r == Ok::<u64, TrieStoreError>(old(self)@.len() as u64) && old(self)@.len()
                    <= u64::MAX && final(self)@ == old(self)@.push(row),
                Err(e) => r == Err::<u64, TrieStoreError>(e) && final(self)@ == old(self)@,
            },
    {
        match node {
            NewNode::Binary { left, right } => self.push_binary(left, right),
            NewNode::Edge { child, path } => self.push_edge(child, path),
            NewNode::LeafBinary { left, right } => self.push_leaf_binary(left, right),
            NewNode::LeafEdge { path, value } => self.push_leaf_edge(path, value),
        }
    }
}

} // verus!
