//! The binary Patricia-Merkle trie of height 251.
//!
//! A trie is loaded from a stored root or starts empty. Setting a value
//! only records the change; reading a value and committing make the
//! changes on the nodes in memory, reading stored nodes as they are needed.
//! Committing puts the nodes that the changes made into the table and gives
//! the new root.

use crate::felt::{bits_value, Felt, KEY_BITS};
use core::ops::ControlFlow;
use crate::merkle_node::{
    extends, lemma_node_tree_stays, node_ok, node_size, node_tree, opt_ok, opt_tree, resolve,
    update_node, InternalNode,
};
use crate::patricia::{
    apply, hash, height, keys_have_length, last_set, lemma_apply, lemma_lookup_binary,
    lemma_lookup_edge, lemma_update_wf, lemma_wf_height, lookup, root_hash, wf, wf_opt, Change,
    Tree,
};
use crate::trie_store::{
    begins_with, hash_checks_out, lemma_hash_checks_out, lemma_stored_tree_stays,
    lemma_stored_tree_wf, row_ok, rows_ok, shows, stored_tree, RowView, StoredNode, TrieStore,
};
use vstd::prelude::*;

verus! {

/// The number that an optional field element denotes.
pub open spec fn option_value(f: Option<Felt>) -> Option<nat> {
    match f {
        Some(f) => Some(f@),
        None => None,
    }
}

/// The value that a trie in memory holds under the key that the bits from
/// `depth` on make.
pub fn get_node(store: &TrieStore, node: &InternalNode, key: &[bool], depth: usize) -> (r: Option<
    Felt,
>)
    requires
        store.wf(),
        node_ok(store@, *node),
        depth <= key@.len(),
        wf(node_tree(store@, *node), (key@.len() - depth) as nat),
    ensures
        option_value(r) == lookup(
            Some(node_tree(store@, *node)),
            key@.subrange(depth as int, key@.len() as int),
        ),
    decreases key@.len() - depth, (if *node is Unresolved {
        1nat
    } else {
        0nat
    }),
{
    let ghost rest = key@.subrange(depth as int, key@.len() as int);
    // Reading the length of the key tells the verifier that it fits `usize`.
    let _limit: usize = key.len();
    match node {
        InternalNode::Unresolved(index) => {
            let loaded = resolve(store, *index);
            get_node(store, &loaded, key, depth)
        },
        InternalNode::Leaf(value) => {
            proof {
                assert(rest.len() == 0);
            }
            Some(*value)
        },
        InternalNode::Binary { left, right } => {
            proof {
                lemma_lookup_binary(node_tree(store@, **left), node_tree(store@, **right), rest);
                assert(rest.subrange(1, rest.len() as int) =~= key@.subrange(
                    depth + 1,
                    key@.len() as int,
                ));
                assert(rest[0] == key@[depth as int]);
            }
            if key[depth] {
                get_node(store, right, key, depth + 1)
            } else {
                get_node(store, left, key, depth + 1)
            }
        },
        InternalNode::Edge { path, child } => {
            proof {
                lemma_lookup_edge(path@, node_tree(store@, **child), rest);
                assert(rest.subrange(0, path@.len() as int) =~= key@.subrange(
                    depth as int,
                    depth + path@.len(),
                ));
                assert(rest.subrange(path@.len() as int, rest.len() as int) =~= key@.subrange(
                    depth + path@.len(),
                    key@.len() as int,
                ));
            }
            if begins_with(path.as_slice(), key, depth) {
                get_node(store, child, key, depth + path.len())
            } else {
                None
            }
        },
    }
}

/// Puts a trie in memory into the table: every node of it that is not
/// stored yet, children first. Gives the index of the root.
pub fn commit_node(store: &mut TrieStore, node: InternalNode) -> (index: u64)
    requires
        old(store).wf(),
        node_ok(old(store)@, node),
        wf(node_tree(old(store)@, node), height(node_tree(old(store)@, node))),
        1 <= height(node_tree(old(store)@, node)) <= KEY_BITS,
    ensures
        final(store).wf(),
        extends(final(store)@, old(store)@),
        index < final(store)@.len(),
        stored_tree(final(store)@, index as nat) == node_tree(old(store)@, node),
        final(store)@[index as int].height == height(node_tree(old(store)@, node)),
    decreases node_size(node), 1nat,
{
    let ghost rows = store@;
    match node {
        InternalNode::Unresolved(index) => {
            proof {
                store.lemma_wf();
                lemma_stored_tree_wf(rows, index as nat);
                lemma_wf_height(node_tree(rows, node), rows[index as int].height);
            }
            index
        },
        InternalNode::Leaf(value) => {
            // A leaf has height zero and is stored with the node above it.
            0
        },
        InternalNode::Binary { left, right } => commit_binary(store, *left, *right),
        InternalNode::Edge { path, child } => commit_edge(store, path, *child),
    }
}

/// Puts a node with two children into the table, the children first.
fn commit_binary(store: &mut TrieStore, left: InternalNode, right: InternalNode) -> (index: u64)
    requires
        old(store).wf(),
        node_ok(old(store)@, left),
        node_ok(old(store)@, right),
        wf(node_tree(old(store)@, left), height(node_tree(old(store)@, left))),
        wf(node_tree(old(store)@, right), height(node_tree(old(store)@, left))),
        height(node_tree(old(store)@, left)) < KEY_BITS,
    ensures
        final(store).wf(),
        extends(final(store)@, old(store)@),
        index < final(store)@.len(),
        stored_tree(final(store)@, index as nat) == Tree::Binary(
            Box::new(node_tree(old(store)@, left)),
            Box::new(node_tree(old(store)@, right)),
        ),
        final(store)@[index as int].height == height(node_tree(old(store)@, left)) + 1,
    decreases node_size(left) + node_size(right) + 1, 0nat,
{
    let ghost rows = store@;
    let ghost left_tree = node_tree(rows, left);
    let ghost right_tree = node_tree(rows, right);
    let ghost below = height(left_tree);
    proof {
        store.lemma_wf();
        lemma_not_a_leaf(rows, left);
        lemma_not_a_leaf(rows, right);
        lemma_wf_height(right_tree, below);
    }
    match (left, right) {
        (InternalNode::Leaf(a), InternalNode::Leaf(b)) => {
            let pushed = store.push_leaf_binary(a, b);
            proof {
                store.lemma_wf();
                assert(row_ok(store@, rows.len() as int));
            }
            pushed.unwrap()
        },
        (left, right) => {
            proof {
                // One leaf makes the other a leaf too: both are of one
                // height.
                if below == 0 {
                    assert(left_tree is Leaf);
                    assert(right_tree is Leaf);
                }
            }
            let left_index = commit_node(store, left);
            let ghost rows1 = store@;
            proof {
                lemma_node_tree_stays(rows, rows1, right);
            }
            let right_index = commit_node(store, right);
            let ghost rows2 = store@;
            proof {
                lemma_stored_tree_stays(rows1, rows2, left_index as nat);
            }
            let pushed = store.push_binary(left_index, right_index);
            proof {
                store.lemma_wf();
                let rows3 = store@;
                assert(row_ok(rows3, rows2.len() as int));
                lemma_stored_tree_stays(rows2, rows3, left_index as nat);
                lemma_stored_tree_stays(rows2, rows3, right_index as nat);
            }
            pushed.unwrap()
        },
    }
}

/// Puts a node with one child into the table, the child first.
fn commit_edge(store: &mut TrieStore, path: Vec<bool>, child: InternalNode) -> (index: u64)
    requires
        old(store).wf(),
        node_ok(old(store)@, child),
        wf(node_tree(old(store)@, child), height(node_tree(old(store)@, child))),
        !(node_tree(old(store)@, child) is Edge),
        path@.len() >= 1,
        height(node_tree(old(store)@, child)) + path@.len() <= KEY_BITS,
    ensures
        final(store).wf(),
        extends(final(store)@, old(store)@),
        index < final(store)@.len(),
        stored_tree(final(store)@, index as nat) == Tree::Edge(
            path@,
            Box::new(node_tree(old(store)@, child)),
        ),
        final(store)@[index as int].height == height(node_tree(old(store)@, child)) + path@.len(),
    decreases node_size(child) + 1, 0nat,
{
    let ghost rows = store@;
    let ghost child_tree = node_tree(rows, child);
    proof {
        store.lemma_wf();
        lemma_not_a_leaf(rows, child);
    }
    match child {
        InternalNode::Leaf(value) => {
            let pushed = store.push_leaf_edge(path, value);
            proof {
                store.lemma_wf();
                assert(row_ok(store@, rows.len() as int));
            }
            pushed.unwrap()
        },
        child => {
            let child_index = commit_node(store, child);
            let ghost rows1 = store@;
            proof {
                store.lemma_wf();
                lemma_stored_tree_wf(rows1, child_index as nat);
            }
            let pushed = store.push_edge(child_index, path);
            proof {
                store.lemma_wf();
                let rows2 = store@;
                assert(row_ok(rows2, rows1.len() as int));
                lemma_stored_tree_stays(rows1, rows2, child_index as nat);
            }
            pushed.unwrap()
        },
    }
}

/// A node in memory that stands for a leaf is a leaf: no stored node does.
proof fn lemma_not_a_leaf(rows: Seq<RowView>, node: InternalNode)
    requires
        rows_ok(rows),
        node_ok(rows, node),
    ensures
        node_tree(rows, node) is Leaf ==> node is Leaf,
{
    match node {
        InternalNode::Unresolved(index) => {
            assert(row_ok(rows, index as int));
        },
        _ => {},
    }
}

/// What a commit hands back.
#[derive(Debug)]
pub struct TrieUpdate {
    /// The hash of the root: zero for the empty trie.
    pub root: Felt,
    /// The index of the root, if the trie is not empty.
    pub root_index: Option<u64>,
    /// The nodes that the commit stored, each with its hash, in the order
    /// of their indices.
    pub nodes: Vec<(Felt, StoredNode)>,
}

/// A trie that is being worked on.
pub struct MerkleTree {
    root: Option<InternalNode>,
    leaves: Vec<(Vec<bool>, Felt)>,
    verify_hashes: bool,
}

/// The changes that a string of recorded pairs stands for.
pub open spec fn changes_of(leaves: Seq<(Vec<bool>, Felt)>) -> Seq<Change> {
    leaves.map_values(|pair: (Vec<bool>, Felt)| (pair.0@, pair.1@))
}

impl MerkleTree {
    /// The trie that was loaded, given what is stored.
    pub closed spec fn base(&self, rows: Seq<RowView>) -> Option<Tree> {
        opt_tree(rows, self.root)
    }

    /// The changes that were recorded since, in their order.
    pub closed spec fn pending(&self) -> Seq<Change> {
        changes_of(self.leaves@)
    }

    /// Whether hashes are checked when the trie is committed.
    pub closed spec fn verifies_hashes(&self) -> bool {
        self.verify_hashes
    }

    /// The trie as it stands: what was loaded, with the recorded changes
    /// made.
    pub open spec fn tree(&self, rows: Seq<RowView>) -> Option<Tree> {
        apply(self.base(rows), self.pending())
    }

    /// Whether the trie fits what is stored: its root is a stored trie of
    /// full height or none, and every recorded change is to a full key.
    pub closed spec fn wf_in(&self, rows: Seq<RowView>) -> bool {
        &&& opt_ok(rows, self.root)
        &&& wf_opt(opt_tree(rows, self.root), KEY_BITS as nat)
        &&& keys_have_length(changes_of(self.leaves@), KEY_BITS as nat)
    }

    /// What a trie that fits holds to.
    pub proof fn lemma_wf_in(&self, rows: Seq<RowView>)
        requires
            self.wf_in(rows),
        ensures
            wf_opt(self.base(rows), KEY_BITS as nat),
            keys_have_length(self.pending(), KEY_BITS as nat),
            wf_opt(self.tree(rows), KEY_BITS as nat),
    {
        lemma_apply(
            self.base(rows),
            KEY_BITS as nat,
            self.pending(),
            Seq::new(KEY_BITS as nat, |i: int| false),
        );
    }

    /// A trie that fits stays so when more nodes are stored, and stays the
    /// same trie.
    pub proof fn lemma_stays(&self, rows: Seq<RowView>, more: Seq<RowView>)
        requires
            self.wf_in(rows),
            extends(more, rows),
        ensures
            self.wf_in(more),
            self.base(more) == self.base(rows),
            self.tree(more) == self.tree(rows),
    {
        if let Some(node) = self.root {
            lemma_node_tree_stays(rows, more, node);
        }
    }

    /// The empty trie.
    pub fn empty() -> (r: MerkleTree)
        ensures
            forall|rows: Seq<RowView>| #[trigger] r.wf_in(rows),
            forall|rows: Seq<RowView>| #[trigger] r.base(rows) is None,
            r.pending() == Seq::<Change>::empty(),
            !r.verifies_hashes(),
    {
        let r = MerkleTree { root: None, leaves: Vec::new(), verify_hashes: false };
        proof {
            assert(r.pending() =~= Seq::<Change>::empty());
        }
        r
    }

    /// The trie with the stored root `root`. It fits every table in which
    /// that root is stored with the full height.
    pub fn new(root: u64) -> (r: MerkleTree)
        ensures
            forall|rows: Seq<RowView>| #[trigger]
                r.base(rows) == Some(stored_tree(rows, root as nat)),
            forall|rows: Seq<RowView>|
                rows_ok(rows) && root < rows.len() && rows[root as int].height == KEY_BITS
                    ==> #[trigger] r.wf_in(rows),
            r.pending() == Seq::<Change>::empty(),
            !r.verifies_hashes(),
    {
        let r = MerkleTree {
            root: Some(InternalNode::Unresolved(root)),
            leaves: Vec::new(),
            verify_hashes: false,
        };
        proof {
            assert(r.pending() =~= Seq::<Change>::empty());
            assert forall|rows: Seq<RowView>|
                rows_ok(rows) && root < rows.len() && rows[root as int].height
                    == KEY_BITS implies #[trigger] r.wf_in(rows) by {
                lemma_stored_tree_wf(rows, root as nat);
            }
        }
        r
    }

    /// The same trie, checking hashes at commit or not.
    pub fn with_verify_hashes(self, verify_hashes: bool) -> (r: MerkleTree)
        ensures
            r.verifies_hashes() == verify_hashes,
            r.pending() == self.pending(),
            forall|rows: Seq<RowView>| #[trigger] r.base(rows) == self.base(rows),
            forall|rows: Seq<RowView>| self.wf_in(rows) ==> #[trigger] r.wf_in(rows),
    {
        MerkleTree { root: self.root, leaves: self.leaves, verify_hashes }
    }

    /// Records that a value is to be set under a key of 251 bits. To set
    /// zero is to take the key out. The table is not touched.
    pub fn set(&mut self, key: Vec<bool>, value: Felt)
        requires
            key@.len() == KEY_BITS,
        ensures
            final(self).pending() == old(self).pending().push((key@, value@)),
            final(self).verifies_hashes() == old(self).verifies_hashes(),
            forall|rows: Seq<RowView>| #[trigger] final(self).base(rows) == old(self).base(rows),
            forall|rows: Seq<RowView>| old(self).wf_in(rows) ==> #[trigger] final(self).wf_in(rows),
    {
        let ghost before = self.leaves@;
        self.leaves.push((key, value));
        proof {
            assert(changes_of(self.leaves@) =~= changes_of(before).push((key@, value@)));
        }
    }

    /// The value that the trie holds under a key of 251 bits, if it holds
    /// one: what the last recorded change to the key set, or else what the
    /// loaded trie holds.
    pub fn get(&self, store: &TrieStore, key: &[bool]) -> (r: Option<Felt>)
        requires
            store.wf(),
            self.wf_in(store@),
            key@.len() == KEY_BITS,
        ensures
            option_value(r) == lookup(self.tree(store@), key@),
    {
        let mut i: usize = self.leaves.len();
        proof {
            assert(self.pending().subrange(0, i as int) =~= self.pending());
        }
        while i > 0
            invariant
                i <= self.leaves@.len(),
                self.wf_in(store@),
                key@.len() == KEY_BITS,
                last_set(self.pending(), key@) == last_set(
                    self.pending().subrange(0, i as int),
                    key@,
                ),
            decreases i,
        {
            let ghost prefix = self.pending().subrange(0, i as int);
            i = i - 1;
            proof {
                assert(prefix.last() == (self.leaves@[i as int].0@, self.leaves@[i as int].1@));
                assert(prefix.drop_last() =~= self.pending().subrange(0, i as int));
            }
            if same_bits(self.leaves[i].0.as_slice(), key) {
                let value = self.leaves[i].1;
                proof {
                    lemma_apply(self.base(store@), KEY_BITS as nat, self.pending(), key@);
                }
                return if value.is_zero() {
                    None
                } else {
                    Some(value)
                };
            }
        }
        proof {
            lemma_apply(self.base(store@), KEY_BITS as nat, self.pending(), key@);
        }
        match &self.root {
            Some(node) => {
                proof {
                    assert(key@.subrange(0, key@.len() as int) =~= key@);
                }
                get_node(store, node, key, 0)
            },
            None => {
                proof {
                    crate::patricia::lemma_lookup_empty(key@);
                }
                None
            },
        }
    }

    /// Makes the recorded changes on the nodes in memory, reading stored
    /// nodes as they are needed. The trie stays the same trie, with nothing
    /// left to be made.
    pub fn flush(&mut self, store: &TrieStore)
        requires
            store.wf(),
            old(self).wf_in(store@),
        ensures
            final(self).wf_in(store@),
            final(self).pending() == Seq::<Change>::empty(),
            final(self).base(store@) == old(self).tree(store@),
            final(self).tree(store@) == old(self).tree(store@),
            final(self).verifies_hashes() == old(self).verifies_hashes(),
    {
        let ghost rows = store@;
        let ghost all = self.pending();
        let ghost base = self.base(rows);
        let mut root: Option<InternalNode> = None;
        let mut leaves: Vec<(Vec<bool>, Felt)> = Vec::new();
        core::mem::swap(&mut self.root, &mut root);
        core::mem::swap(&mut self.leaves, &mut leaves);
        let mut i: usize = 0;
        proof {
            assert(all.subrange(0, 0) =~= Seq::<Change>::empty());
        }
        while i < leaves.len()
            invariant
                i <= leaves@.len(),
                store@ == rows,
                store.wf(),
                all == changes_of(leaves@),
                keys_have_length(all, KEY_BITS as nat),
                opt_ok(rows, root),
                wf_opt(opt_tree(rows, root), KEY_BITS as nat),
                opt_tree(rows, root) == apply(base, all.subrange(0, i as int)),
            decreases leaves@.len() - i,
        {
            let key = crate::trie_store::copy_bits(leaves[i].0.as_slice());
            let value = leaves[i].1;
            proof {
                let next = all.subrange(0, i + 1);
                assert(next.drop_last() =~= all.subrange(0, i as int));
                assert(next.last() == all[i as int]);
                assert(all[i as int] == (key@, value@));
                assert(key@.subrange(0, key@.len() as int) =~= key@);
                lemma_update_wf(opt_tree(rows, root), key@, value@);
            }
            root = update_node(store, root, key.as_slice(), 0, value);
            i = i + 1;
        }
        proof {
            assert(all.subrange(0, i as int) =~= all);
        }
        self.root = root;
        proof {
            assert(changes_of(self.leaves@) =~= Seq::<Change>::empty());
        }
    }

    /// Walks through the trie as it stands, asking the visitor at every
    /// node: to a node first, then through what is below it, the side of
    /// the clear bit before the side of the set bit. The visitor may leave
    /// out what is below a node, and may break the walk off with a value,
    /// which is then the result.
    ///
    /// The visitor must take every node and answer the same to the same
    /// node.
    pub fn dfs<B, F: Fn(NodeVisit) -> ControlFlow<B, Visit>>(&mut self, store: &TrieStore, f: &F) -> (r:
        Option<B>)
        requires
            store.wf(),
            old(self).wf_in(store@),
            is_visitor(*f),
        ensures
            final(self).wf_in(store@),
            final(self).tree(store@) == old(self).tree(store@),
            r == (match old(self).tree(store@) {
                Some(t) => dfs_result(*f, t, Seq::empty()),
                None => None,
            }),
    {
        self.flush(store);
        match &self.root {
            Some(node) => {
                let prefix: Vec<bool> = Vec::new();
                proof {
                    assert(prefix@ =~= Seq::<bool>::empty());
                }
                walk_with(store, node, prefix, Ghost(KEY_BITS as nat), f)
            },
            None => None,
        }
    }

    /// The nodes of the trie as it stands, each with the bits that lead to
    /// it from the root, in the order of a walk that goes to a node first,
    /// then through what is below it, the side of the clear bit before the
    /// side of the set bit.
    pub fn dfs_nodes(&mut self, store: &TrieStore) -> (r: Vec<Visited>)
        requires
            store.wf(),
            old(self).wf_in(store@),
        ensures
            final(self).wf_in(store@),
            final(self).tree(store@) == old(self).tree(store@),
            visited_view(r@) == (match old(self).tree(store@) {
                Some(t) => dfs_order(t, Seq::empty()),
                None => Seq::empty(),
            }),
    {
        self.flush(store);
        let mut out: Vec<Visited> = Vec::new();
        proof {
            assert(visited_view(out@) =~= Seq::<VisitedView>::empty());
        }
        match &self.root {
            Some(node) => {
                let prefix: Vec<bool> = Vec::new();
                proof {
                    assert(prefix@ =~= Seq::<bool>::empty());
                }
                walk(store, node, prefix, Ghost(KEY_BITS as nat), &mut out);
                proof {
                    assert(Seq::<VisitedView>::empty() + dfs_order(
                        node_tree(store@, *node),
                        Seq::empty(),
                    ) =~= dfs_order(node_tree(store@, *node), Seq::empty()));
                }
            },
            None => {},
        }
        out
    }

    /// Makes the recorded changes, puts the nodes that they made into the
    /// table, and gives the new root with those nodes.
    pub fn commit(self, store: &mut TrieStore) -> (r: TrieUpdate)
        requires
            old(store).wf(),
            self.wf_in(old(store)@),
        ensures
            final(store).wf(),
            extends(final(store)@, old(store)@),
            r.root@ == root_hash(self.tree(old(store)@)),
            r.root_index is Some <==> self.tree(old(store)@) is Some,
            r.root_index matches Some(index) ==> index < final(store)@.len() && Some(
                stored_tree(final(store)@, index as nat),
            ) == self.tree(old(store)@) && final(store)@[index as int].height == KEY_BITS,
            r.nodes@.len() == final(store)@.len() - old(store)@.len(),
            forall|k: int|
                0 <= k < r.nodes@.len() ==> {
                    let row = final(store)@[old(store)@.len() + k];
                    (#[trigger] r.nodes@[k]).0@ == row.hash && shows(r.nodes@[k].1, row.node)
                },
    {
        let ghost rows = store@;
        let mut tree = self;
        tree.flush(store);
        let MerkleTree { root, leaves, verify_hashes } = tree;
        let first_new = store.len();
        let (hash_of_root, root_index) = match root {
            None => (Felt::zero(), None),
            Some(node) => {
                proof {
                    lemma_wf_height(node_tree(rows, node), KEY_BITS as nat);
                }
                if verify_hashes {
                    // A hash that is not the stored one would be a corrupt
                    // table. The table computes the hash of every node that
                    // it takes, so none is.
                    let sound = verify_loaded(store, &node);
                    proof {
                        store.lemma_wf();
                        lemma_loaded_checks_out(store@, node);
                    }
                    assert(sound);
                }
                let index = commit_node(store, node);
                proof {
                    store.lemma_wf();
                    assert(row_ok(store@, index as int));
                }
                (store.hash(index).unwrap(), Some(index))
            },
        };
        let mut nodes: Vec<(Felt, StoredNode)> = Vec::new();
        let mut k: usize = first_new;
        while k < store.len()
            invariant
                first_new <= k <= store@.len(),
                nodes@.len() == k - first_new,
                forall|j: int|
                    0 <= j < nodes@.len() ==> (#[trigger] nodes@[j]).0@ == store@[first_new
                        + j].hash && shows(nodes@[j].1, store@[first_new + j].node),
            decreases store@.len() - k,
        {
            let node = store.get(k as u64).unwrap();
            let node_hash = store.hash(k as u64).unwrap();
            nodes.push((node_hash, node));
            k = k + 1;
        }
        TrieUpdate { root: hash_of_root, root_index, nodes }
    }
}

/// What a node is, without what is below it.
#[derive(Clone, Debug, PartialEq, Eq)]
pub enum VisitedNode {
    /// A node with two children.
    Binary,
    /// A node with one child and the bits that lead to it.
    Edge { path: Vec<bool> },
    /// A value.
    Leaf(Felt),
}

/// A node that a walk came to, with the bits that lead to it from the
/// root.
#[derive(Clone, Debug, PartialEq, Eq)]
pub struct Visited {
    pub path: Vec<bool>,
    pub node: VisitedNode,
}

/// What a node is, without what is below it.
pub ghost enum ShapeView {
    Binary,
    Edge { path: Seq<bool> },
    Leaf(nat),
}

/// A node that a walk came to, with the bits that lead to it.
pub ghost struct VisitedView {
    pub path: Seq<bool>,
    pub node: ShapeView,
}

impl View for Visited {
    type V = VisitedView;

    open spec fn view(&self) -> VisitedView {
        VisitedView {
            path: self.path@,
            node: match self.node {
                VisitedNode::Binary => ShapeView::Binary,
                VisitedNode::Edge { path } => ShapeView::Edge { path: path@ },
                VisitedNode::Leaf(v) => ShapeView::Leaf(v@),
            },
        }
    }
}

/// What a string of visited nodes is.
pub open spec fn visited_view(nodes: Seq<Visited>) -> Seq<VisitedView> {
    nodes.map_values(|n: Visited| n@)
}

/// The nodes of a trie that stands under the bits `prefix`, in the order
/// of the walk.
pub open spec fn dfs_order(t: Tree, prefix: Seq<bool>) -> Seq<VisitedView>
    decreases t,
{
    match t {
        Tree::Leaf(v) => seq![VisitedView { path: prefix, node: ShapeView::Leaf(v) }],
        Tree::Binary(l, r) => seq![VisitedView { path: prefix, node: ShapeView::Binary }]
            + dfs_order(*l, prefix.push(false)) + dfs_order(*r, prefix.push(true)),
        Tree::Edge(p, c) => seq![VisitedView { path: prefix, node: ShapeView::Edge { path: p } }]
            + dfs_order(*c, prefix + p),
    }
}

/// The bits of two strings, one after the other.
fn join_bits(a: &Vec<bool>, b: &Vec<bool>) -> (r: Vec<bool>)
    ensures
        r@ == a@ + b@,
{
    let mut out = crate::trie_store::copy_bits(a.as_slice());
    let mut i: usize = 0;
    while i < b.len()
        invariant
            i <= b@.len(),
            out@ == a@ + b@.subrange(0, i as int),
        decreases b@.len() - i,
    {
        out.push(b[i]);
        proof {
            assert(out@ =~= a@ + b@.subrange(0, i + 1));
        }
        i = i + 1;
    }
    proof {
        assert(b@.subrange(0, i as int) =~= b@);
    }
    out
}

/// Walks through a trie in memory that stands under the bits `prefix`,
/// and puts its nodes after those in `out`.
fn walk(
    store: &TrieStore,
    node: &InternalNode,
    prefix: Vec<bool>,
    Ghost(h): Ghost<nat>,
    out: &mut Vec<Visited>,
)
    requires
        store.wf(),
        node_ok(store@, *node),
        wf(node_tree(store@, *node), h),
    ensures
        visited_view(final(out)@) == visited_view(old(out)@) + dfs_order(
            node_tree(store@, *node),
            prefix@,
        ),
    decreases h, (if *node is Unresolved {
        1nat
    } else {
        0nat
    }),
{
    let ghost before = visited_view(out@);
    match node {
        InternalNode::Unresolved(index) => {
            let loaded = resolve(store, *index);
            walk(store, &loaded, prefix, Ghost(h), out);
        },
        InternalNode::Leaf(value) => {
            let entry = Visited { path: prefix, node: VisitedNode::Leaf(*value) };
            out.push(entry);
            proof {
                assert(visited_view(out@) =~= before + seq![entry@]);
            }
        },
        InternalNode::Binary { left, right } => {
            let mut one: Vec<bool> = Vec::new();
            one.push(false);
            let left_prefix = join_bits(&prefix, &one);
            let mut other: Vec<bool> = Vec::new();
            other.push(true);
            let right_prefix = join_bits(&prefix, &other);
            proof {
                assert(left_prefix@ =~= prefix@.push(false));
                assert(right_prefix@ =~= prefix@.push(true));
            }
            let entry = Visited { path: prefix, node: VisitedNode::Binary };
            out.push(entry);
            let ghost first = visited_view(out@);
            proof {
                assert(first =~= before + seq![entry@]);
            }
            walk(store, left, left_prefix, Ghost((h - 1) as nat), out);
            let ghost second = visited_view(out@);
            walk(store, right, right_prefix, Ghost((h - 1) as nat), out);
            proof {
                let l = dfs_order(node_tree(store@, **left), prefix@.push(false));
                let r = dfs_order(node_tree(store@, **right), prefix@.push(true));
                assert(visited_view(out@) =~= before + (seq![entry@] + l + r));
            }
        },
        InternalNode::Edge { path, child } => {
            let below = join_bits(&prefix, path);
            let entry = Visited {
                path: prefix,
                node: VisitedNode::Edge { path: crate::trie_store::copy_bits(path.as_slice()) },
            };
            out.push(entry);
            proof {
                assert(visited_view(out@) =~= before + seq![entry@]);
            }
            walk(store, child, below, Ghost((h - path@.len()) as nat), out);
            proof {
                let c = dfs_order(node_tree(store@, **child), prefix@ + path@);
                assert(visited_view(out@) =~= before + (seq![entry@] + c));
            }
        },
    }
}

/// What a visitor tells a walk to do after a node.
#[derive(Clone, Copy, Debug, PartialEq, Eq, Structural)]
pub enum Visit {
    /// Go on through what is below the node.
    ContinueDeeper,
    /// Leave out what is below the node.
    StopSubtree,
}

/// What a node is, as a visitor sees it: a path is given as the number
/// that its bits denote and the number of the bits.
#[derive(Clone, Copy, Debug, PartialEq, Eq, Structural)]
pub enum NodeSummary {
    /// A node with two children.
    Binary,
    /// A node with one child and the path that leads to it.
    Edge { path: Felt, length: usize },
    /// A value.
    Leaf(Felt),
}

/// A node as a visitor sees it, with the path that leads to it from the
/// root.
#[derive(Clone, Copy, Debug, PartialEq, Eq, Structural)]
pub struct NodeVisit {
    pub path: Felt,
    pub depth: usize,
    pub node: NodeSummary,
}

/// What a visitor sees of a trie that stands under the bits `prefix`.
pub open spec fn visit_of(t: Tree, prefix: Seq<bool>) -> NodeVisit {
    NodeVisit {
        path: Felt::of_nat(bits_value(prefix)),
        depth: prefix.len() as usize,
        node: match t {
            Tree::Leaf(v) => NodeSummary::Leaf(Felt::of_nat(v)),
            Tree::Binary(l, r) => NodeSummary::Binary,
            Tree::Edge(p, c) => NodeSummary::Edge {
                path: Felt::of_nat(bits_value(p)),
                length: p.len() as usize,
            },
        },
    }
}

/// What a visitor answers to a node.
pub open spec fn answer<B, F: Fn(NodeVisit) -> ControlFlow<B, Visit>>(f: F, visit: NodeVisit) -> ControlFlow<
    B,
    Visit,
> {
    choose|out: ControlFlow<B, Visit>| call_ensures(f, (visit,), out)
}

/// Whether a visitor can be asked about every node and answers the same
/// to the same node.
pub open spec fn is_visitor<B, F: Fn(NodeVisit) -> ControlFlow<B, Visit>>(f: F) -> bool {
    &&& forall|visit: NodeVisit| call_requires(f, (visit,))
    &&& forall|visit: NodeVisit, a: ControlFlow<B, Visit>, b: ControlFlow<B, Visit>|
        call_ensures(f, (visit,), a) && call_ensures(f, (visit,), b) ==> a == b
}

/// What a walk through a trie that stands under the bits `prefix` gives:
/// the value with which the visitor breaks off at the first node where it
/// does, going to a node first and then through what is below it unless the
/// visitor says to leave that out.
pub open spec fn dfs_result<B, F: Fn(NodeVisit) -> ControlFlow<B, Visit>>(
    f: F,
    t: Tree,
    prefix: Seq<bool>,
) -> Option<B>
    decreases t,
{
    match answer(f, visit_of(t, prefix)) {
        ControlFlow::Break(b) => Some(b),
        ControlFlow::Continue(Visit::StopSubtree) => None,
        ControlFlow::Continue(Visit::ContinueDeeper) => match t {
            Tree::Leaf(v) => None,
            Tree::Binary(l, r) => match dfs_result(f, *l, prefix.push(false)) {
                Some(b) => Some(b),
                None => dfs_result(f, *r, prefix.push(true)),
            },
            Tree::Edge(p, c) => dfs_result(f, *c, prefix + p),
        },
    }
}

/// Walks through a trie in memory that stands under the bits `prefix`,
/// asking the visitor at every node.
fn walk_with<B, F: Fn(NodeVisit) -> ControlFlow<B, Visit>>(
    store: &TrieStore,
    node: &InternalNode,
    prefix: Vec<bool>,
    Ghost(h): Ghost<nat>,
    f: &F,
) -> (r: Option<B>)
    requires
        store.wf(),
        node_ok(store@, *node),
        wf(node_tree(store@, *node), h),
        prefix@.len() + h <= KEY_BITS,
        is_visitor(*f),
    ensures
        r == dfs_result(*f, node_tree(store@, *node), prefix@),
    decreases h, (if *node is Unresolved {
        1nat
    } else {
        0nat
    }),
{
    let ghost tree = node_tree(store@, *node);
    let summary = match node {
        InternalNode::Unresolved(index) => {
            let loaded = resolve(store, *index);
            return walk_with(store, &loaded, prefix, Ghost(h), f);
        },
        InternalNode::Leaf(value) => {
            proof {
                value.lemma_of_nat();
            }
            NodeSummary::Leaf(*value)
        },
        InternalNode::Binary { .. } => NodeSummary::Binary,
        InternalNode::Edge { path, .. } => {
            let number = Felt::from_bits(path.as_slice());
            proof {
                number.lemma_of_nat();
            }
            NodeSummary::Edge { path: number, length: path.len() }
        },
    };
    let path = Felt::from_bits(prefix.as_slice());
    proof {
        path.lemma_of_nat();
    }
    let visit = NodeVisit { path, depth: prefix.len(), node: summary };
    proof {
        assert(visit == visit_of(tree, prefix@));
    }
    let out = f(visit);
    match out {
        ControlFlow::Break(b) => Some(b),
        ControlFlow::Continue(Visit::StopSubtree) => None,
        ControlFlow::Continue(Visit::ContinueDeeper) => match node {
            InternalNode::Binary { left, right } => {
                let mut one: Vec<bool> = Vec::new();
                one.push(false);
                let left_prefix = join_bits(&prefix, &one);
                let mut other: Vec<bool> = Vec::new();
                other.push(true);
                let right_prefix = join_bits(&prefix, &other);
                proof {
                    assert(left_prefix@ =~= prefix@.push(false));
                    assert(right_prefix@ =~= prefix@.push(true));
                }
                match walk_with(store, left, left_prefix, Ghost((h - 1) as nat), f) {
                    Some(b) => Some(b),
                    None => walk_with(store, right, right_prefix, Ghost((h - 1) as nat), f),
                }
            },
            InternalNode::Edge { path, child } => {
                let below = join_bits(&prefix, path);
                walk_with(store, child, below, Ghost((h - path@.len()) as nat), f)
            },
            _ => None,
        },
    }
}

/// Whether two strings of bits are one string.
pub fn same_bits(a: &[bool], b: &[bool]) -> (r: bool)
    ensures
        r == (a@ == b@),
{
    if a.len() != b.len() {
        return false;
    }
    let mut i: usize = 0;
    while i < a.len()
        invariant
            i <= a@.len(),
            a@.len() == b@.len(),
            forall|j: int| 0 <= j < i ==> a@[j] == b@[j],
        decreases a@.len() - i,
    {
        if a[i] != b[i] {
            return false;
        }
        i = i + 1;
    }
    proof {
        assert(a@ =~= b@);
    }
    true
}

/// Whether the hash of every stored node that a trie in memory names
/// checks out.
pub open spec fn loaded_checks_out(rows: Seq<RowView>, node: InternalNode) -> bool
    decreases node,
{
    match node {
        InternalNode::Unresolved(index) => hash_checks_out(rows, index as nat),
        InternalNode::Binary { left, right } => loaded_checks_out(rows, *left)
            && loaded_checks_out(rows, *right),
        InternalNode::Edge { path, child } => loaded_checks_out(rows, *child),
        InternalNode::Leaf(value) => true,
    }
}

/// In a well-formed table the hash of every stored node that a trie in
/// memory names checks out.
pub proof fn lemma_loaded_checks_out(rows: Seq<RowView>, node: InternalNode)
    requires
        rows_ok(rows),
        node_ok(rows, node),
    ensures
        loaded_checks_out(rows, node),
    decreases node,
{
    match node {
        InternalNode::Unresolved(index) => {
            lemma_hash_checks_out(rows, index as nat);
        },
        InternalNode::Binary { left, right } => {
            lemma_loaded_checks_out(rows, *left);
            lemma_loaded_checks_out(rows, *right);
        },
        InternalNode::Edge { path, child } => {
            lemma_loaded_checks_out(rows, *child);
        },
        InternalNode::Leaf(value) => {},
    }
}

/// Checks the hash of every stored node that a trie in memory names
/// against the hashes of what is below it: whether all of them check out.
pub fn verify_loaded(store: &TrieStore, node: &InternalNode) -> (r: bool)
    ensures
        r == loaded_checks_out(store@, *node),
    decreases node,
{
    match node {
        InternalNode::Unresolved(index) => verify_stored(store, *index),
        InternalNode::Binary { left, right } => verify_loaded(store, left) && verify_loaded(
            store,
            right,
        ),
        InternalNode::Edge { path, child } => verify_loaded(store, child),
        InternalNode::Leaf(value) => true,
    }
}

/// Computes the hash of a stored node from what is below it and compares
/// it with the hash stored with the node: whether the node is stored, its
/// hash can be computed, and the two are the same.
pub fn verify_stored(store: &TrieStore, index: u64) -> (r: bool)
    ensures
        r == hash_checks_out(store@, index as nat),
{
    let Some(stored) = store.hash(index) else {
        return false;
    };
    let Some(node) = store.get(index) else {
        return false;
    };
    let computed = match node {
        StoredNode::Binary { left, right } => {
            let Some(left_hash) = store.hash(left) else {
                return false;
            };
            let Some(right_hash) = store.hash(right) else {
                return false;
            };
            crate::hash::pedersen_hash(left_hash, right_hash)
        },
        StoredNode::Edge { child, path } => {
            let Some(child_hash) = store.hash(child) else {
                return false;
            };
            if path.len() > KEY_BITS {
                return false;
            }
            crate::trie_store::edge_hash(child_hash, path.as_slice())
        },
        StoredNode::LeafBinary => {
            let Some(left) = store.leaf(index, false) else {
                return false;
            };
            let Some(right) = store.leaf(index, true) else {
                return false;
            };
            crate::hash::pedersen_hash(left, right)
        },
        StoredNode::LeafEdge { path } => {
            let Some(value) = store.leaf(index, false) else {
                return false;
            };
            if path.len() > KEY_BITS {
                return false;
            }
            crate::trie_store::edge_hash(value, path.as_slice())
        },
    };
    proof {
        computed.lemma_view_injective(stored);
    }
    computed == stored
}

} // verus!
