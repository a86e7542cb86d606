//! Proofs that a trie holds a value under a key, or holds none.
//!
//! A proof is the string of nodes on the way from the root towards the
//! key, each with the hashes of its children. Whoever knows the root's hash
//! replays the proof: checks each node's hash against the hash that the
//! node above it gave, and follows the key. The way ends at the key's value,
//! or at an edge that leads away from the key.

use crate::felt::{bits_value, modulus, Felt, KEY_BITS};
use crate::hash::{pedersen, pedersen_hash};
use crate::patricia::{
    hash, lemma_lookup_binary, lemma_lookup_edge, lemma_lookup_empty, lookup, root_hash, wf,
    wf_opt, Tree,
};
use crate::trie_store::{begins_with, edge_hash, row_ok, stored_tree, StoredNode, TrieStore};
use vstd::prelude::*;

verus! {

/// A node of a proof.
#[derive(Clone, Debug, PartialEq, Eq)]
pub enum TrieNode {
    /// A node with two children, by their hashes.
    Binary { left: Felt, right: Felt },
    /// A node with one child, by its hash, and the bits that lead to it.
    Edge { child: Felt, path: Vec<bool> },
}

/// What a node of a proof is.
pub ghost enum ProofNode {
    Binary { left: nat, right: nat },
    Edge { child: nat, path: Seq<bool> },
}

impl View for TrieNode {
    type V = ProofNode;

    open spec fn view(&self) -> ProofNode {
        match *self {
            TrieNode::Binary { left, right } => ProofNode::Binary { left: left@, right: right@ },
            TrieNode::Edge { child, path } => ProofNode::Edge { child: child@, path: path@ },
        }
    }
}

/// What a string of nodes of a proof is.
pub open spec fn proof_view(nodes: Seq<TrieNode>) -> Seq<ProofNode> {
    nodes.map_values(|n: TrieNode| n@)
}

/// The hash of a node of a proof.
pub open spec fn proof_node_hash(node: ProofNode) -> nat {
    match node {
        ProofNode::Binary { left, right } => pedersen(left, right),
        ProofNode::Edge { child, path } => (pedersen(child, bits_value(path)) + path.len())
            % modulus(),
    }
}

impl TrieNode {
    /// The hash of the node.
    pub fn hash(&self) -> (r: Felt)
        requires
            self matches TrieNode::Edge { path, .. } ==> path@.len() <= KEY_BITS,
        ensures
            r@ == proof_node_hash(self@),
    {
        match self {
            TrieNode::Binary { left, right } => pedersen_hash(*left, *right),
            TrieNode::Edge { child, path } => edge_hash(*child, path.as_slice()),
        }
    }
}

/// The proof for a key in a trie: the nodes on the way from the root
/// towards the key.
pub open spec fn tree_proof(t: Tree, key: Seq<bool>) -> Seq<ProofNode>
    decreases t,
{
    match t {
        Tree::Leaf(v) => Seq::empty(),
        Tree::Binary(l, r) => seq![ProofNode::Binary { left: hash(*l), right: hash(*r) }] + (
        if key.len() > 0 {
            tree_proof(
                if key[0] {
                    *r
                } else {
                    *l
                },
                key.subrange(1, key.len() as int),
            )
        } else {
            Seq::empty()
        }),
        Tree::Edge(p, c) => seq![ProofNode::Edge { child: hash(*c), path: p }] + (if p.len()
            <= key.len() && key.subrange(0, p.len() as int) == p {
            tree_proof(*c, key.subrange(p.len() as int, key.len() as int))
        } else {
            Seq::empty()
        }),
    }
}

/// The proof for a key in a trie that may be empty: no node for the empty
/// trie.
pub open spec fn root_proof(t: Option<Tree>, key: Seq<bool>) -> Seq<ProofNode> {
    match t {
        Some(t) => tree_proof(t, key),
        None => Seq::empty(),
    }
}

/// What a proof shows of a key.
#[derive(Clone, Copy, Debug, PartialEq, Eq, Structural)]
pub enum Membership {
    /// The trie holds this value under the key.
    Member(Felt),
    /// The trie holds nothing under the key.
    NonMember,
}

/// What replaying a proof against a hash and a key gives: the value that
/// the trie holds under the key, `Some(None)` where the proof shows that it
/// holds none, and `None` where the proof does not fit the hash or the key.
pub open spec fn replay(expected: nat, key: Seq<bool>, nodes: Seq<ProofNode>) -> Option<
    Option<nat>,
>
    decreases nodes.len(),
{
    if nodes.len() == 0 {
        if key.len() == 0 {
            Some(Some(expected))
        } else if expected == 0 {
            // The empty trie has the root zero and no node.
            Some(None)
        } else {
            None
        }
    } else if proof_node_hash(nodes[0]) != expected {
        None
    } else {
        match nodes[0] {
            ProofNode::Binary { left, right } => if key.len() == 0 {
                None
            } else {
                replay(
                    if key[0] {
                        right
                    } else {
                        left
                    },
                    key.subrange(1, key.len() as int),
                    nodes.subrange(1, nodes.len() as int),
                )
            },
            ProofNode::Edge { child, path } => if path.len() == 0 || path.len() > key.len() {
                None
            } else if key.subrange(0, path.len() as int) == path {
                replay(
                    child,
                    key.subrange(path.len() as int, key.len() as int),
                    nodes.subrange(1, nodes.len() as int),
                )
            } else if nodes.len() == 1 {
                Some(None)
            } else {
                None
            },
        }
    }
}

/// The proof for a key in a well-formed trie, replayed against the trie's
/// hash and the key, gives what the trie holds under the key.
pub proof fn lemma_proof_soundness(t: Tree, h: nat, key: Seq<bool>)
    requires
        wf(t, h),
        key.len() == h,
    ensures
        replay(hash(t), key, tree_proof(t, key)) == Some(lookup(Some(t), key)),
    decreases t,
{
    let nodes = tree_proof(t, key);
    match t {
        Tree::Leaf(v) => {},
        Tree::Binary(l, r) => {
            lemma_lookup_binary(*l, *r, key);
            let below = if key[0] {
                *r
            } else {
                *l
            };
            let rest = key.subrange(1, key.len() as int);
            lemma_proof_soundness(below, (h - 1) as nat, rest);
            assert(nodes.subrange(1, nodes.len() as int) =~= tree_proof(below, rest));
            assert(nodes[0] == ProofNode::Binary { left: hash(*l), right: hash(*r) });
        },
        Tree::Edge(p, c) => {
            lemma_lookup_edge(p, *c, key);
            assert(nodes[0] == ProofNode::Edge { child: hash(*c), path: p });
            if key.subrange(0, p.len() as int) == p {
                let rest = key.subrange(p.len() as int, key.len() as int);
                lemma_proof_soundness(*c, (h - p.len()) as nat, rest);
                assert(nodes.subrange(1, nodes.len() as int) =~= tree_proof(*c, rest));
            } else {
                assert(nodes.len() == 1);
            }
        },
    }
}

/// The proof for a key in a well-formed trie that may be empty, replayed
/// against the trie's root and the key, gives what the trie holds under
/// the key.
pub proof fn lemma_root_proof_soundness(t: Option<Tree>, h: nat, key: Seq<bool>)
    requires
        wf_opt(t, h),
        key.len() == h,
        h > 0,
    ensures
        replay(root_hash(t), key, root_proof(t, key)) == Some(lookup(t, key)),
{
    match t {
        Some(t) => {
            lemma_proof_soundness(t, h, key);
        },
        None => {
            lemma_lookup_empty(key);
        },
    }
}

/// Puts the proof for the key that the bits from `depth` on make, in the
/// stored trie with the given root, after the nodes in `out`.
fn collect_proof(store: &TrieStore, index: u64, key: &[bool], depth: usize, out: &mut Vec<TrieNode>)
    requires
        store.wf(),
        index < store@.len(),
        depth <= key@.len(),
        store@[index as int].height == key@.len() - depth,
    ensures
        proof_view(final(out)@) == proof_view(old(out)@) + tree_proof(
            stored_tree(store@, index as nat),
            key@.subrange(depth as int, key@.len() as int),
        ),
    decreases key@.len() - depth,
{
    let ghost rest = key@.subrange(depth as int, key@.len() as int);
    let ghost before = proof_view(out@);
    // Reading the length of the key tells the verifier that it fits `usize`.
    let _limit: usize = key.len();
    proof {
        store.lemma_wf();
        assert(row_ok(store@, index as int));
        reveal_with_fuel(tree_proof, 3);
        reveal_with_fuel(hash, 2);
    }
    match store.get(index).unwrap() {
        StoredNode::Binary { left, right } => {
            proof {
                assert(row_ok(store@, left as int));
                assert(row_ok(store@, right as int));
                assert(rest.subrange(1, rest.len() as int) =~= key@.subrange(
                    depth + 1,
                    key@.len() as int,
                ));
                assert(rest[0] == key@[depth as int]);
            }
            let node = TrieNode::Binary {
                left: store.hash(left).unwrap(),
                right: store.hash(right).unwrap(),
            };
            out.push(node);
            proof {
                assert(proof_view(out@) =~= before + seq![node@]);
            }
            let next = if key[depth] {
                right
            } else {
                left
            };
            collect_proof(store, next, key, depth + 1, out);
            proof {
                assert(proof_view(out@) =~= before + tree_proof(
                    stored_tree(store@, index as nat),
                    rest,
                ));
            }
        },
        StoredNode::Edge { child, path } => {
            proof {
                assert(row_ok(store@, child as int));
                assert(rest.subrange(0, path@.len() as int) =~= key@.subrange(
                    depth as int,
                    depth + path@.len(),
                ));
                assert(rest.subrange(path@.len() as int, rest.len() as int) =~= key@.subrange(
                    depth + path@.len(),
                    key@.len() as int,
                ));
            }
            let follows = begins_with(path.as_slice(), key, depth);
            let length = path.len();
            let node = TrieNode::Edge { child: store.hash(child).unwrap(), path };
            out.push(node);
            proof {
                assert(proof_view(out@) =~= before + seq![node@]);
            }
            if follows {
                collect_proof(store, child, key, depth + length, out);
            }
            proof {
                assert(proof_view(out@) =~= before + tree_proof(
                    stored_tree(store@, index as nat),
                    rest,
                ));
            }
        },
        StoredNode::LeafBinary => {
            let node = TrieNode::Binary {
                left: store.leaf(index, false).unwrap(),
                right: store.leaf(index, true).unwrap(),
            };
            out.push(node);
            proof {
                assert(proof_view(out@) =~= before + tree_proof(
                    stored_tree(store@, index as nat),
                    rest,
                ));
            }
        },
        StoredNode::LeafEdge { path } => {
            let node = TrieNode::Edge { child: store.leaf(index, false).unwrap(), path };
            out.push(node);
            proof {
                assert(proof_view(out@) =~= before + tree_proof(
                    stored_tree(store@, index as nat),
                    rest,
                ));
            }
        },
    }
}

/// The proof for a key of 251 bits in the stored trie with the given root.
pub fn get_proof(store: &TrieStore, root: u64, key: &[bool]) -> (r: Vec<TrieNode>)
    requires
        store.wf(),
        root < store@.len(),
        store@[root as int].height == KEY_BITS,
        key@.len() == KEY_BITS,
    ensures
        proof_view(r@) == tree_proof(stored_tree(store@, root as nat), key@),
{
    let mut out: Vec<TrieNode> = Vec::new();
    proof {
        assert(key@.subrange(0, key@.len() as int) =~= key@);
    }
    collect_proof(store, root, key, 0, &mut out);
    proof {
        assert(proof_view(Seq::<TrieNode>::empty()) + tree_proof(
            stored_tree(store@, root as nat),
            key@,
        ) =~= tree_proof(stored_tree(store@, root as nat), key@));
    }
    out
}

/// What a replay gives, as a value of the program gives it.
pub open spec fn membership_view(m: Option<Membership>) -> Option<Option<nat>> {
    match m {
        Some(Membership::Member(v)) => Some(Some(v@)),
        Some(Membership::NonMember) => Some(None),
        None => None,
    }
}

/// Replays a proof against a root and a key of at most 251 bits: gives the
/// value that the proof shows under the key, or that it shows none, or
/// nothing where the proof does not fit the root or the key.
pub fn verify_proof(root: Felt, key: &[bool], nodes: &[TrieNode]) -> (r: Option<Membership>)
    requires
        key@.len() <= KEY_BITS,
    ensures
        membership_view(r) == replay(root@, key@, proof_view(nodes@)),
{
    let mut expected = root;
    let mut depth: usize = 0;
    let mut i: usize = 0;
    let ghost all = proof_view(nodes@);
    proof {
        assert(key@.subrange(0, key@.len() as int) =~= key@);
        assert(all.subrange(0, all.len() as int) =~= all);
    }
    while i < nodes.len()
        invariant
            i <= nodes@.len(),
            depth <= key@.len() <= KEY_BITS,
            all == proof_view(nodes@),
            replay(root@, key@, all) == replay(
                expected@,
                key@.subrange(depth as int, key@.len() as int),
                all.subrange(i as int, all.len() as int),
            ),
        decreases nodes@.len() - i,
    {
        let ghost rest = key@.subrange(depth as int, key@.len() as int);
        let ghost left_over = all.subrange(i as int, all.len() as int);
        proof {
            assert(left_over[0] == nodes@[i as int]@);
            assert(left_over.subrange(1, left_over.len() as int) =~= all.subrange(
                i + 1,
                all.len() as int,
            ));
        }
        match &nodes[i] {
            TrieNode::Binary { left, right } => {
                let node_hash = pedersen_hash(*left, *right);
                proof {
                    node_hash.lemma_view_injective(expected);
                }
                if !(node_hash == expected) || depth >= key.len() {
                    return None;
                }
                proof {
                    assert(rest.subrange(1, rest.len() as int) =~= key@.subrange(
                        depth + 1,
                        key@.len() as int,
                    ));
                    assert(rest[0] == key@[depth as int]);
                }
                expected = if key[depth] {
                    *right
                } else {
                    *left
                };
                depth = depth + 1;
            },
            TrieNode::Edge { child, path } => {
                if path.len() == 0 || path.len() > key.len() - depth {
                    return None;
                }
                let node_hash = edge_hash(*child, path.as_slice());
                proof {
                    node_hash.lemma_view_injective(expected);
                    assert(rest.subrange(0, path@.len() as int) =~= key@.subrange(
                        depth as int,
                        depth + path@.len(),
                    ));
                    assert(rest.subrange(path@.len() as int, rest.len() as int) =~= key@.subrange(
                        depth + path@.len(),
                        key@.len() as int,
                    ));
                }
                if !(node_hash == expected) {
                    return None;
                }
                if !begins_with(path.as_slice(), key, depth) {
                    return if i + 1 == nodes.len() {
                        Some(Membership::NonMember)
                    } else {
                        None
                    };
                }
                expected = *child;
                depth = depth + path.len();
            },
        }
        i = i + 1;
    }
    if depth == key.len() {
        Some(Membership::Member(expected))
    } else if expected.is_zero() {
        Some(Membership::NonMember)
    } else {
        None
    }
}

} // verus!
