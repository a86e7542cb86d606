//! The two tries that together hold the state of the network.
//!
//! The storage trie of a contract files the values of the contract's
//! storage under their addresses. The global state trie files the state
//! hash of every contract under the contract's address. Both are tries of
//! height 251 hashed with Pedersen; their nodes live in two tables of the
//! store.

use crate::common::{
    BlockNumber, ClassHash, ContractAddress, ContractNonce, ContractRoot, ContractStateHash,
    StorageAddress, StorageCommitment, StorageValue,
};
use crate::felt::{key_bits, Felt, KEY_BITS};
use crate::hash::{pedersen, pedersen_hash};
use crate::merkle_node::extends;
use crate::merkle_proof::{get_proof, proof_view, tree_proof, TrieNode};
use crate::merkle_tree::{
    dfs_order, dfs_result, is_visitor, visited_view, MerkleTree, NodeVisit, Visit, Visited,
};
use core::ops::ControlFlow;
use crate::patricia::{lookup, root_hash, Change, Tree};
use crate::storage::{Storage, StorageView};
use crate::tables::{contract_root_at, latest_root, ContractRootRow, ContractStateHashRow};
use crate::trie_store::{lemma_stored_tree_stays, stored_tree, RowView, StoredNode};
use vstd::prelude::*;

verus! {

/// Why a trie could not be loaded.
#[derive(Clone, Copy, Debug, PartialEq, Eq, Structural)]
pub enum TrieError {
    /// The root that the store names for the trie is not a stored node.
    MissingRoot,
    /// The root that the store names for the trie is not of full height.
    NotARoot,
}

/// The state hash of a contract: the Pedersen hash of the class hash and
/// the root of the storage trie, hashed with the nonce, hashed with zero.
pub open spec fn contract_state_hash_of(class_hash: nat, root: nat, nonce: nat) -> nat {
    pedersen(pedersen(pedersen(class_hash, root), nonce), 0)
}

/// The state hash of a contract.
pub fn calculate_contract_state_hash(hash: ClassHash, root: ContractRoot, nonce: ContractNonce) -> (r:
    ContractStateHash)
    ensures
        r.0@ == contract_state_hash_of(hash.0@, root.0@, nonce.0@),
{
    let h = pedersen_hash(hash.0, root.0);
    let h = pedersen_hash(h, nonce.0);
    // The last element is reserved and always zero.
    let h = pedersen_hash(h, Felt::zero());
    ContractStateHash(h)
}

/// Checks that a root named by the store is a stored node of full height.
fn check_root(storage: &Storage, contracts: bool, root: u64) -> (r: Result<(), TrieError>)
    requires
        storage.wf(),
    ensures
        ({
            let rows = if contracts {
                storage@.contract_trie
            } else {
                storage@.storage_trie
            };
            r == (if root >= rows.len() {
                Err::<(), TrieError>(TrieError::MissingRoot)
            } else if rows[root as int].height != KEY_BITS {
                Err(TrieError::NotARoot)
            } else {
                Ok(())
            })
        }),
{
    let table = if contracts {
        storage.contract_trie()
    } else {
        storage.storage_trie()
    };
    match table.height(root) {
        None => Err(TrieError::MissingRoot),
        Some(h) => if h != KEY_BITS {
            Err(TrieError::NotARoot)
        } else {
            Ok(())
        },
    }
}

/// The root of the storage trie of a contract at a block, if the store
/// names one: the one that the last block up to it gave the trie.
pub open spec fn contract_root_of(view: StorageView, block: BlockNumber, contract: ContractAddress) -> Option<
    u64,
> {
    match contract_root_at(view.contract_roots, block@, contract) {
        Some(row) => row.root_index,
        None => None,
    }
}

/// The root of the global state trie at a block, if the store names one:
/// the one that the last block up to it gave the trie.
pub open spec fn storage_root_of(view: StorageView, block: BlockNumber) -> Option<u64> {
    match latest_root(view.storage_roots, block@) {
        Some(row) => row.root_index,
        None => None,
    }
}

/// Whether a root is a stored node of full height.
pub open spec fn is_root(rows: Seq<RowView>, root: u64) -> bool {
    root < rows.len() && rows[root as int].height == KEY_BITS
}

/// The stored trie with a root that may be none.
pub open spec fn stored_root_tree(rows: Seq<RowView>, root: Option<u64>) -> Option<Tree> {
    match root {
        Some(root) => Some(stored_tree(rows, root as nat)),
        None => None,
    }
}

/// The storage trie of a contract. It files the values of the contract's
/// storage under their addresses.
pub struct ContractsStorageTree {
    tree: MerkleTree,
    contract: ContractAddress,
    block: Option<BlockNumber>,
}

impl ContractsStorageTree {
    /// The trie that was loaded, given the stored nodes.
    pub closed spec fn base(&self, rows: Seq<RowView>) -> Option<Tree> {
        self.tree.base(rows)
    }

    /// The changes that were recorded since, in their order.
    pub closed spec fn pending(&self) -> Seq<Change> {
        self.tree.pending()
    }

    /// The trie as it stands.
    pub closed spec fn tree(&self, rows: Seq<RowView>) -> Option<Tree> {
        self.tree.tree(rows)
    }

    /// Whether the trie fits the stored nodes.
    pub closed spec fn wf_in(&self, rows: Seq<RowView>) -> bool {
        self.tree.wf_in(rows)
    }

    /// The contract whose storage the trie holds.
    pub closed spec fn contract(&self) -> ContractAddress {
        self.contract
    }

    /// Whether hashes are checked when the trie is committed.
    pub closed spec fn verifies_hashes(&self) -> bool {
        self.tree.verifies_hashes()
    }

    /// The trie as it stands is what was loaded with the changes made.
    pub proof fn lemma_tree(&self, rows: Seq<RowView>)
        ensures
            self.tree(rows) == crate::patricia::apply(self.base(rows), self.pending()),
    {
    }

    /// The empty storage trie of a contract.
    pub fn empty(contract: ContractAddress) -> (r: ContractsStorageTree)
        ensures
            forall|rows: Seq<RowView>| #[trigger] r.wf_in(rows),
            forall|rows: Seq<RowView>| #[trigger] r.base(rows) is None,
            r.pending() == Seq::<Change>::empty(),
            r.contract() == contract,
            !r.verifies_hashes(),
    {
        ContractsStorageTree { tree: MerkleTree::empty(), contract, block: None }
    }

    /// The storage trie of a contract as it was after a block: the empty
    /// trie where the store names no root for them.
    pub fn load(tx: &Storage, contract: ContractAddress, block: BlockNumber) -> (r: Result<
        ContractsStorageTree,
        TrieError,
    >)
        requires
            tx.wf(),
        ensures
            match contract_root_of(tx@, block, contract) {
                None => r matches Ok(t) && t.base(tx@.contract_trie) is None,
                Some(root) => if root >= tx@.contract_trie.len() {
                    r matches Err(TrieError::MissingRoot)
                } else if tx@.contract_trie[root as int].height != KEY_BITS {
                    r matches Err(TrieError::NotARoot)
                } else {
                    r matches Ok(t) && t.base(tx@.contract_trie) == Some(
                        stored_tree(tx@.contract_trie, root as nat),
                    )
                },
            },
            r matches Ok(t) ==> t.wf_in(tx@.contract_trie) && t.pending() == Seq::<Change>::empty()
                && t.contract() == contract && !t.verifies_hashes(),
    {
        let root = tx.contract_root_index(block, contract);
        let Some(root) = root else {
            return Ok(ContractsStorageTree::empty(contract));
        };
        match check_root(tx, true, root) {
            Err(e) => Err(e),
            Ok(()) => {
                let table = tx.contract_trie();
                proof {
                    table.lemma_wf();
                }
                Ok(ContractsStorageTree { tree: MerkleTree::new(root), contract, block: Some(block) })
            },
        }
    }

    /// The same trie, checking hashes at commit or not.
    pub fn with_verify_hashes(self, verify_hashes: bool) -> (r: ContractsStorageTree)
        ensures
            r.verifies_hashes() == verify_hashes,
            r.pending() == self.pending(),
            r.contract() == self.contract(),
            forall|rows: Seq<RowView>| #[trigger] r.base(rows) == self.base(rows),
            forall|rows: Seq<RowView>| self.wf_in(rows) ==> #[trigger] r.wf_in(rows),
    {
        ContractsStorageTree {
            tree: self.tree.with_verify_hashes(verify_hashes),
            contract: self.contract,
            block: self.block,
        }
    }

    /// The proof for a key of 251 bits in the storage trie of a contract as
    /// it was after a block: no node where the store names no root for them.
    pub fn get_proof(tx: &Storage, contract: ContractAddress, block: BlockNumber, key: &[bool]) -> (r:
        Result<Vec<TrieNode>, TrieError>)
        requires
            tx.wf(),
            key@.len() == KEY_BITS,
        ensures
            match contract_root_of(tx@, block, contract) {
                None => r matches Ok(nodes) && nodes@.len() == 0,
                Some(root) => if root >= tx@.contract_trie.len() {
                    r matches Err(TrieError::MissingRoot)
                } else if tx@.contract_trie[root as int].height != KEY_BITS {
                    r matches Err(TrieError::NotARoot)
                } else {
                    r matches Ok(nodes) && proof_view(nodes@) == tree_proof(
                        stored_tree(tx@.contract_trie, root as nat),
                        key@,
                    )
                },
            },
    {
        let root = tx.contract_root_index(block, contract);
        let Some(root) = root else {
            return Ok(Vec::new());
        };
        match check_root(tx, true, root) {
            Err(e) => Err(e),
            Ok(()) => Ok(get_proof(tx.contract_trie(), root, key)),
        }
    }

    /// Records that a value is to be set at an address. To set zero is to
    /// clear the address.
    pub fn set(&mut self, address: StorageAddress, value: StorageValue)
        ensures
            final(self).pending() == old(self).pending().push((key_bits(address.0@), value.0@)),
            final(self).contract() == old(self).contract(),
            final(self).verifies_hashes() == old(self).verifies_hashes(),
            forall|rows: Seq<RowView>| #[trigger] final(self).base(rows) == old(self).base(rows),
            forall|rows: Seq<RowView>| old(self).wf_in(rows) ==> #[trigger] final(self).wf_in(rows),
    {
        let key = address.0.to_bits();
        self.tree.set(key, value.0);
    }

    /// The value at an address, if one is set there.
    pub fn get(&self, tx: &Storage, address: &StorageAddress) -> (r: Option<StorageValue>)
        requires
            tx.wf(),
            self.wf_in(tx@.contract_trie),
        ensures
            (match r {
                Some(v) => Some(v.0@),
                None => None,
            }) == lookup(self.tree(tx@.contract_trie), key_bits(address.0@)),
    {
        let key = address.0.to_bits();
        match self.tree.get(tx.contract_trie(), key.as_slice()) {
            Some(value) => Some(StorageValue(value)),
            None => None,
        }
    }

    /// Commits the changes: puts the nodes that they made into the store
    /// and gives the new root of the contract's storage with those nodes.
    pub fn commit(self, tx: &mut Storage) -> (r: (ContractRoot, Option<u64>, Vec<(Felt, StoredNode)>))
        requires
            old(tx).wf(),
            self.wf_in(old(tx)@.contract_trie),
        ensures
            final(tx).wf(),
            final(tx)@ == (StorageView { contract_trie: final(tx)@.contract_trie, ..old(tx)@ }),
            extends(final(tx)@.contract_trie, old(tx)@.contract_trie),
            r.0.0@ == root_hash(self.tree(old(tx)@.contract_trie)),
            r.1 is Some <==> self.tree(old(tx)@.contract_trie) is Some,
            r.1 matches Some(index) ==> is_root(final(tx)@.contract_trie, index)
                && stored_root_tree(final(tx)@.contract_trie, r.1) == self.tree(
                old(tx)@.contract_trie,
            ),
    {
        let update = tx.commit_contract_trie(self.tree);
        (ContractRoot(update.root), update.root_index, update.nodes)
    }
    /// Walks through the trie as it stands, asking the visitor at every
    /// node, which may leave out what is below the node or break the walk
    /// off with a value.
    pub fn dfs<B, F: Fn(NodeVisit) -> ControlFlow<B, Visit>>(&mut self, tx: &Storage, f: &F) -> (r:
        Option<B>)
        requires
            tx.wf(),
            old(self).wf_in(tx@.contract_trie),
            is_visitor(*f),
        ensures
            final(self).wf_in(tx@.contract_trie),
            final(self).tree(tx@.contract_trie) == old(self).tree(tx@.contract_trie),
            r == (match old(self).tree(tx@.contract_trie) {
                Some(t) => dfs_result(*f, t, Seq::empty()),
                None => None,
            }),
    {
        self.tree.dfs(tx.contract_trie(), f)
    }

    /// The nodes of the trie as it stands, each with the bits that lead to
    /// it from the root, in the order of a walk that goes to a node first
    /// and then through what is below it.
    pub fn dfs_nodes(&mut self, tx: &Storage) -> (r: Vec<Visited>)
        requires
            tx.wf(),
            old(self).wf_in(tx@.contract_trie),
        ensures
            final(self).wf_in(tx@.contract_trie),
            final(self).tree(tx@.contract_trie) == old(self).tree(tx@.contract_trie),
            final(self).contract() == old(self).contract(),
            visited_view(r@) == (match old(self).tree(tx@.contract_trie) {
                Some(t) => dfs_order(t, Seq::empty()),
                None => Seq::empty(),
            }),
    {
        self.tree.dfs_nodes(tx.contract_trie())
    }
}

/// The global state trie. It files the state hash of every contract under
/// the contract's address.
pub struct StorageCommitmentTree {
    tree: MerkleTree,
    block: Option<BlockNumber>,
}

impl StorageCommitmentTree {
    /// The trie that was loaded, given the stored nodes.
    pub closed spec fn base(&self, rows: Seq<RowView>) -> Option<Tree> {
        self.tree.base(rows)
    }

    /// The changes that were recorded since, in their order.
    pub closed spec fn pending(&self) -> Seq<Change> {
        self.tree.pending()
    }

    /// The trie as it stands.
    pub closed spec fn tree(&self, rows: Seq<RowView>) -> Option<Tree> {
        self.tree.tree(rows)
    }

    /// Whether the trie fits the stored nodes.
    pub closed spec fn wf_in(&self, rows: Seq<RowView>) -> bool {
        self.tree.wf_in(rows)
    }

    /// Whether hashes are checked when the trie is committed.
    pub closed spec fn verifies_hashes(&self) -> bool {
        self.tree.verifies_hashes()
    }

    /// The trie as it stands is what was loaded with the changes made.
    pub proof fn lemma_tree(&self, rows: Seq<RowView>)
        ensures
            self.tree(rows) == crate::patricia::apply(self.base(rows), self.pending()),
    {
    }

    /// The empty global state trie.
    pub fn empty() -> (r: StorageCommitmentTree)
        ensures
            forall|rows: Seq<RowView>| #[trigger] r.wf_in(rows),
            forall|rows: Seq<RowView>| #[trigger] r.base(rows) is None,
            r.pending() == Seq::<Change>::empty(),
            !r.verifies_hashes(),
    {
        StorageCommitmentTree { tree: MerkleTree::empty(), block: None }
    }

    /// The global state trie as it was after a block: the empty trie where
    /// the store names no root for the block.
    pub fn load(tx: &Storage, block: BlockNumber) -> (r: Result<StorageCommitmentTree, TrieError>)
        requires
            tx.wf(),
        ensures
            match storage_root_of(tx@, block) {
                None => r matches Ok(t) && t.base(tx@.storage_trie) is None,
                Some(root) => if root >= tx@.storage_trie.len() {
                    r matches Err(TrieError::MissingRoot)
                } else if tx@.storage_trie[root as int].height != KEY_BITS {
                    r matches Err(TrieError::NotARoot)
                } else {
                    r matches Ok(t) && t.base(tx@.storage_trie) == Some(
                        stored_tree(tx@.storage_trie, root as nat),
                    )
                },
            },
            r matches Ok(t) ==> t.wf_in(tx@.storage_trie) && t.pending() == Seq::<Change>::empty()
                && !t.verifies_hashes(),
    {
        let root = tx.storage_root_index(block);
        let Some(root) = root else {
            return Ok(StorageCommitmentTree::empty());
        };
        match check_root(tx, false, root) {
            Err(e) => Err(e),
            Ok(()) => {
                let table = tx.storage_trie();
                proof {
                    table.lemma_wf();
                }
                Ok(StorageCommitmentTree { tree: MerkleTree::new(root), block: Some(block) })
            },
        }
    }

    /// The same trie, checking hashes at commit or not.
    pub fn with_verify_hashes(self, verify_hashes: bool) -> (r: StorageCommitmentTree)
        ensures
            r.verifies_hashes() == verify_hashes,
            r.pending() == self.pending(),
            forall|rows: Seq<RowView>| #[trigger] r.base(rows) == self.base(rows),
            forall|rows: Seq<RowView>| self.wf_in(rows) ==> #[trigger] r.wf_in(rows),
    {
        StorageCommitmentTree {
            tree: self.tree.with_verify_hashes(verify_hashes),
            block: self.block,
        }
    }

    /// Records that the state hash of a contract is to be set. To set zero
    /// is to take the contract out.
    pub fn set(&mut self, address: ContractAddress, value: ContractStateHash)
        ensures
            final(self).pending() == old(self).pending().push((key_bits(address.0@), value.0@)),
            final(self).verifies_hashes() == old(self).verifies_hashes(),
            forall|rows: Seq<RowView>| #[trigger] final(self).base(rows) == old(self).base(rows),
            forall|rows: Seq<RowView>| old(self).wf_in(rows) ==> #[trigger] final(self).wf_in(rows),
    {
        let key = address.0.to_bits();
        self.tree.set(key, value.0);
    }

    /// The state hash of a contract, if the trie holds one.
    pub fn get(&self, tx: &Storage, address: &ContractAddress) -> (r: Option<ContractStateHash>)
        requires
            tx.wf(),
            self.wf_in(tx@.storage_trie),
        ensures
            (match r {
                Some(v) => Some(v.0@),
                None => None,
            }) == lookup(self.tree(tx@.storage_trie), key_bits(address.0@)),
    {
        let key = address.0.to_bits();
        match self.tree.get(tx.storage_trie(), key.as_slice()) {
            Some(value) => Some(ContractStateHash(value)),
            None => None,
        }
    }

    /// Commits the changes: puts the nodes that they made into the store
    /// and gives the new storage commitment with those nodes.
    pub fn commit(self, tx: &mut Storage) -> (r: (
        StorageCommitment,
        Option<u64>,
        Vec<(Felt, StoredNode)>,
    ))
        requires
            old(tx).wf(),
            self.wf_in(old(tx)@.storage_trie),
        ensures
            final(tx).wf(),
            final(tx)@ == (StorageView { storage_trie: final(tx)@.storage_trie, ..old(tx)@ }),
            extends(final(tx)@.storage_trie, old(tx)@.storage_trie),
            r.0.0@ == root_hash(self.tree(old(tx)@.storage_trie)),
            r.1 is Some <==> self.tree(old(tx)@.storage_trie) is Some,
            r.1 matches Some(index) ==> is_root(final(tx)@.storage_trie, index)
                && stored_root_tree(final(tx)@.storage_trie, r.1) == self.tree(
                old(tx)@.storage_trie,
            ),
    {
        let update = tx.commit_storage_trie(self.tree);
        (StorageCommitment(update.root), update.root_index, update.nodes)
    }

    /// The proof for the address of a contract in the global state trie as
    /// it was after a block: no node where the store names no root for the
    /// block.
    pub fn get_proof(tx: &Storage, block: BlockNumber, address: &ContractAddress) -> (r: Result<
        Vec<TrieNode>,
        TrieError,
    >)
        requires
            tx.wf(),
        ensures
            match storage_root_of(tx@, block) {
                None => r matches Ok(nodes) && nodes@.len() == 0,
                Some(root) => if root >= tx@.storage_trie.len() {
                    r matches Err(TrieError::MissingRoot)
                } else if tx@.storage_trie[root as int].height != KEY_BITS {
                    r matches Err(TrieError::NotARoot)
                } else {
                    r matches Ok(nodes) && proof_view(nodes@) == tree_proof(
                        stored_tree(tx@.storage_trie, root as nat),
                        key_bits(address.0@),
                    )
                },
            },
    {
        let root = tx.storage_root_index(block);
        let Some(root) = root else {
            return Ok(Vec::new());
        };
        match check_root(tx, false, root) {
            Err(e) => Err(e),
            Ok(()) => {
                let key = address.0.to_bits();
                Ok(get_proof(tx.storage_trie(), root, key.as_slice()))
            },
        }
    }
    /// Walks through the trie as it stands, asking the visitor at every
    /// node, which may leave out what is below the node or break the walk
    /// off with a value.
    pub fn dfs<B, F: Fn(NodeVisit) -> ControlFlow<B, Visit>>(&mut self, tx: &Storage, f: &F) -> (r:
        Option<B>)
        requires
            tx.wf(),
            old(self).wf_in(tx@.storage_trie),
            is_visitor(*f),
        ensures
            final(self).wf_in(tx@.storage_trie),
            final(self).tree(tx@.storage_trie) == old(self).tree(tx@.storage_trie),
            r == (match old(self).tree(tx@.storage_trie) {
                Some(t) => dfs_result(*f, t, Seq::empty()),
                None => None,
            }),
    {
        self.tree.dfs(tx.storage_trie(), f)
    }

    /// The nodes of the trie as it stands, each with the bits that lead to
    /// it from the root, in the order of a walk that goes to a node first
    /// and then through what is below it.
    pub fn dfs_nodes(&mut self, tx: &Storage) -> (r: Vec<Visited>)
        requires
            tx.wf(),
            old(self).wf_in(tx@.storage_trie),
        ensures
            final(self).wf_in(tx@.storage_trie),
            final(self).tree(tx@.storage_trie) == old(self).tree(tx@.storage_trie),
            visited_view(r@) == (match old(self).tree(tx@.storage_trie) {
                Some(t) => dfs_order(t, Seq::empty()),
                None => Seq::empty(),
            }),
    {
        self.tree.dfs_nodes(tx.storage_trie())
    }
}

/// The changes that a string of writes to a contract's storage stands for.
pub open spec fn writes_as_changes(writes: Seq<(StorageAddress, StorageValue)>) -> Seq<Change> {
    writes.map_values(|w: (StorageAddress, StorageValue)| (key_bits(w.0.0@), w.1.0@))
}

/// What a contract's state becomes.
#[derive(Clone, Copy, Debug, PartialEq, Eq)]
pub struct ContractStateUpdateResult {
    /// The new state hash of the contract, the leaf of the global state
    /// trie.
    pub state_hash: ContractStateHash,
    /// The new root of the contract's storage trie.
    pub root: ContractRoot,
    /// The index of that root, if the trie is not empty.
    pub root_index: Option<u64>,
}

/// Brings the state of a contract up to date: loads the contract's storage
/// trie as it was after the block `base`, makes the writes, commits the
/// trie, and computes the contract's new state hash from the class hash,
/// the new root and the nonce. The store gets the new nodes; filing the
/// root and the state hash is left to the caller.
///
/// Fails, and leaves the store as it is, where the store names a root for
/// the contract at `base` that is not a stored root.
pub fn update_contract_state(
    tx: &mut Storage,
    contract: ContractAddress,
    base: BlockNumber,
    writes: &[(StorageAddress, StorageValue)],
    nonce: ContractNonce,
    class_hash: ClassHash,
    verify_hashes: bool,
) -> (r: Result<ContractStateUpdateResult, TrieError>)
    requires
        old(tx).wf(),
    ensures
        final(tx).wf(),
        final(tx)@ == (StorageView { contract_trie: final(tx)@.contract_trie, ..old(tx)@ }),
        extends(final(tx)@.contract_trie, old(tx)@.contract_trie),
        ({
            let rows = old(tx)@.contract_trie;
            let named = contract_root_of(old(tx)@, base, contract);
            match named {
                Some(root) if !is_root(rows, root) => r == Err::<
                    ContractStateUpdateResult,
                    TrieError,
                >(
                    if root >= rows.len() {
                        TrieError::MissingRoot
                    } else {
                        TrieError::NotARoot
                    },
                ) && final(tx)@ == old(tx)@,
                _ => {
                    let after = crate::patricia::apply(
                        stored_root_tree(rows, named),
                        writes_as_changes(writes@),
                    );
                    &&& r matches Ok(result)
                    &&& result.root.0@ == root_hash(after)
                    &&& result.state_hash.0@ == contract_state_hash_of(
                        class_hash.0@,
                        root_hash(after),
                        nonce.0@,
                    )
                    &&& result.root_index is Some <==> after is Some
                    &&& result.root_index matches Some(index) ==> is_root(
                        final(tx)@.contract_trie,
                        index,
                    ) && stored_root_tree(final(tx)@.contract_trie, result.root_index) == after
                },
            }
        }),
{
    let loaded = match ContractsStorageTree::load(tx, contract, base) {
        Ok(tree) => tree,
        Err(e) => {
            return Err(e);
        },
    };
    let mut tree = loaded.with_verify_hashes(verify_hashes);
    let ghost rows = tx@.contract_trie;
    let ghost start = tree.base(rows);
    let mut i: usize = 0;
    proof {
        assert(writes_as_changes(writes@).subrange(0, 0) =~= Seq::<Change>::empty());
    }
    while i < writes.len()
        invariant
            i <= writes@.len(),
            tree.wf_in(rows),
            tree.base(rows) == start,
            tree.pending() == writes_as_changes(writes@).subrange(0, i as int),
        decreases writes@.len() - i,
    {
        tree.set(writes[i].0, writes[i].1);
        proof {
            assert(writes_as_changes(writes@).subrange(0, i + 1) =~= writes_as_changes(
                writes@,
            ).subrange(0, i as int).push((key_bits(writes@[i as int].0.0@), writes@[i as int].1.0@)));
        }
        i = i + 1;
    }
    proof {
        assert(writes_as_changes(writes@).subrange(0, i as int) =~= writes_as_changes(writes@));
        tree.lemma_tree(rows);
    }
    let (root, root_index, _) = tree.commit(tx);
    let state_hash = calculate_contract_state_hash(class_hash, root, nonce);
    Ok(ContractStateUpdateResult { state_hash, root, root_index })
}

/// What a block makes of one contract: its class and nonce after the
/// block, and what the block wrote to its storage.
#[derive(Clone, Debug, PartialEq, Eq)]
pub struct ContractUpdate {
    pub contract: ContractAddress,
    pub class_hash: ClassHash,
    pub nonce: ContractNonce,
    pub writes: Vec<(StorageAddress, StorageValue)>,
}

/// Why a root that the store names is not a root, if it is not.
pub open spec fn root_error(rows: Seq<RowView>, named: Option<u64>) -> Option<TrieError> {
    match named {
        Some(root) => if root >= rows.len() {
            Some(TrieError::MissingRoot)
        } else if rows[root as int].height != KEY_BITS {
            Some(TrieError::NotARoot)
        } else {
            None
        },
        None => None,
    }
}

/// The storage trie of a contract after an update, on the state at the
/// block `base`.
pub open spec fn contract_tree_after(view: StorageView, base: BlockNumber, update: ContractUpdate) -> Option<
    Tree,
> {
    crate::patricia::apply(
        stored_root_tree(view.contract_trie, contract_root_of(view, base, update.contract)),
        writes_as_changes(update.writes@),
    )
}

/// The state hash of a contract after an update, on the state at the
/// block `base`.
pub open spec fn state_hash_after(view: StorageView, base: BlockNumber, update: ContractUpdate) -> nat {
    contract_state_hash_of(
        update.class_hash.0@,
        root_hash(contract_tree_after(view, base, update)),
        update.nonce.0@,
    )
}

/// The changes that updates of contracts make to the global state trie:
/// for each contract, in order, its new state hash under its address.
pub open spec fn global_changes(view: StorageView, base: BlockNumber, updates: Seq<ContractUpdate>) -> Seq<
    Change,
> {
    Seq::new(
        updates.len(),
        |i: int| (key_bits(updates[i].contract.0@), state_hash_after(view, base, updates[i])),
    )
}

/// The global state trie after updates of contracts, on the state at the
/// block `base`.
pub open spec fn global_tree_after(view: StorageView, base: BlockNumber, updates: Seq<ContractUpdate>) -> Option<
    Tree,
> {
    crate::patricia::apply(
        stored_root_tree(view.storage_trie, storage_root_of(view, base)),
        global_changes(view, base, updates),
    )
}

/// Why the state at the block `base` cannot be updated, if it cannot: the
/// root that the store names for the global state trie is not a root, or
/// else the first root that it names for one of the contracts is not.
pub open spec fn update_error(view: StorageView, base: BlockNumber, updates: Seq<ContractUpdate>) -> Option<
    TrieError,
>
    decreases updates.len(),
{
    if updates.len() == 0 {
        root_error(view.storage_trie, storage_root_of(view, base))
    } else {
        match update_error(view, base, updates.drop_last()) {
            Some(e) => Some(e),
            None => root_error(
                view.contract_trie,
                contract_root_of(view, base, updates.last().contract),
            ),
        }
    }
}

/// Checks that the store names roots for the state at the block `base`
/// that are roots.
fn check_roots(tx: &Storage, base: BlockNumber, updates: &[ContractUpdate]) -> (r: Result<
    (),
    TrieError,
>)
    requires
        tx.wf(),
    ensures
        r == (match update_error(tx@, base, updates@) {
            Some(e) => Err::<(), TrieError>(e),
            None => Ok(()),
        }),
{
    match tx.storage_root_index(base) {
        Some(root) => match check_root(tx, false, root) {
            Err(e) => {
                proof {
                    lemma_update_error_stays(tx@, base, updates@, 0, e);
                }
                return Err(e);
            },
            Ok(()) => {},
        },
        None => {},
    }
    let mut i: usize = 0;
    proof {
        assert(updates@.subrange(0, 0) =~= Seq::<ContractUpdate>::empty());
    }
    while i < updates.len()
        invariant
            tx.wf(),
            i <= updates@.len(),
            update_error(tx@, base, updates@.subrange(0, i as int)) is None,
        decreases updates@.len() - i,
    {
        proof {
            let next = updates@.subrange(0, i + 1);
            assert(next.drop_last() =~= updates@.subrange(0, i as int));
            assert(next.last() == updates@[i as int]);
        }
        match tx.contract_root_index(base, updates[i].contract) {
            Some(root) => match check_root(tx, true, root) {
                Err(e) => {
                    proof {
                        lemma_update_error_stays(tx@, base, updates@, i + 1, e);
                    }
                    return Err(e);
                },
                Ok(()) => {},
            },
            None => {},
        }
        i = i + 1;
    }
    proof {
        assert(updates@.subrange(0, i as int) =~= updates@);
    }
    Ok(())
}

/// An error of the first updates is the error of all of them.
proof fn lemma_update_error_stays(
    view: StorageView,
    base: BlockNumber,
    updates: Seq<ContractUpdate>,
    k: int,
    e: TrieError,
)
    requires
        0 <= k <= updates.len(),
        update_error(view, base, updates.subrange(0, k)) == Some(e),
    ensures
        update_error(view, base, updates) == Some(e),
    decreases updates.len() - k,
{
    if k == updates.len() {
        assert(updates.subrange(0, k) =~= updates);
    } else {
        let next = updates.subrange(0, k + 1);
        assert(next.drop_last() =~= updates.subrange(0, k));
        lemma_update_error_stays(view, base, updates, k + 1, e);
    }
}

/// No error of all updates is no error of the first of them.
proof fn lemma_no_update_error(
    view: StorageView,
    base: BlockNumber,
    updates: Seq<ContractUpdate>,
    i: int,
)
    requires
        0 <= i < updates.len(),
        update_error(view, base, updates) is None,
    ensures
        root_error(view.contract_trie, contract_root_of(view, base, updates[i].contract)) is None,
        root_error(view.storage_trie, storage_root_of(view, base)) is None,
    decreases updates.len(),
{
    if i < updates.len() - 1 {
        lemma_no_update_error(view, base, updates.drop_last(), i);
    } else if updates.len() > 1 {
        lemma_no_update_error(view, base, updates.drop_last(), 0);
    }
}

/// Brings the state from the block `base` to the block `block`: updates
/// every contract as [`update_contract_state`] does, sets the contracts'
/// new state hashes in the global state trie and commits it, and files the
/// new roots and state hashes under `block`. Gives the new storage
/// commitment.
///
/// Fails, and leaves the store as it is, where the store names a root for
/// the state at `base` that is not a stored root.
pub fn update_storage_commitment(
    tx: &mut Storage,
    base: BlockNumber,
    block: BlockNumber,
    updates: &[ContractUpdate],
    verify_hashes: bool,
) -> (r: Result<StorageCommitment, TrieError>)
    requires
        old(tx).wf(),
    ensures
        final(tx).wf(),
        match update_error(old(tx)@, base, updates@) {
            Some(e) => r == Err::<StorageCommitment, TrieError>(e) && final(tx)@ == old(tx)@,
            None => {
                &&& r matches Ok(commitment)
                &&& commitment.0@ == root_hash(global_tree_after(old(tx)@, base, updates@))
                &&& final(tx)@ == (StorageView {
                    contract_trie: final(tx)@.contract_trie,
                    storage_trie: final(tx)@.storage_trie,
                    contract_roots: final(tx)@.contract_roots,
                    storage_roots: final(tx)@.storage_roots,
                    contract_state_hashes: final(tx)@.contract_state_hashes,
                    ..old(tx)@
                })
                &&& extends(final(tx)@.contract_trie, old(tx)@.contract_trie)
                &&& extends(final(tx)@.storage_trie, old(tx)@.storage_trie)
                &&& final(tx)@.storage_roots.len() == old(tx)@.storage_roots.len() + 1
                &&& final(tx)@.storage_roots.drop_last() == old(tx)@.storage_roots
                &&& final(tx)@.storage_roots.last().block_number == block
                &&& root_error(
                    final(tx)@.storage_trie,
                    final(tx)@.storage_roots.last().root_index,
                ) is None
                &&& stored_root_tree(
                    final(tx)@.storage_trie,
                    final(tx)@.storage_roots.last().root_index,
                ) == global_tree_after(old(tx)@, base, updates@)
                &&& final(tx)@.contract_roots.len() == old(tx)@.contract_roots.len()
                    + updates@.len()
                &&& final(tx)@.contract_roots.subrange(0, old(tx)@.contract_roots.len() as int)
                    == old(tx)@.contract_roots
                &&& forall|i: int|
                    0 <= i < updates@.len() ==> {
                        let row = #[trigger] final(tx)@.contract_roots[old(tx)@.contract_roots.len() + i];
                        &&& row.block_number == block
                        &&& row.contract == updates@[i].contract
                        &&& root_error(final(tx)@.contract_trie, row.root_index) is None
                        &&& stored_root_tree(final(tx)@.contract_trie, row.root_index)
                            == contract_tree_after(old(tx)@, base, updates@[i])
                    }
                &&& final(tx)@.contract_state_hashes.len() == old(tx)@.contract_state_hashes.len()
                    + updates@.len()
                &&& final(tx)@.contract_state_hashes.subrange(
                    0,
                    old(tx)@.contract_state_hashes.len() as int,
                ) == old(tx)@.contract_state_hashes
                &&& forall|i: int|
                    0 <= i < updates@.len() ==> {
                        let row = #[trigger] final(tx)@.contract_state_hashes[old(tx)@.contract_state_hashes.len() + i];
                        &&& row.block_number == block
                        &&& row.contract == updates@[i].contract
                        &&& row.state_hash.0@ == state_hash_after(old(tx)@, base, updates@[i])
                    }
            },
        },
{
    match check_roots(tx, base, updates) {
        Err(e) => {
            return Err(e);
        },
        Ok(()) => {},
    }
    let ghost start = tx@;
    proof {
        if updates@.len() > 0 {
            lemma_no_update_error(start, base, updates@, 0);
        }
    }
    let loaded = StorageCommitmentTree::load(tx, base);
    let mut global = loaded.unwrap().with_verify_hashes(verify_hashes);
    let mut results: Vec<ContractStateUpdateResult> = Vec::new();
    let mut i: usize = 0;
    proof {
        assert(global_changes(start, base, updates@).subrange(0, 0) =~= Seq::<Change>::empty());
    }
    while i < updates.len()
        invariant
            i <= updates@.len(),
            tx.wf(),
            update_error(start, base, updates@) is None,
            tx@ == (StorageView { contract_trie: tx@.contract_trie, ..start }),
            extends(tx@.contract_trie, start.contract_trie),
            global.wf_in(start.storage_trie),
            global.base(start.storage_trie) == stored_root_tree(
                start.storage_trie,
                storage_root_of(start, base),
            ),
            global.pending() == global_changes(start, base, updates@).subrange(0, i as int),
            results@.len() == i,
            forall|j: int|
                0 <= j < i ==> {
                    let result = #[trigger] results@[j];
                    &&& result.state_hash.0@ == state_hash_after(start, base, updates@[j])
                    &&& root_error(tx@.contract_trie, result.root_index) is None
                    &&& stored_root_tree(tx@.contract_trie, result.root_index)
                        == contract_tree_after(start, base, updates@[j])
                },
        decreases updates@.len() - i,
    {
        let ghost rows = tx@.contract_trie;
        let ghost named = contract_root_of(start, base, updates@[i as int].contract);
        proof {
            lemma_no_update_error(start, base, updates@, i as int);
            if let Some(root) = named {
                lemma_stored_tree_stays(start.contract_trie, rows, root as nat);
            }
        }
        let update = &updates[i];
        let result = update_contract_state(
            tx,
            update.contract,
            base,
            update.writes.as_slice(),
            update.nonce,
            update.class_hash,
            verify_hashes,
        ).unwrap();
        global.set(update.contract, result.state_hash);
        results.push(result);
        proof {
            let after = tx@.contract_trie;
            assert forall|j: int| 0 <= j < i + 1 implies {
                let result = #[trigger] results@[j];
                &&& result.state_hash.0@ == state_hash_after(start, base, updates@[j])
                &&& root_error(after, result.root_index) is None
                &&& stored_root_tree(after, result.root_index) == contract_tree_after(
                    start,
                    base,
                    updates@[j],
                )
            } by {
                if j < i {
                    if let Some(index) = results@[j].root_index {
                        lemma_stored_tree_stays(rows, after, index as nat);
                    }
                }
            }
            assert(global_changes(start, base, updates@).subrange(0, i + 1)
                =~= global_changes(start, base, updates@).subrange(0, i as int).push(
                (key_bits(update.contract.0@), result.state_hash.0@),
            ));
        }
        i = i + 1;
    }
    proof {
        assert(global_changes(start, base, updates@).subrange(0, i as int) =~= global_changes(
            start,
            base,
            updates@,
        ));
        global.lemma_tree(start.storage_trie);
    }
    let (commitment, root_index, _) = global.commit(tx);
    tx.insert_storage_root(block, root_index);
    let ghost filed = tx@;
    let mut k: usize = 0;
    while k < updates.len()
        invariant
            k <= updates@.len(),
            tx.wf(),
            results@.len() == updates@.len(),
            tx@ == (StorageView {
                contract_roots: tx@.contract_roots,
                contract_state_hashes: tx@.contract_state_hashes,
                ..filed
            }),
            tx@.contract_roots.len() == start.contract_roots.len() + k,
            tx@.contract_roots.subrange(0, start.contract_roots.len() as int)
                == start.contract_roots,
            tx@.contract_state_hashes.len() == start.contract_state_hashes.len() + k,
            tx@.contract_state_hashes.subrange(0, start.contract_state_hashes.len() as int)
                == start.contract_state_hashes,
            forall|j: int|
                0 <= j < k ==> (#[trigger] tx@.contract_roots[start.contract_roots.len() + j])
                    == (ContractRootRow {
                    block_number: block,
                    contract: updates@[j].contract,
                    root_index: results@[j].root_index,
                }),
            forall|j: int|
                0 <= j < k ==> (#[trigger] tx@.contract_state_hashes[
                    start.contract_state_hashes.len() + j]) == (ContractStateHashRow {
                    block_number: block,
                    contract: updates@[j].contract,
                    state_hash: results@[j].state_hash,
                }),
        decreases updates@.len() - k,
    {
        let ghost roots_before = tx@.contract_roots;
        let ghost hashes_before = tx@.contract_state_hashes;
        tx.insert_contract_root(block, updates[k].contract, results[k].root_index);
        tx.insert_contract_state_hash(block, updates[k].contract, results[k].state_hash);
        proof {
            assert(tx@.contract_roots.subrange(0, start.contract_roots.len() as int)
                =~= roots_before.subrange(0, start.contract_roots.len() as int));
            assert(tx@.contract_state_hashes.subrange(
                0,
                start.contract_state_hashes.len() as int,
            ) =~= hashes_before.subrange(0, start.contract_state_hashes.len() as int));
            assert forall|j: int| 0 <= j < k implies (#[trigger] tx@.contract_roots[
                start.contract_roots.len() + j]) == roots_before[start.contract_roots.len()
                + j] by {}
            assert forall|j: int| 0 <= j < k implies (#[trigger] tx@.contract_state_hashes[
                start.contract_state_hashes.len() + j])
                == hashes_before[start.contract_state_hashes.len() + j] by {}
        }
        k = k + 1;
    }
    proof {
        assert(tx@.storage_roots.drop_last() =~= start.storage_roots);
    }
    Ok(commitment)
}

} // verus!
