//! The node store: the tables that hold headers, signatures, transactions,
//! the nodes of the tries and their roots, block by block.
//!
//! The store keeps its tables in memory. A header is filed under its number
//! and can be found by its hash, and both are unique. The hash of a block's
//! parent is not stored: it is read from the header one below. The canonical
//! index that binds a number to a hash is the header table itself, read by
//! those two columns.

use crate::common::{
    BlockCommitmentSignature, BlockHash, BlockId, BlockNumber, CasmHash, ClassHash,
    ContractAddress, ContractStateHash, StarknetVersion, TransactionHash, I64_MAX,
};
use crate::felt::KEY_BITS;
use crate::header::{BlockHeader, SignedBlockHeader};
use crate::merkle_node::extends;
use crate::merkle_tree::{MerkleTree, TrieUpdate};
use crate::patricia::root_hash;
use crate::tables::{
    block_of_transaction, contract_root_at, find_root, hashes_of_block, last_signature,
    latest_root, lemma_without_block, lemma_without_block_hash, remove_block, remove_block_hash,
    unlink_block, unlinked_from, without_block, without_block_hash, ClassCommitmentLeafRow,
    ClassDefinitionRow, ContractRootRow, ContractStateHashRow, RootRow, SignatureRow,
    TransactionRow,
};
use crate::trie_store::{new_row, stored_tree, NewNode, RowView, TrieStore, TrieStoreError};
use vstd::prelude::*;

verus! {

/// Why the store refused an operation.
#[derive(Clone, Copy, Debug, PartialEq, Eq, Structural)]
pub enum StorageError {
    /// A header with this number is stored already.
    DuplicateBlockNumber,
    /// A header with this hash is stored already.
    DuplicateBlockHash,
    /// A count of transactions or events is beyond what a column holds.
    CountOutOfRange,
    /// The header one below, which holds the parent's hash, is not stored.
    MissingParent,
}

/// What the store holds.
pub ghost struct StorageView {
    /// The stored headers by number, each without its parent's hash.
    pub headers: Map<nat, BlockHeader>,
    /// The versions that stored headers have named, in the order in which
    /// they first came.
    pub versions: Seq<StarknetVersion>,
    pub signatures: Seq<SignatureRow>,
    pub transactions: Seq<TransactionRow>,
    pub contract_roots: Seq<ContractRootRow>,
    pub storage_roots: Seq<RootRow>,
    pub class_roots: Seq<RootRow>,
    pub contract_state_hashes: Seq<ContractStateHashRow>,
    pub class_commitment_leaves: Seq<ClassCommitmentLeafRow>,
    pub class_definitions: Seq<ClassDefinitionRow>,
    /// The highest block that the first layer has accepted.
    pub l1_l2_pointer: Option<BlockNumber>,
    /// The nodes of the storage tries of all contracts.
    pub contract_trie: Seq<RowView>,
    /// The nodes of the global state trie.
    pub storage_trie: Seq<RowView>,
}

impl StorageView {
    /// Whether a header with this hash is stored.
    pub open spec fn has_hash(self, hash: BlockHash) -> bool {
        exists|n: nat| #[trigger] self.headers.contains_key(n) && self.headers[n].hash == hash
    }

    /// Whether `n` is stored and no stored number is higher.
    pub open spec fn is_latest(self, n: nat) -> bool {
        &&& self.headers.contains_key(n)
        &&& forall|k: nat| #[trigger] self.headers.contains_key(k) ==> k <= n
    }

    /// Whether `n` is stored and below `target`, and no stored number
    /// between them.
    pub open spec fn is_next_ancestor(self, n: nat, target: nat) -> bool {
        &&& self.headers.contains_key(n)
        &&& n < target
        &&& forall|k: nat| #[trigger] self.headers.contains_key(k) && k < target ==> k <= n
    }

    /// Whether `n` is stored and the number below it is not: the first block
    /// counts, as no number is below it.
    pub open spec fn lacks_parent(self, n: nat) -> bool {
        &&& self.headers.contains_key(n)
        &&& (n == 0 || !self.headers.contains_key((n - 1) as nat))
    }

    /// Whether `n` is the highest number up to `target` that is stored
    /// while the number below it is not.
    pub open spec fn is_next_ancestor_without_parent(self, n: nat, target: nat) -> bool {
        &&& self.lacks_parent(n)
        &&& n <= target
        &&& forall|k: nat| #[trigger] self.lacks_parent(k) && k <= target ==> k <= n
    }

    /// Whether a block is stored.
    pub open spec fn exists_block(self, block: BlockId) -> bool {
        match block {
            BlockId::Latest => exists|n: nat| #[trigger] self.headers.contains_key(n),
            BlockId::Number(number) => self.headers.contains_key(number@),
            BlockId::Hash(hash) => self.has_hash(hash),
        }
    }

    /// Whether `n` is the number of the block that `block` names.
    pub open spec fn names(self, block: BlockId, n: nat) -> bool {
        match block {
            BlockId::Latest => self.is_latest(n),
            BlockId::Number(number) => number@ == n && self.headers.contains_key(n),
            BlockId::Hash(hash) => self.headers.contains_key(n) && self.headers[n].hash == hash,
        }
    }

    /// Whether no table holds a row of block `n`: the classes may stay, but
    /// none of them names the block.
    pub open spec fn holds_nothing_of(self, n: nat) -> bool {
        &&& !self.headers.contains_key(n)
        &&& forall|i: int|
            0 <= i < self.signatures.len() ==> (#[trigger] self.signatures[i]).block_number@ != n
        &&& forall|i: int|
            0 <= i < self.contract_roots.len() ==> (
            #[trigger] self.contract_roots[i]).block_number@ != n
        &&& forall|i: int|
            0 <= i < self.storage_roots.len() ==> (#[trigger] self.storage_roots[i]).block_number@
                != n
        &&& forall|i: int|
            0 <= i < self.class_roots.len() ==> (#[trigger] self.class_roots[i]).block_number@ != n
        &&& forall|i: int|
            0 <= i < self.contract_state_hashes.len() ==> (
            #[trigger] self.contract_state_hashes[i]).block_number@ != n
        &&& forall|i: int|
            0 <= i < self.class_commitment_leaves.len() ==> (
            #[trigger] self.class_commitment_leaves[i]).block_number@ != n
        &&& forall|i: int|
            0 <= i < self.class_definitions.len() ==> !((
            #[trigger] self.class_definitions[i]).block_number matches Some(b) && b@ == n)
    }
}

/// A header as the store keeps it: without the hash of its parent.
pub open spec fn stored_form(header: BlockHeader) -> BlockHeader {
    BlockHeader { parent_hash: BlockHash(crate::felt::Felt::from_u64_spec(0)), ..header }
}

/// A header as it is stored: without its parent's hash, and with the place
/// of its version among the versions that the store has seen.
#[derive(Clone, Copy)]
struct HeaderRow {
    header: BlockHeader,
    version_id: usize,
}

/// The headers of a string of rows.
spec fn headers_of(rows: Seq<HeaderRow>) -> Seq<BlockHeader> {
    rows.map_values(|r: HeaderRow| r.header)
}

/// The store.
pub struct Storage {
    headers: Vec<HeaderRow>,
    versions: Vec<StarknetVersion>,
    signatures: Vec<SignatureRow>,
    transactions: Vec<TransactionRow>,
    contract_roots: Vec<ContractRootRow>,
    storage_roots: Vec<RootRow>,
    class_roots: Vec<RootRow>,
    contract_state_hashes: Vec<ContractStateHashRow>,
    class_commitment_leaves: Vec<ClassCommitmentLeafRow>,
    class_definitions: Vec<ClassDefinitionRow>,
    l1_l2_pointer: Option<BlockNumber>,
    contract_trie: TrieStore,
    storage_trie: TrieStore,
}

/// Whether row `i` is the one with number `n`.
spec fn row_has_number(rows: Seq<BlockHeader>, i: int, n: nat) -> bool {
    0 <= i < rows.len() && rows[i].number@ == n
}

/// The headers by number.
spec fn headers_by_number(rows: Seq<BlockHeader>) -> Map<nat, BlockHeader> {
    Map::new(
        |n: nat| exists|i: int| row_has_number(rows, i, n),
        |n: nat| rows[choose|i: int| row_has_number(rows, i, n)],
    )
}

/// Whether no two rows share a number or a hash, and none holds a parent's
/// hash.
spec fn rows_distinct(rows: Seq<BlockHeader>) -> bool {
    &&& forall|i: int, j: int|
        0 <= i < rows.len() && 0 <= j < rows.len() && i != j ==> (#[trigger] rows[i]).number@ != (
        #[trigger] rows[j]).number@
    &&& forall|i: int, j: int|
        0 <= i < rows.len() && 0 <= j < rows.len() && i != j ==> (#[trigger] rows[i]).hash != (
        #[trigger] rows[j]).hash
    &&& forall|i: int| 0 <= i < rows.len() ==> (#[trigger] rows[i]) == stored_form(rows[i])
}

proof fn lemma_row_found(rows: Seq<BlockHeader>, i: int)
    requires
        rows_distinct(rows),
        0 <= i < rows.len(),
    ensures
        headers_by_number(rows).contains_key(rows[i].number@),
        headers_by_number(rows)[rows[i].number@] == rows[i],
{
    let n = rows[i].number@;
    assert(row_has_number(rows, i, n));
    let j = choose|j: int| row_has_number(rows, j, n);
    assert(j == i);
}

proof fn lemma_key_has_row(rows: Seq<BlockHeader>, n: nat) -> (i: int)
    requires
        rows_distinct(rows),
        headers_by_number(rows).contains_key(n),
    ensures
        row_has_number(rows, i, n),
        headers_by_number(rows)[n] == rows[i],
{
    let i = choose|i: int| row_has_number(rows, i, n);
    i
}

proof fn lemma_push_row(rows: Seq<BlockHeader>, header: BlockHeader)
    requires
        rows_distinct(rows),
        rows_distinct(rows.push(header)),
    ensures
        headers_by_number(rows.push(header)) == headers_by_number(rows).insert(
            header.number@,
            header,
        ),
{
    let after = rows.push(header);
    let left = headers_by_number(after);
    let right = headers_by_number(rows).insert(header.number@, header);
    assert forall|n: nat| left.contains_key(n) <==> right.contains_key(n) by {
        if left.contains_key(n) {
            let i = lemma_key_has_row(after, n);
            if i < rows.len() {
                assert(row_has_number(rows, i, n));
            }
        }
        if right.contains_key(n) {
            if n == header.number@ {
                assert(row_has_number(after, rows.len() as int, n));
            } else {
                let i = lemma_key_has_row(rows, n);
                assert(row_has_number(after, i, n));
            }
        }
    }
    assert forall|n: nat| left.contains_key(n) implies left[n] == right[n] by {
        let i = lemma_key_has_row(after, n);
        lemma_row_found(after, i);
        let last = rows.len() as int;
        assert(after[last] == header);
        if i < rows.len() {
            assert(after[i] == rows[i]);
            assert(after[i].number@ != after[last].number@);
            lemma_row_found(rows, i);
        }
    }
    assert(left =~= right);
}

proof fn lemma_remove_row(rows: Seq<BlockHeader>, at: int)
    requires
        rows_distinct(rows),
        0 <= at < rows.len(),
    ensures
        rows_distinct(rows.remove(at)),
        headers_by_number(rows.remove(at)) == headers_by_number(rows).remove(rows[at].number@),
{
    let after = rows.remove(at);
    assert forall|i: int| 0 <= i < after.len() implies #[trigger] after[i] == rows[if i < at {
        i
    } else {
        i + 1
    }] by {}
    assert(rows_distinct(after)) by {
        assert forall|i: int, j: int|
            0 <= i < after.len() && 0 <= j < after.len() && i != j implies (
        #[trigger] after[i]).number@ != (#[trigger] after[j]).number@ && after[i].hash
            != after[j].hash by {
            let a = if i < at { i } else { i + 1 };
            let b = if j < at { j } else { j + 1 };
            assert(after[i] == rows[a] && after[j] == rows[b]);
        }
    }
    let left = headers_by_number(after);
    let right = headers_by_number(rows).remove(rows[at].number@);
    assert forall|n: nat| left.contains_key(n) <==> right.contains_key(n) by {
        if left.contains_key(n) {
            let i = lemma_key_has_row(after, n);
            let a = if i < at { i } else { i + 1 };
            assert(row_has_number(rows, a, n));
            assert(rows[a].number@ != rows[at].number@);
        }
        if right.contains_key(n) {
            let a = lemma_key_has_row(rows, n);
            let i = if a < at { a } else { a - 1 };
            assert(a != at);
            assert(row_has_number(after, i, n));
        }
    }
    assert forall|n: nat| left.contains_key(n) implies left[n] == right[n] by {
        let i = lemma_key_has_row(after, n);
        lemma_row_found(after, i);
        let a = if i < at { i } else { i + 1 };
        lemma_row_found(rows, a);
    }
    assert(left =~= right);
}

impl View for Storage {
    type V = StorageView;

    closed spec fn view(&self) -> StorageView {
        StorageView {
            headers: headers_by_number(headers_of(self.headers@)),
            versions: self.versions@,
            signatures: self.signatures@,
            transactions: self.transactions@,
            contract_roots: self.contract_roots@,
            storage_roots: self.storage_roots@,
            class_roots: self.class_roots@,
            contract_state_hashes: self.contract_state_hashes@,
            class_commitment_leaves: self.class_commitment_leaves@,
            class_definitions: self.class_definitions@,
            l1_l2_pointer: self.l1_l2_pointer,
            contract_trie: self.contract_trie@,
            storage_trie: self.storage_trie@,
        }
    }
}

impl Storage {
    /// Whether the store is well formed: no two headers share a number or
    /// a hash, and every header's version is among the versions seen, each
    /// of which is there once. Every function of the store keeps it so.
    pub closed spec fn wf(self) -> bool {
        &&& self.contract_trie.wf()
        &&& self.storage_trie.wf()
        &&& rows_distinct(headers_of(self.headers@))
        &&& forall|i: int|
            0 <= i < self.headers@.len() ==> 0 <= (#[trigger] self.headers@[i]).version_id
                < self.versions@.len() && self.versions@[self.headers@[i].version_id as int]
                == self.headers@[i].header.starknet_version
        &&& forall|i: int, j: int|
            0 <= i < self.versions@.len() && 0 <= j < self.versions@.len() && i != j ==> (
            #[trigger] self.versions@[i]) != (#[trigger] self.versions@[j])
    }

    /// An empty store.
    pub fn new() -> (r: Storage)
        ensures
            r.wf(),
            r@.headers == Map::<nat, BlockHeader>::empty(),
            r@.versions.len() == 0,
            r@.signatures.len() == 0,
            r@.transactions.len() == 0,
            r@.contract_roots.len() == 0,
            r@.storage_roots.len() == 0,
            r@.class_roots.len() == 0,
            r@.contract_state_hashes.len() == 0,
            r@.class_commitment_leaves.len() == 0,
            r@.class_definitions.len() == 0,
            r@.l1_l2_pointer is None,
            r@.contract_trie.len() == 0,
            r@.storage_trie.len() == 0,
    {
        let r = Storage {
            headers: Vec::new(),
            versions: Vec::new(),
            signatures: Vec::new(),
            transactions: Vec::new(),
            contract_roots: Vec::new(),
            storage_roots: Vec::new(),
            class_roots: Vec::new(),
            contract_state_hashes: Vec::new(),
            class_commitment_leaves: Vec::new(),
            class_definitions: Vec::new(),
            l1_l2_pointer: None,
            contract_trie: TrieStore::new(),
            storage_trie: TrieStore::new(),
        };
        proof {
            assert(r@.headers =~= Map::<nat, BlockHeader>::empty());
        }
        r
    }

    /// Every stored header is filed under its own number, without a
    /// parent's hash, and no two stored headers have one hash.
    pub proof fn lemma_headers(self)
        requires
            self.wf(),
        ensures
            forall|n: nat| #[trigger]
                self@.headers.contains_key(n) ==> self@.headers[n].number@ == n && self@.headers[n]
                    == stored_form(self@.headers[n]),
            forall|n: nat, m: nat|
                #![trigger self@.headers[n], self@.headers[m]]
                self@.headers.contains_key(n) && self@.headers.contains_key(m)
                    && self@.headers[n].hash == self@.headers[m].hash ==> n == m,
    {
        let rows = headers_of(self.headers@);
        assert forall|n: nat| #[trigger] self@.headers.contains_key(n) implies self@.headers[n].number@
            == n && self@.headers[n] == stored_form(self@.headers[n]) by {
            let i = lemma_key_has_row(rows, n);
        }
        assert forall|n: nat, m: nat|
            self@.headers.contains_key(n) && self@.headers.contains_key(m) && self@.headers[n].hash
                == self@.headers[m].hash implies n == m by {
            let i = lemma_key_has_row(rows, n);
            let j = lemma_key_has_row(rows, m);
        }
    }

}

/// The header at `n` with the hash of its parent, read from the header one
/// below: the first block has no parent, and `None` says that the header
/// below is not stored.
pub open spec fn header_with_parent(view: StorageView, n: nat) -> Option<BlockHeader> {
    if n == 0 {
        Some(view.headers[n])
    } else if view.headers.contains_key((n - 1) as nat) {
        Some(BlockHeader { parent_hash: view.headers[(n - 1) as nat].hash, ..view.headers[n] })
    } else {
        None
    }
}

impl Storage {
    /// The place of the row with the given number.
    fn find_number(&self, number: u64) -> (r: Option<usize>)
        requires
            self.wf(),
        ensures
            r matches Some(i) ==> i < self.headers@.len() && self.headers@[i as int].header.number@
                == number,
            r is Some <==> self@.headers.contains_key(number as nat),
    {
        let ghost rows = headers_of(self.headers@);
        let mut i: usize = 0;
        while i < self.headers.len()
            invariant
                i <= self.headers@.len(),
                rows == headers_of(self.headers@),
                rows_distinct(rows),
                forall|j: int| 0 <= j < i ==> rows[j].number@ != number,
            decreases self.headers@.len() - i,
        {
            if self.headers[i].header.number.get() == number {
                proof {
                    lemma_row_found(rows, i as int);
                }
                return Some(i);
            }
            i = i + 1;
        }
        proof {
            if self@.headers.contains_key(number as nat) {
                let j = lemma_key_has_row(rows, number as nat);
            }
        }
        None
    }

    /// The place of the row with the given hash.
    fn find_hash(&self, hash: BlockHash) -> (r: Option<usize>)
        requires
            self.wf(),
        ensures
            r matches Some(i) ==> i < self.headers@.len() && self.headers@[i as int].header.hash
                == hash,
            r is Some <==> self@.has_hash(hash),
    {
        let ghost rows = headers_of(self.headers@);
        let mut i: usize = 0;
        while i < self.headers.len()
            invariant
                i <= self.headers@.len(),
                rows == headers_of(self.headers@),
                rows_distinct(rows),
                forall|j: int| 0 <= j < i ==> rows[j].hash != hash,
            decreases self.headers@.len() - i,
        {
            if self.headers[i].header.hash == hash {
                proof {
                    lemma_row_found(rows, i as int);
                    assert(self@.headers.contains_key(rows[i as int].number@));
                }
                return Some(i);
            }
            i = i + 1;
        }
        proof {
            if self@.has_hash(hash) {
                let n = choose|n: nat| #[trigger]
                    self@.headers.contains_key(n) && self@.headers[n].hash == hash;
                let j = lemma_key_has_row(rows, n);
            }
        }
        None
    }

    /// The place of the row with the highest number.
    fn find_latest(&self) -> (r: Option<usize>)
        requires
            self.wf(),
        ensures
            r matches Some(i) ==> i < self.headers@.len() && self@.is_latest(
                self.headers@[i as int].header.number@,
            ),
            r is None ==> forall|n: nat| !self@.headers.contains_key(n),
    {
        let ghost rows = headers_of(self.headers@);
        if self.headers.len() == 0 {
            proof {
                assert forall|n: nat| !self@.headers.contains_key(n) by {
                    if self@.headers.contains_key(n) {
                        let j = lemma_key_has_row(rows, n);
                    }
                }
            }
            return None;
        }
        let mut best: usize = 0;
        let mut i: usize = 1;
        while i < self.headers.len()
            invariant
                1 <= i <= self.headers@.len(),
                best < i,
                rows == headers_of(self.headers@),
                forall|j: int| 0 <= j < i ==> rows[j].number@ <= rows[best as int].number@,
            decreases self.headers@.len() - i,
        {
            if self.headers[i].header.number.get() > self.headers[best].header.number.get() {
                best = i;
            }
            i = i + 1;
        }
        proof {
            lemma_row_found(rows, best as int);
            assert forall|k: nat| #[trigger] self@.headers.contains_key(k) implies k
                <= rows[best as int].number@ by {
                let j = lemma_key_has_row(rows, k);
            }
        }
        Some(best)
    }

    /// The place of the row that a block id names.
    fn find_block(&self, block: BlockId) -> (r: Option<usize>)
        requires
            self.wf(),
        ensures
            r matches Some(i) ==> i < self.headers@.len() && self@.names(
                block,
                self.headers@[i as int].header.number@,
            ) && self@.headers[self.headers@[i as int].header.number@]
                == self.headers@[i as int].header,
            r is Some <==> self@.exists_block(block),
            r is Some <==> exists|n: nat| self@.names(block, n),
    {
        let ghost rows = headers_of(self.headers@);
        let r = match block {
            BlockId::Latest => self.find_latest(),
            BlockId::Number(number) => self.find_number(number.get()),
            BlockId::Hash(hash) => self.find_hash(hash),
        };
        proof {
            match r {
                Some(i) => {
                    lemma_row_found(rows, i as int);
                    let n = rows[i as int].number@;
                    assert(self@.headers.contains_key(n));
                    assert(self@.names(block, n));
                },
                None => {
                    assert forall|n: nat| !self@.names(block, n) by {
                        if self@.names(block, n) {
                            assert(self@.headers.contains_key(n));
                        }
                    }
                },
            }
        }
        r
    }

    /// The place of a version among the versions that the store has seen;
    /// a version that it has not seen yet is put last.
    fn intern_starknet_version(&mut self, version: &StarknetVersion) -> (id: usize)
        requires
            old(self).wf(),
        ensures
            final(self).wf(),
            id < final(self)@.versions.len(),
            final(self)@.versions[id as int] == *version,
            final(self)@ == (StorageView {
                versions: if old(self)@.versions.contains(*version) {
                    old(self)@.versions
                } else {
                    old(self)@.versions.push(*version)
                },
                ..old(self)@
            }),
            final(self).headers@ == old(self).headers@,
            old(self).versions@ == final(self).versions@.subrange(
                0,
                old(self).versions@.len() as int,
            ),
            old(self).versions@.len() <= final(self).versions@.len(),
            final(self).signatures == old(self).signatures,
            final(self).transactions == old(self).transactions,
            final(self).contract_roots == old(self).contract_roots,
            final(self).storage_roots == old(self).storage_roots,
            final(self).class_roots == old(self).class_roots,
            final(self).contract_state_hashes == old(self).contract_state_hashes,
            final(self).class_commitment_leaves == old(self).class_commitment_leaves,
            final(self).class_definitions == old(self).class_definitions,
            final(self).l1_l2_pointer == old(self).l1_l2_pointer,
            final(self).contract_trie == old(self).contract_trie,
            final(self).storage_trie == old(self).storage_trie,
    {
        let mut i: usize = 0;
        while i < self.versions.len()
            invariant
                i <= self.versions@.len(),
                *self == *old(self),
                self.wf(),
                forall|j: int| 0 <= j < i ==> self.versions@[j] != *version,
            decreases self.versions@.len() - i,
        {
            if self.versions[i] == *version {
                proof {
                    assert(self.versions@.subrange(0, self.versions@.len() as int)
                        =~= self.versions@);
                }
                return i;
            }
            i = i + 1;
        }
        self.versions.push(*version);
        proof {
            assert(self.versions@.subrange(0, old(self).versions@.len() as int) =~= old(self).versions@);
        }
        i
    }

    /// Stores a header, without the hash of its parent.
    ///
    /// Fails, and leaves the store as it is, when a count does not fit a
    /// column or when the number or the hash is taken.
    pub fn insert_block_header(&mut self, header: &BlockHeader) -> (r: Result<(), StorageError>)
        requires
            old(self).wf(),
        ensures
            final(self).wf(),
            match insert_outcome(old(self)@, *header) {
                Ok(view) => r is Ok && final(self)@ == view,
                Err(e) => r == Err::<(), StorageError>(e) && final(self)@ == old(self)@,
            },
    {
        self.insert_block_header_rows(header)
    }

    /// Whether a block is stored.
    pub fn block_exists(&self, block: BlockId) -> (r: bool)
        requires
            self.wf(),
        ensures
            r == self@.exists_block(block),
    {
        self.find_block(block).is_some()
    }

    /// The number and the hash of a stored block.
    pub fn block_id(&self, block: BlockId) -> (r: Option<(BlockNumber, BlockHash)>)
        requires
            self.wf(),
        ensures
            r is Some <==> self@.exists_block(block),
            r matches Some((number, hash)) ==> self@.names(block, number@) && hash
                == self@.headers[number@].hash,
    {
        match self.find_block(block) {
            Some(i) => Some((self.headers[i].header.number, self.headers[i].header.hash)),
            None => None,
        }
    }

    /// A stored header, with the hash of its parent read from the header
    /// one below.
    ///
    /// There is no header where the block is not stored, and an error where
    /// it is stored above the first block without the header below it.
    pub fn block_header(&self, block: BlockId) -> (r: Result<Option<BlockHeader>, StorageError>)
        requires
            self.wf(),
        ensures
            !self@.exists_block(block) ==> r == Ok::<Option<BlockHeader>, StorageError>(None),
            self@.exists_block(block) ==> exists|n: nat| self@.names(block, n),
            forall|n: nat|
                self@.names(block, n) ==> r == (match header_with_parent(self@, n) {
                    Some(h) => Ok::<Option<BlockHeader>, StorageError>(Some(h)),
                    None => Err(StorageError::MissingParent),
                }),
    {
        let found = self.find_block(block);
        let Some(i) = found else {
            return Ok(None);
        };
        let header = self.headers[i].header;
        proof {
            self.lemma_names_one(block);
        }
        match header.number.parent() {
            None => Ok(Some(header)),
            Some(below) => match self.find_number(below.get()) {
                Some(p) => {
                    proof {
                        lemma_row_found(headers_of(self.headers@), p as int);
                    }
                    Ok(Some(BlockHeader { parent_hash: self.headers[p].header.hash, ..header }))
                },
                None => Err(StorageError::MissingParent),
            },
        }
    }

    /// A block id names at most one stored block.
    pub proof fn lemma_names_one(self, block: BlockId)
        requires
            self.wf(),
        ensures
            forall|n: nat, m: nat| self@.names(block, n) && self@.names(block, m) ==> n == m,
    {
        self.lemma_headers();
    }

    /// The highest stored block below `target`.
    pub fn next_ancestor(&self, target: BlockNumber) -> (r: Option<(BlockNumber, BlockHash)>)
        requires
            self.wf(),
        ensures
            r matches Some((number, hash)) ==> self@.is_next_ancestor(number@, target@) && hash
                == self@.headers[number@].hash,
            r is None ==> forall|k: nat| #[trigger] self@.headers.contains_key(k) ==> k >= target@,
    {
        let ghost rows = headers_of(self.headers@);
        let mut best: Option<usize> = None;
        let mut i: usize = 0;
        while i < self.headers.len()
            invariant
                i <= self.headers@.len(),
                rows == headers_of(self.headers@),
                best matches Some(b) ==> b < i && rows[b as int].number@ < target@,
                best matches Some(b) ==> forall|j: int|
                    0 <= j < i && rows[j].number@ < target@ ==> rows[j].number@
                        <= rows[b as int].number@,
                best is None ==> forall|j: int| 0 <= j < i ==> rows[j].number@ >= target@,
            decreases self.headers@.len() - i,
        {
            let number = self.headers[i].header.number.get();
            if number < target.get() {
                let better = match best {
                    Some(b) => number > self.headers[b].header.number.get(),
                    None => true,
                };
                if better {
                    best = Some(i);
                }
            }
            i = i + 1;
        }
        match best {
            Some(b) => {
                proof {
                    lemma_row_found(rows, b as int);
                    assert forall|k: nat| #[trigger]
                        self@.headers.contains_key(k) && k < target@ implies k
                        <= rows[b as int].number@ by {
                        let j = lemma_key_has_row(rows, k);
                    }
                }
                Some((self.headers[b].header.number, self.headers[b].header.hash))
            },
            None => {
                proof {
                    assert forall|k: nat| #[trigger] self@.headers.contains_key(k) implies k
                        >= target@ by {
                        let j = lemma_key_has_row(rows, k);
                    }
                }
                None
            },
        }
    }

    /// The highest stored block up to `target` whose parent is not stored.
    /// The first block has no parent and counts.
    pub fn next_ancestor_without_parent(&self, target: BlockNumber) -> (r: Option<
        (BlockNumber, BlockHash),
    >)
        requires
            self.wf(),
        ensures
            r matches Some((number, hash)) ==> self@.is_next_ancestor_without_parent(
                number@,
                target@,
            ) && hash == self@.headers[number@].hash,
            r is None ==> forall|k: nat| #[trigger] self@.lacks_parent(k) ==> k > target@,
    {
        let ghost rows = headers_of(self.headers@);
        let mut best: Option<usize> = None;
        let mut i: usize = 0;
        while i < self.headers.len()
            invariant
                i <= self.headers@.len(),
                self.wf(),
                rows == headers_of(self.headers@),
                rows_distinct(rows),
                best matches Some(b) ==> b < i && rows[b as int].number@ <= target@
                    && self@.lacks_parent(rows[b as int].number@),
                best matches Some(b) ==> forall|j: int|
                    0 <= j < i && rows[j].number@ <= target@ && self@.lacks_parent(
                        rows[j].number@,
                    ) ==> rows[j].number@ <= rows[b as int].number@,
                best is None ==> forall|j: int|
                    0 <= j < i && self@.lacks_parent(rows[j].number@) ==> rows[j].number@
                        > target@,
            decreases self.headers@.len() - i,
        {
            let number = self.headers[i].header.number;
            proof {
                lemma_row_found(rows, i as int);
            }
            if number.get() <= target.get() {
                let parent_stored = match number.parent() {
                    Some(below) => self.find_number(below.get()).is_some(),
                    None => false,
                };
                if !parent_stored {
                    let better = match best {
                        Some(b) => number.get() > self.headers[b].header.number.get(),
                        None => true,
                    };
                    if better {
                        best = Some(i);
                    }
                }
            }
            i = i + 1;
        }
        match best {
            Some(b) => {
                proof {
                    lemma_row_found(rows, b as int);
                    assert forall|k: nat| #[trigger] self@.lacks_parent(k) && k <= target@ implies k
                        <= rows[b as int].number@ by {
                        let j = lemma_key_has_row(rows, k);
                    }
                }
                Some((self.headers[b].header.number, self.headers[b].header.hash))
            },
            None => {
                proof {
                    assert forall|k: nat| #[trigger] self@.lacks_parent(k) implies k > target@ by {
                        let j = lemma_key_has_row(rows, k);
                    }
                }
                None
            },
        }
    }

    /// The highest block that the first layer has accepted.
    pub fn l1_l2_pointer(&self) -> (r: Option<BlockNumber>)
        requires
            self.wf(),
        ensures
            r == self@.l1_l2_pointer,
    {
        self.l1_l2_pointer
    }

    /// Sets the highest block that the first layer has accepted.
    pub fn update_l1_l2_pointer(&mut self, pointer: Option<BlockNumber>)
        requires
            old(self).wf(),
        ensures
            final(self).wf(),
            final(self)@ == (StorageView { l1_l2_pointer: pointer, ..old(self)@ }),
    {
        self.l1_l2_pointer = pointer;
    }

    /// Whether the first layer has accepted a block: the block is stored
    /// and not above the pointer.
    pub fn block_is_l1_accepted(&self, block: BlockId) -> (r: bool)
        requires
            self.wf(),
        ensures
            r == (self@.l1_l2_pointer matches Some(pointer) && exists|n: nat|
                self@.names(block, n) && n <= pointer@),
    {
        let Some(l1_l2) = self.l1_l2_pointer() else {
            return false;
        };
        let Some((block_number, _)) = self.block_id(block) else {
            return false;
        };
        proof {
            self.lemma_names_one(block);
        }
        block_number.get() <= l1_l2.get()
    }
}

/// What is left of a store's contents when block `n` is purged.
pub open spec fn purged(view: StorageView, n: nat) -> StorageView {
    StorageView {
        headers: view.headers.remove(n),
        versions: view.versions,
        signatures: without_block(view.signatures, n),
        transactions: if view.headers.contains_key(n) {
            without_block_hash(view.transactions, view.headers[n].hash)
        } else {
            view.transactions
        },
        contract_roots: without_block(view.contract_roots, n),
        storage_roots: without_block(view.storage_roots, n),
        class_roots: without_block(view.class_roots, n),
        contract_state_hashes: without_block(view.contract_state_hashes, n),
        class_commitment_leaves: without_block(view.class_commitment_leaves, n),
        class_definitions: unlinked_from(view.class_definitions, n),
        l1_l2_pointer: view.l1_l2_pointer,
        contract_trie: view.contract_trie,
        storage_trie: view.storage_trie,
    }
}

/// After a purge no table holds a row of the block, the classes excepted,
/// which stay without their link to it; and no transaction of the block is
/// left.
pub proof fn lemma_purge_isolation(view: StorageView, n: nat)
    ensures
        purged(view, n).holds_nothing_of(n),
        view.headers.contains_key(n) ==> forall|i: int|
            0 <= i < purged(view, n).transactions.len() ==> (#[trigger] purged(
                view,
                n,
            ).transactions[i]).block_hash != view.headers[n].hash,
{
    lemma_without_block(view.signatures, n);
    lemma_without_block(view.contract_roots, n);
    lemma_without_block(view.storage_roots, n);
    lemma_without_block(view.class_roots, n);
    lemma_without_block(view.contract_state_hashes, n);
    lemma_without_block(view.class_commitment_leaves, n);
    if view.headers.contains_key(n) {
        lemma_without_block_hash(view.transactions, view.headers[n].hash);
    }
}

impl Storage {
    /// Takes out every row of a block: its header, its signature, its
    /// transactions, the roots and leaves that it set. The classes that it
    /// declared stay, without their link to it.
    pub fn purge_block(&mut self, block: BlockNumber)
        requires
            old(self).wf(),
        ensures
            final(self).wf(),
            final(self)@ == purged(old(self)@, block@),
            final(self)@.holds_nothing_of(block@),
    {
        proof {
            lemma_purge_isolation(self@, block@);
        }
        match self.find_number(block.get()) {
            Some(i) => {
                let hash = self.headers[i].header.hash;
                proof {
                    let rows = headers_of(self.headers@);
                    lemma_row_found(rows, i as int);
                    lemma_remove_row(rows, i as int);
                    assert(headers_of(self.headers@.remove(i as int)) =~= rows.remove(i as int));
                }
                remove_block_hash(&mut self.transactions, hash);
                self.headers.remove(i);
            },
            None => {
                proof {
                    assert(self@.headers.remove(block@) =~= self@.headers);
                }
            },
        }
        remove_block(&mut self.signatures, block);
        remove_block(&mut self.contract_roots, block);
        remove_block(&mut self.storage_roots, block);
        remove_block(&mut self.class_roots, block);
        remove_block(&mut self.contract_state_hashes, block);
        remove_block(&mut self.class_commitment_leaves, block);
        unlink_block(&mut self.class_definitions, block);
    }

    /// Stores the signature over the commitment of a block.
    pub fn insert_signature(&mut self, block_number: BlockNumber, signature: BlockCommitmentSignature)
        requires
            old(self).wf(),
        ensures
            final(self).wf(),
            final(self)@ == (StorageView {
                signatures: old(self)@.signatures.push(SignatureRow { block_number, signature }),
                ..old(self)@
            }),
    {
        self.signatures.push(SignatureRow { block_number, signature });
    }

    /// The signature that was stored last for a block.
    pub fn signature(&self, block_number: BlockNumber) -> (r: Option<BlockCommitmentSignature>)
        requires
            self.wf(),
        ensures
            r == last_signature(self@.signatures, block_number@),
    {
        let mut i: usize = self.signatures.len();
        proof {
            assert(self.signatures@.subrange(0, i as int) =~= self.signatures@);
        }
        while i > 0
            invariant
                i <= self.signatures@.len(),
                last_signature(self@.signatures, block_number@) == last_signature(
                    self.signatures@.subrange(0, i as int),
                    block_number@,
                ),
            decreases i,
        {
            let ghost prefix = self.signatures@.subrange(0, i as int);
            i = i - 1;
            proof {
                assert(prefix.last() == self.signatures@[i as int]);
                assert(prefix.drop_last() =~= self.signatures@.subrange(0, i as int));
            }
            if self.signatures[i].block_number.get() == block_number.get() {
                return Some(self.signatures[i].signature);
            }
        }
        None
    }

    /// Stores a transaction of the block with the given hash.
    pub fn insert_transaction(&mut self, block_hash: BlockHash, hash: TransactionHash)
        requires
            old(self).wf(),
        ensures
            final(self).wf(),
            final(self)@ == (StorageView {
                transactions: old(self)@.transactions.push(TransactionRow { block_hash, hash }),
                ..old(self)@
            }),
    {
        self.transactions.push(TransactionRow { block_hash, hash });
    }

    /// The hash of the block that the first stored transaction with the
    /// given hash belongs to.
    pub fn transaction_block_hash(&self, hash: TransactionHash) -> (r: Option<BlockHash>)
        requires
            self.wf(),
        ensures
            r == block_of_transaction(self@.transactions, hash),
    {
        let mut i: usize = 0;
        proof {
            assert(self.transactions@.subrange(0, self.transactions@.len() as int)
                =~= self.transactions@);
        }
        while i < self.transactions.len()
            invariant
                i <= self.transactions@.len(),
                block_of_transaction(self@.transactions, hash) == block_of_transaction(
                    self.transactions@.subrange(i as int, self.transactions@.len() as int),
                    hash,
                ),
            decreases self.transactions@.len() - i,
        {
            let ghost rest = self.transactions@.subrange(
                i as int,
                self.transactions@.len() as int,
            );
            proof {
                assert(rest[0] == self.transactions@[i as int]);
                assert(rest.drop_first() =~= self.transactions@.subrange(
                    i + 1,
                    self.transactions@.len() as int,
                ));
            }
            if self.transactions[i].hash == hash {
                return Some(self.transactions[i].block_hash);
            }
            i = i + 1;
        }
        None
    }

    /// Stores the root of a contract's trie after a block.
    pub fn insert_contract_root(
        &mut self,
        block_number: BlockNumber,
        contract: ContractAddress,
        root_index: Option<u64>,
    )
        requires
            old(self).wf(),
        ensures
            final(self).wf(),
            final(self)@ == (StorageView {
                contract_roots: old(self)@.contract_roots.push(
                    ContractRootRow { block_number, contract, root_index },
                ),
                ..old(self)@
            }),
    {
        self.contract_roots.push(ContractRootRow { block_number, contract, root_index });
    }

    /// The root of a contract's trie at a block: the one that the last
    /// block up to it that changed the trie gave it. There is none where no
    /// block up to it changed the trie, and where the root is that of an
    /// empty trie.
    pub fn contract_root_index(&self, block: BlockNumber, contract: ContractAddress) -> (r: Option<
        u64,
    >)
        requires
            self.wf(),
        ensures
            r == (match contract_root_at(self@.contract_roots, block@, contract) {
                Some(row) => row.root_index,
                None => None,
            }),
    {
        let mut best: Option<ContractRootRow> = None;
        let mut i: usize = 0;
        proof {
            assert(self.contract_roots@.subrange(0, 0) =~= Seq::<ContractRootRow>::empty());
        }
        while i < self.contract_roots.len()
            invariant
                i <= self.contract_roots@.len(),
                best == contract_root_at(
                    self.contract_roots@.subrange(0, i as int),
                    block@,
                    contract,
                ),
            decreases self.contract_roots@.len() - i,
        {
            let row = self.contract_roots[i];
            proof {
                let next = self.contract_roots@.subrange(0, i + 1);
                assert(next.last() == row);
                assert(next.drop_last() =~= self.contract_roots@.subrange(0, i as int));
            }
            let later = match best {
                Some(b) => b.block_number.get() <= row.block_number.get(),
                None => true,
            };
            if row.contract == contract && row.block_number.get() <= block.get() && later {
                best = Some(row);
            }
            i = i + 1;
        }
        proof {
            assert(self.contract_roots@.subrange(0, i as int) =~= self.contract_roots@);
        }
        match best {
            Some(row) => row.root_index,
            None => None,
        }
    }

    /// Stores the root of the global state trie after a block.
    pub fn insert_storage_root(&mut self, block_number: BlockNumber, root_index: Option<u64>)
        requires
            old(self).wf(),
        ensures
            final(self).wf(),
            final(self)@ == (StorageView {
                storage_roots: old(self)@.storage_roots.push(RootRow { block_number, root_index }),
                ..old(self)@
            }),
    {
        self.storage_roots.push(RootRow { block_number, root_index });
    }

    /// The root of the global state trie at a block: the one that the last
    /// block up to it gave it.
    pub fn storage_root_index(&self, block: BlockNumber) -> (r: Option<u64>)
        requires
            self.wf(),
        ensures
            r == (match latest_root(self@.storage_roots, block@) {
                Some(row) => row.root_index,
                None => None,
            }),
    {
        find_root(&self.storage_roots, block)
    }

    /// Stores the root of the class trie after a block.
    pub fn insert_class_root(&mut self, block_number: BlockNumber, root_index: Option<u64>)
        requires
            old(self).wf(),
        ensures
            final(self).wf(),
            final(self)@ == (StorageView {
                class_roots: old(self)@.class_roots.push(RootRow { block_number, root_index }),
                ..old(self)@
            }),
    {
        self.class_roots.push(RootRow { block_number, root_index });
    }

    /// The root of the class trie at a block: the one that the last block
    /// up to it gave it.
    pub fn class_root_index(&self, block: BlockNumber) -> (r: Option<u64>)
        requires
            self.wf(),
        ensures
            r == (match latest_root(self@.class_roots, block@) {
                Some(row) => row.root_index,
                None => None,
            }),
    {
        find_root(&self.class_roots, block)
    }

    /// Stores the state hash of a contract after a block.
    pub fn insert_contract_state_hash(
        &mut self,
        block_number: BlockNumber,
        contract: ContractAddress,
        state_hash: ContractStateHash,
    )
        requires
            old(self).wf(),
        ensures
            final(self).wf(),
            final(self)@ == (StorageView {
                contract_state_hashes: old(self)@.contract_state_hashes.push(
                    ContractStateHashRow { block_number, contract, state_hash },
                ),
                ..old(self)@
            }),
    {
        self.contract_state_hashes.push(
            ContractStateHashRow { block_number, contract, state_hash },
        );
    }

    /// Stores a leaf of the class trie that a block set.
    pub fn insert_class_commitment_leaf(
        &mut self,
        block_number: BlockNumber,
        class_hash: ClassHash,
        compiled_class_hash: CasmHash,
    )
        requires
            old(self).wf(),
        ensures
            final(self).wf(),
            final(self)@ == (StorageView {
                class_commitment_leaves: old(self)@.class_commitment_leaves.push(
                    ClassCommitmentLeafRow { block_number, class_hash, compiled_class_hash },
                ),
                ..old(self)@
            }),
    {
        self.class_commitment_leaves.push(
            ClassCommitmentLeafRow { block_number, class_hash, compiled_class_hash },
        );
    }

    /// Stores a class, with the block that declared it if one did.
    pub fn insert_class_definition(&mut self, class_hash: ClassHash, block_number: Option<BlockNumber>)
        requires
            old(self).wf(),
        ensures
            final(self).wf(),
            final(self)@ == (StorageView {
                class_definitions: old(self)@.class_definitions.push(
                    ClassDefinitionRow { class_hash, block_number },
                ),
                ..old(self)@
            }),
    {
        self.class_definitions.push(ClassDefinitionRow { class_hash, block_number });
    }

    /// Whether a class is stored at all.
    pub fn class_is_stored(&self, class_hash: ClassHash) -> (r: bool)
        requires
            self.wf(),
        ensures
            r == exists|i: int|
                0 <= i < self@.class_definitions.len() && (
                #[trigger] self@.class_definitions[i]).class_hash == class_hash,
    {
        let mut i: usize = 0;
        while i < self.class_definitions.len()
            invariant
                i <= self.class_definitions@.len(),
                forall|j: int|
                    0 <= j < i ==> (#[trigger] self.class_definitions@[j]).class_hash != class_hash,
            decreases self.class_definitions@.len() - i,
        {
            if self.class_definitions[i].class_hash == class_hash {
                return true;
            }
            i = i + 1;
        }
        false
    }

    /// Whether a class was declared by a block up to `block`.
    pub fn class_is_declared_at(&self, block: BlockNumber, class_hash: ClassHash) -> (r: bool)
        requires
            self.wf(),
        ensures
            r == exists|i: int|
                0 <= i < self@.class_definitions.len() && (
                #[trigger] self@.class_definitions[i]).class_hash == class_hash && (
                self@.class_definitions[i].block_number matches Some(b) && b@ <= block@),
    {
        let mut i: usize = 0;
        while i < self.class_definitions.len()
            invariant
                i <= self.class_definitions@.len(),
                forall|j: int|
                    0 <= j < i ==> !((#[trigger] self.class_definitions@[j]).class_hash == class_hash
                        && (self.class_definitions@[j].block_number matches Some(b) && b@
                        <= block@)),
            decreases self.class_definitions@.len() - i,
        {
            let row = self.class_definitions[i];
            let declared = match row.block_number {
                Some(b) => b.get() <= block.get(),
                None => false,
            };
            if row.class_hash == class_hash && declared {
                return true;
            }
            i = i + 1;
        }
        false
    }
}

/// What storing a header makes of a store's contents, or why it is refused.
pub open spec fn insert_outcome(view: StorageView, header: BlockHeader) -> Result<
    StorageView,
    StorageError,
> {
    if header.transaction_count > I64_MAX || header.event_count > I64_MAX {
        Err(StorageError::CountOutOfRange)
    } else if view.headers.contains_key(header.number@) {
        Err(StorageError::DuplicateBlockNumber)
    } else if view.has_hash(header.hash) {
        Err(StorageError::DuplicateBlockHash)
    } else {
        Ok(
            StorageView {
                headers: view.headers.insert(header.number@, stored_form(header)),
                versions: if view.versions.contains(header.starknet_version) {
                    view.versions
                } else {
                    view.versions.push(header.starknet_version)
                },
                ..view
            },
        )
    }
}

/// What storing a string of signed headers, one after another, makes of a
/// store's contents, or why the first one that is refused is refused.
pub open spec fn batch_outcome(view: StorageView, batch: Seq<SignedBlockHeader>) -> Result<
    StorageView,
    StorageError,
>
    decreases batch.len(),
{
    if batch.len() == 0 {
        Ok(view)
    } else {
        match batch_outcome(view, batch.drop_last()) {
            Err(e) => Err(e),
            Ok(before) => match insert_outcome(before, batch.last().header) {
                Err(e) => Err(e),
                Ok(with_header) => Ok(
                    StorageView {
                        signatures: with_header.signatures.push(
                            SignatureRow {
                                block_number: batch.last().header.number,
                                signature: batch.last().signature,
                            },
                        ),
                        ..with_header
                    },
                ),
            },
        }
    }
}

impl Storage {
    /// Stores a string of signed headers, all or none: where one of them is
    /// refused, the store is left as it was.
    pub fn insert_signed_headers(&mut self, batch: &[SignedBlockHeader]) -> (r: Result<
        (),
        StorageError,
    >)
        requires
            old(self).wf(),
        ensures
            final(self).wf(),
            match batch_outcome(old(self)@, batch@) {
                Ok(view) => r is Ok && final(self)@ == view,
                Err(e) => r == Err::<(), StorageError>(e) && final(self)@ == old(self)@,
            },
    {
        let headers_before = self.headers.len();
        let versions_before = self.versions.len();
        let signatures_before = self.signatures.len();
        let mut i: usize = 0;
        proof {
            assert(batch@.subrange(0, 0) =~= Seq::<SignedBlockHeader>::empty());
            assert(self.headers@.subrange(0, headers_before as int) =~= self.headers@);
            assert(self.versions@.subrange(0, versions_before as int) =~= self.versions@);
            assert(self.signatures@.subrange(0, signatures_before as int) =~= self.signatures@);
        }
        while i < batch.len()
            invariant
                i <= batch@.len(),
                self.wf(),
                old(self).wf(),
                batch_outcome(old(self)@, batch@.subrange(0, i as int)) == Ok::<
                    StorageView,
                    StorageError,
                >(self@),
                headers_before <= self.headers@.len(),
                versions_before <= self.versions@.len(),
                signatures_before <= self.signatures@.len(),
                self.headers@.subrange(0, headers_before as int) == old(self).headers@,
                self.versions@.subrange(0, versions_before as int) == old(self).versions@,
                self.signatures@.subrange(0, signatures_before as int) == old(self).signatures@,
                self.transactions == old(self).transactions,
                self.contract_roots == old(self).contract_roots,
                self.storage_roots == old(self).storage_roots,
                self.class_roots == old(self).class_roots,
                self.contract_state_hashes == old(self).contract_state_hashes,
                self.class_commitment_leaves == old(self).class_commitment_leaves,
                self.class_definitions == old(self).class_definitions,
                self.l1_l2_pointer == old(self).l1_l2_pointer,
                self.contract_trie == old(self).contract_trie,
                self.storage_trie == old(self).storage_trie,
            decreases batch@.len() - i,
        {
            let signed = batch[i];
            let ghost before_rows = self.headers@;
            let ghost before_versions = self.versions@;
            let ghost before_signatures = self.signatures@;
            proof {
                let next = batch@.subrange(0, i + 1);
                assert(next.drop_last() =~= batch@.subrange(0, i as int));
                assert(next.last() == signed);
            }
            match self.insert_block_header_rows(&signed.header) {
                Ok(()) => {
                    self.signatures.push(
                        SignatureRow {
                            block_number: signed.header.number,
                            signature: signed.signature,
                        },
                    );
                    proof {
                        assert(self.headers@.subrange(0, headers_before as int)
                            =~= before_rows.subrange(0, headers_before as int));
                        assert(self.versions@.subrange(0, versions_before as int)
                            =~= before_versions.subrange(0, versions_before as int));
                        assert(self.signatures@.subrange(0, signatures_before as int)
                            =~= before_signatures.subrange(0, signatures_before as int));
                    }
                },
                Err(e) => {
                    proof {
                        self.lemma_batch_fails(old(self)@, batch@, i as int, e);
                    }
                    self.headers.truncate(headers_before);
                    self.versions.truncate(versions_before);
                    self.signatures.truncate(signatures_before);
                    proof {
                        assert(self.headers@ =~= old(self).headers@);
                        assert(self.versions@ =~= old(self).versions@);
                        assert(self.signatures@ =~= old(self).signatures@);
                        assert(self.headers@ == old(self).headers@);
                        assert(self.versions@ == old(self).versions@);
                        assert(old(self).wf());
                        assert(self.wf());
                    }
                    return Err(e);
                },
            }
            i = i + 1;
        }
        proof {
            assert(batch@.subrange(0, i as int) =~= batch@);
        }
        Ok(())
    }

    /// Stores a header as [`Storage::insert_block_header`] does, and says
    /// besides that rows are only ever put last.
    fn insert_block_header_rows(&mut self, header: &BlockHeader) -> (r: Result<(), StorageError>)
        requires
            old(self).wf(),
        ensures
            final(self).wf(),
            match insert_outcome(old(self)@, *header) {
                Ok(view) => r is Ok && final(self)@ == view,
                Err(e) => r == Err::<(), StorageError>(e) && final(self)@ == old(self)@,
            },
            old(self).headers@ == final(self).headers@.subrange(0, old(self).headers@.len() as int),
            old(self).versions@ == final(self).versions@.subrange(
                0,
                old(self).versions@.len() as int,
            ),
            old(self).headers@.len() <= final(self).headers@.len(),
            old(self).versions@.len() <= final(self).versions@.len(),
            final(self).signatures == old(self).signatures,
            final(self).transactions == old(self).transactions,
            final(self).contract_roots == old(self).contract_roots,
            final(self).storage_roots == old(self).storage_roots,
            final(self).class_roots == old(self).class_roots,
            final(self).contract_state_hashes == old(self).contract_state_hashes,
            final(self).class_commitment_leaves == old(self).class_commitment_leaves,
            final(self).class_definitions == old(self).class_definitions,
            final(self).l1_l2_pointer == old(self).l1_l2_pointer,
            final(self).contract_trie == old(self).contract_trie,
            final(self).storage_trie == old(self).storage_trie,
    {
        if header.transaction_count as u64 > I64_MAX || header.event_count as u64 > I64_MAX {
            proof {
                assert(self.headers@.subrange(0, self.headers@.len() as int) =~= self.headers@);
                assert(self.versions@.subrange(0, self.versions@.len() as int) =~= self.versions@);
            }
            return Err(StorageError::CountOutOfRange);
        }
        if self.find_number(header.number.get()).is_some() {
            proof {
                assert(self.headers@.subrange(0, self.headers@.len() as int) =~= self.headers@);
                assert(self.versions@.subrange(0, self.versions@.len() as int) =~= self.versions@);
            }
            return Err(StorageError::DuplicateBlockNumber);
        }
        if self.find_hash(header.hash).is_some() {
            proof {
                assert(self.headers@.subrange(0, self.headers@.len() as int) =~= self.headers@);
                assert(self.versions@.subrange(0, self.versions@.len() as int) =~= self.versions@);
            }
            return Err(StorageError::DuplicateBlockHash);
        }
        let version_id = self.intern_starknet_version(&header.starknet_version);
        let stored = BlockHeader { parent_hash: BlockHash(crate::felt::Felt::zero()), ..*header };
        let ghost before = headers_of(self.headers@);
        proof {
            let after = before.push(stored);
            assert(headers_of(self.headers@.push(HeaderRow { header: stored, version_id })) =~= after);
            assert forall|i: int, j: int|
                0 <= i < after.len() && 0 <= j < after.len() && i != j implies (
            #[trigger] after[i]).number@ != (#[trigger] after[j]).number@ && after[i].hash
                != after[j].hash by {
                if i < before.len() {
                    lemma_row_found(before, i);
                    assert(old(self)@.headers.contains_key(before[i].number@));
                }
                if j < before.len() {
                    lemma_row_found(before, j);
                    assert(old(self)@.headers.contains_key(before[j].number@));
                }
            }
            lemma_push_row(before, stored);
        }
        self.headers.push(HeaderRow { header: stored, version_id });
        proof {
            assert(self.headers@.subrange(0, old(self).headers@.len() as int) =~= old(self).headers@);
            assert(self.versions@.subrange(0, old(self).versions@.len() as int) =~= old(self).versions@);
        }
        Ok(())
    }

    /// A batch whose header at `i` is refused after the ones before it were
    /// stored is refused as a whole, for the same reason.
    proof fn lemma_batch_fails(
        self,
        start: StorageView,
        batch: Seq<SignedBlockHeader>,
        i: int,
        e: StorageError,
    )
        requires
            0 <= i < batch.len(),
            batch_outcome(start, batch.subrange(0, i)) == Ok::<StorageView, StorageError>(self@),
            insert_outcome(self@, batch[i].header) == Err::<StorageView, StorageError>(e),
        ensures
            batch_outcome(start, batch) == Err::<StorageView, StorageError>(e),
        decreases batch.len() - i,
    {
        let next = batch.subrange(0, i + 1);
        assert(next.drop_last() =~= batch.subrange(0, i));
        assert(next.last() == batch[i]);
        assert(batch_outcome(start, next) == Err::<StorageView, StorageError>(e));
        lemma_batch_stays_failed(start, batch, i + 1, e);
    }
}

/// A batch of which a first part is refused is refused as a whole, for the
/// same reason.
proof fn lemma_batch_stays_failed(
    start: StorageView,
    batch: Seq<SignedBlockHeader>,
    k: int,
    e: StorageError,
)
    requires
        0 <= k <= batch.len(),
        batch_outcome(start, batch.subrange(0, k)) == Err::<StorageView, StorageError>(e),
    ensures
        batch_outcome(start, batch) == Err::<StorageView, StorageError>(e),
    decreases batch.len() - k,
{
    if k == batch.len() {
        assert(batch.subrange(0, k) =~= batch);
    } else {
        let next = batch.subrange(0, k + 1);
        assert(next.drop_last() =~= batch.subrange(0, k));
        lemma_batch_stays_failed(start, batch, k + 1, e);
    }
}

impl Storage {
    /// The table of the nodes of the storage tries of all contracts.
    pub fn contract_trie(&self) -> (r: &TrieStore)
        requires
            self.wf(),
        ensures
            r.wf(),
            r@ == self@.contract_trie,
    {
        &self.contract_trie
    }

    /// The table of the nodes of the global state trie.
    pub fn storage_trie(&self) -> (r: &TrieStore)
        requires
            self.wf(),
        ensures
            r.wf(),
            r@ == self@.storage_trie,
    {
        &self.storage_trie
    }

    /// Commits a storage trie of a contract: puts the nodes that its
    /// changes made into the table and gives the new root.
    pub fn commit_contract_trie(&mut self, tree: MerkleTree) -> (r: TrieUpdate)
        requires
            old(self).wf(),
            tree.wf_in(old(self)@.contract_trie),
        ensures
            final(self).wf(),
            final(self)@ == (StorageView {
                contract_trie: final(self)@.contract_trie,
                ..old(self)@
            }),
            extends(final(self)@.contract_trie, old(self)@.contract_trie),
            r.root@ == root_hash(tree.tree(old(self)@.contract_trie)),
            r.root_index is Some <==> tree.tree(old(self)@.contract_trie) is Some,
            r.root_index matches Some(index) ==> {
                &&& index < final(self)@.contract_trie.len()
                &&& Some(stored_tree(final(self)@.contract_trie, index as nat)) == tree.tree(
                    old(self)@.contract_trie,
                )
                &&& final(self)@.contract_trie[index as int].height == KEY_BITS
            },
    {
        tree.commit(&mut self.contract_trie)
    }

    /// Commits a global state trie: puts the nodes that its changes made
    /// into the table and gives the new root.
    pub fn commit_storage_trie(&mut self, tree: MerkleTree) -> (r: TrieUpdate)
        requires
            old(self).wf(),
            tree.wf_in(old(self)@.storage_trie),
        ensures
            final(self).wf(),
            final(self)@ == (StorageView {
                storage_trie: final(self)@.storage_trie,
                ..old(self)@
            }),
            extends(final(self)@.storage_trie, old(self)@.storage_trie),
            r.root@ == root_hash(tree.tree(old(self)@.storage_trie)),
            r.root_index is Some <==> tree.tree(old(self)@.storage_trie) is Some,
            r.root_index matches Some(index) ==> {
                &&& index < final(self)@.storage_trie.len()
                &&& Some(stored_tree(final(self)@.storage_trie, index as nat)) == tree.tree(
                    old(self)@.storage_trie,
                )
                &&& final(self)@.storage_trie[index as int].height == KEY_BITS
            },
    {
        tree.commit(&mut self.storage_trie)
    }
}

impl Storage {
    /// The hashes of the transactions of a block, in the order in which
    /// they were stored; none where the block is not stored.
    pub fn transaction_hashes_for_block(&self, block: BlockId) -> (r: Option<Vec<TransactionHash>>)
        requires
            self.wf(),
        ensures
            r is Some <==> self@.exists_block(block),
            r matches Some(hashes) ==> exists|n: nat|
                self@.names(block, n) && hashes@ == hashes_of_block(
                    self@.transactions,
                    self@.headers[n].hash,
                ),
    {
        let Some((number, block_hash)) = self.block_id(block) else {
            return None;
        };
        let mut hashes: Vec<TransactionHash> = Vec::new();
        let mut i: usize = 0;
        proof {
            assert(self.transactions@.subrange(0, 0) =~= Seq::<TransactionRow>::empty());
        }
        while i < self.transactions.len()
            invariant
                i <= self.transactions@.len(),
                hashes@ == hashes_of_block(self.transactions@.subrange(0, i as int), block_hash),
            decreases self.transactions@.len() - i,
        {
            let row = self.transactions[i];
            proof {
                let next = self.transactions@.subrange(0, i + 1);
                assert(next.drop_last() =~= self.transactions@.subrange(0, i as int));
                assert(next.last() == row);
            }
            if row.block_hash == block_hash {
                hashes.push(row.hash);
            }
            i = i + 1;
        }
        proof {
            assert(self.transactions@.subrange(0, i as int) =~= self.transactions@);
            assert(self@.names(block, number@));
        }
        Some(hashes)
    }
}

impl Storage {
    /// Puts a node into the table of the storage tries of contracts, where
    /// it fits what the table holds, and gives its index.
    pub fn insert_contract_trie_node(&mut self, node: NewNode) -> (r: Result<u64, TrieStoreError>)
        requires
            old(self).wf(),
        ensures
            final(self).wf(),
            match new_row(old(self)@.contract_trie, node) {
                Ok(row) => {
                    &&& r == Ok::<u64, TrieStoreError>(old(self)@.contract_trie.len() as u64)
                    &&& old(self)@.contract_trie.len() <= u64::MAX
                    &&& final(self)@ == (StorageView {
                        contract_trie: old(self)@.contract_trie.push(row),
                        ..old(self)@
                    })
                    &&& extends(final(self)@.contract_trie, old(self)@.contract_trie)
                },
                Err(e) => r == Err::<u64, TrieStoreError>(e) && final(self)@ == old(self)@,
            },
    {
        self.contract_trie.push(node)
    }

    /// Puts a node into the table of the global state trie, where it fits
    /// what the table holds, and gives its index.
    pub fn insert_storage_trie_node(&mut self, node: NewNode) -> (r: Result<u64, TrieStoreError>)
        requires
            old(self).wf(),
        ensures
            final(self).wf(),
            match new_row(old(self)@.storage_trie, node) {
                Ok(row) => {
                    &&& r == Ok::<u64, TrieStoreError>(old(self)@.storage_trie.len() as u64)
                    &&& old(self)@.storage_trie.len() <= u64::MAX
                    &&& final(self)@ == (StorageView {
                        storage_trie: old(self)@.storage_trie.push(row),
                        ..old(self)@
                    })
                    &&& extends(final(self)@.storage_trie, old(self)@.storage_trie)
                },
                Err(e) => r == Err::<u64, TrieStoreError>(e) && final(self)@ == old(self)@,
            },
    {
        self.storage_trie.push(node)
    }
}

} // verus!
