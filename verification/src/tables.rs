//! The rows of the node store's tables, and what is done to a table as a
//! whole: taking the rows of a block out, and finding the row that holds
//! for a block.

use crate::common::{
    BlockCommitmentSignature, BlockHash, BlockNumber, CasmHash, ClassHash, ContractAddress,
    ContractStateHash, TransactionHash,
};
use vstd::prelude::*;

verus! {

/// A row that belongs to one block.
pub trait BlockKeyed: Copy {
    /// The number of the block that the row belongs to.
    spec fn block(&self) -> nat;

    /// The number of the block that the row belongs to.
    fn block_number(&self) -> (r: BlockNumber)
        ensures
            r@ == self.block(),
    ;
}

/// The signature over the commitment of one block.
#[derive(Clone, Copy, Debug, PartialEq, Eq)]
pub struct SignatureRow {
    pub block_number: BlockNumber,
    pub signature: BlockCommitmentSignature,
}

/// A transaction of one block.
#[derive(Clone, Copy, Debug, PartialEq, Eq)]
pub struct TransactionRow {
    pub block_hash: BlockHash,
    pub hash: TransactionHash,
}

/// The root of the storage trie of a contract after one block. `None` is the
/// root of an empty trie.
#[derive(Clone, Copy, Debug, PartialEq, Eq)]
pub struct ContractRootRow {
    pub block_number: BlockNumber,
    pub contract: ContractAddress,
    pub root_index: Option<u64>,
}

/// The root of the global state trie, or of the class trie, after one block.
#[derive(Clone, Copy, Debug, PartialEq, Eq)]
pub struct RootRow {
    pub block_number: BlockNumber,
    pub root_index: Option<u64>,
}

/// The state hash of a contract after one block.
#[derive(Clone, Copy, Debug, PartialEq, Eq)]
pub struct ContractStateHashRow {
    pub block_number: BlockNumber,
    pub contract: ContractAddress,
    pub state_hash: ContractStateHash,
}

/// A leaf of the class trie that one block set.
#[derive(Clone, Copy, Debug, PartialEq, Eq)]
pub struct ClassCommitmentLeafRow {
    pub block_number: BlockNumber,
    pub class_hash: ClassHash,
    pub compiled_class_hash: CasmHash,
}

/// A class, with the block that declared it if that block is stored.
#[derive(Clone, Copy, Debug, PartialEq, Eq)]
pub struct ClassDefinitionRow {
    pub class_hash: ClassHash,
    pub block_number: Option<BlockNumber>,
}

impl BlockKeyed for SignatureRow {
    open spec fn block(&self) -> nat {
        self.block_number@
    }

    fn block_number(&self) -> (r: BlockNumber) {
        self.block_number
    }
}

impl BlockKeyed for ContractRootRow {
    open spec fn block(&self) -> nat {
        self.block_number@
    }

    fn block_number(&self) -> (r: BlockNumber) {
        self.block_number
    }
}

impl BlockKeyed for RootRow {
    open spec fn block(&self) -> nat {
        self.block_number@
    }

    fn block_number(&self) -> (r: BlockNumber) {
        self.block_number
    }
}

impl BlockKeyed for ContractStateHashRow {
    open spec fn block(&self) -> nat {
        self.block_number@
    }

    fn block_number(&self) -> (r: BlockNumber) {
        self.block_number
    }
}

impl BlockKeyed for ClassCommitmentLeafRow {
    open spec fn block(&self) -> nat {
        self.block_number@
    }

    fn block_number(&self) -> (r: BlockNumber) {
        self.block_number
    }
}

/// The rows of a table that do not belong to block `n`, in their order.
pub open spec fn without_block<T: BlockKeyed>(rows: Seq<T>, n: nat) -> Seq<T>
    decreases rows.len(),
{
    if rows.len() == 0 {
        rows
    } else if rows.last().block() == n {
        without_block(rows.drop_last(), n)
    } else {
        without_block(rows.drop_last(), n).push(rows.last())
    }
}

/// No row of what is left belongs to block `n`, and every other row is left.
pub proof fn lemma_without_block<T: BlockKeyed>(rows: Seq<T>, n: nat)
    ensures
        forall|i: int|
            0 <= i < without_block(rows, n).len() ==> (#[trigger] without_block(rows, n)[i]).block()
                != n,
        forall|i: int|
            0 <= i < rows.len() && (#[trigger] rows[i]).block() != n ==> without_block(
                rows,
                n,
            ).contains(rows[i]),
        forall|i: int|
            0 <= i < without_block(rows, n).len() ==> rows.contains(
                #[trigger] without_block(rows, n)[i],
            ),
    decreases rows.len(),
{
    if rows.len() > 0 {
        let front = rows.drop_last();
        lemma_without_block(front, n);
        let kept = without_block(front, n);
        let all = without_block(rows, n);
        assert forall|i: int| 0 <= i < rows.len() && (#[trigger] rows[i]).block() != n implies all.contains(
            rows[i],
        ) by {
            if i < rows.len() - 1 {
                assert(front[i] == rows[i]);
                assert(kept.contains(front[i]));
                let j = choose|j: int| 0 <= j < kept.len() && kept[j] == front[i];
                assert(all[j] == rows[i]);
            } else {
                assert(all[all.len() - 1] == rows[i]);
            }
        }
        assert forall|i: int| 0 <= i < all.len() implies rows.contains(#[trigger] all[i]) by {
            if i < kept.len() {
                assert(front.contains(kept[i]));
                let j = choose|j: int| 0 <= j < front.len() && front[j] == kept[i];
                assert(rows[j] == all[i]);
            } else {
                assert(rows[rows.len() - 1] == all[i]);
            }
        }
    }
}

/// Takes the rows of block `n` out of a table.
pub fn remove_block<T: BlockKeyed>(rows: &mut Vec<T>, n: BlockNumber)
    ensures
        final(rows)@ == without_block(old(rows)@, n@),
{
    let mut kept: Vec<T> = Vec::new();
    let mut i: usize = 0;
    proof {
        assert(rows@.subrange(0, 0) =~= Seq::<T>::empty());
    }
    while i < rows.len()
        invariant
            i <= rows@.len(),
            rows@ == old(rows)@,
            kept@ == without_block(rows@.subrange(0, i as int), n@),
        decreases rows@.len() - i,
    {
        let row = rows[i];
        proof {
            let next = rows@.subrange(0, i + 1);
            assert(next.drop_last() =~= rows@.subrange(0, i as int));
            assert(next.last() == row);
        }
        if row.block_number().get() != n.get() {
            kept.push(row);
        }
        i = i + 1;
    }
    proof {
        assert(rows@.subrange(0, i as int) =~= rows@);
    }
    *rows = kept;
}

/// The transactions that do not belong to the block with the given hash, in
/// their order.
pub open spec fn without_block_hash(rows: Seq<TransactionRow>, hash: BlockHash) -> Seq<
    TransactionRow,
>
    decreases rows.len(),
{
    if rows.len() == 0 {
        rows
    } else if rows.last().block_hash == hash {
        without_block_hash(rows.drop_last(), hash)
    } else {
        without_block_hash(rows.drop_last(), hash).push(rows.last())
    }
}

/// No transaction of what is left belongs to the block with the given hash.
pub proof fn lemma_without_block_hash(rows: Seq<TransactionRow>, hash: BlockHash)
    ensures
        forall|i: int|
            0 <= i < without_block_hash(rows, hash).len() ==> (#[trigger] without_block_hash(
                rows,
                hash,
            )[i]).block_hash != hash,
    decreases rows.len(),
{
    if rows.len() > 0 {
        lemma_without_block_hash(rows.drop_last(), hash);
        let kept = without_block_hash(rows.drop_last(), hash);
        let all = without_block_hash(rows, hash);
        assert forall|i: int| 0 <= i < all.len() implies (#[trigger] all[i]).block_hash != hash by {
            if i < kept.len() {
                assert(all[i] == kept[i]);
            }
        }
    }
}

/// Takes the transactions of the block with the given hash out of a table.
pub fn remove_block_hash(rows: &mut Vec<TransactionRow>, hash: BlockHash)
    ensures
        final(rows)@ == without_block_hash(old(rows)@, hash),
{
    let mut kept: Vec<TransactionRow> = Vec::new();
    let mut i: usize = 0;
    proof {
        assert(rows@.subrange(0, 0) =~= Seq::<TransactionRow>::empty());
    }
    while i < rows.len()
        invariant
            i <= rows@.len(),
            rows@ == old(rows)@,
            kept@ == without_block_hash(rows@.subrange(0, i as int), hash),
        decreases rows@.len() - i,
    {
        let row = rows[i];
        proof {
            let next = rows@.subrange(0, i + 1);
            assert(next.drop_last() =~= rows@.subrange(0, i as int));
            assert(next.last() == row);
        }
        if !(row.block_hash == hash) {
            kept.push(row);
        }
        i = i + 1;
    }
    proof {
        assert(rows@.subrange(0, i as int) =~= rows@);
    }
    *rows = kept;
}

/// The classes, those that block `n` declared without their block.
pub open spec fn unlinked_from(rows: Seq<ClassDefinitionRow>, n: nat) -> Seq<ClassDefinitionRow> {
    Seq::new(
        rows.len(),
        |i: int|
            if rows[i].block_number matches Some(b) && b@ == n {
                ClassDefinitionRow { class_hash: rows[i].class_hash, block_number: None }
            } else {
                rows[i]
            },
    )
}

/// Takes the link to block `n` off the classes that it declared.
pub fn unlink_block(rows: &mut Vec<ClassDefinitionRow>, n: BlockNumber)
    ensures
        final(rows)@ == unlinked_from(old(rows)@, n@),
{
    let mut out: Vec<ClassDefinitionRow> = Vec::new();
    let mut i: usize = 0;
    while i < rows.len()
        invariant
            i <= rows@.len(),
            rows@ == old(rows)@,
            out@ == unlinked_from(rows@, n@).subrange(0, i as int),
        decreases rows@.len() - i,
    {
        let row = rows[i];
        let declared_here = match row.block_number {
            Some(b) => b.get() == n.get(),
            None => false,
        };
        let kept = if declared_here {
            ClassDefinitionRow { class_hash: row.class_hash, block_number: None }
        } else {
            row
        };
        out.push(kept);
        proof {
            assert(out@ =~= unlinked_from(rows@, n@).subrange(0, i + 1));
        }
        i = i + 1;
    }
    proof {
        assert(out@ =~= unlinked_from(rows@, n@));
    }
    *rows = out;
}

/// The signature of the last of some rows that is for block `n`.
pub open spec fn last_signature(rows: Seq<SignatureRow>, n: nat) -> Option<
    BlockCommitmentSignature,
>
    decreases rows.len(),
{
    if rows.len() == 0 {
        None
    } else if rows.last().block_number@ == n {
        Some(rows.last().signature)
    } else {
        last_signature(rows.drop_last(), n)
    }
}

/// The hash of the block that the first of some transactions with the
/// given hash belongs to.
pub open spec fn block_of_transaction(rows: Seq<TransactionRow>, hash: TransactionHash) -> Option<
    BlockHash,
>
    decreases rows.len(),
{
    if rows.len() == 0 {
        None
    } else if rows[0].hash == hash {
        Some(rows[0].block_hash)
    } else {
        block_of_transaction(rows.drop_first(), hash)
    }
}

/// The block of a transaction is the block of a stored row of the
/// transaction, and there is none exactly where no row is of it.
pub proof fn lemma_block_of_transaction(rows: Seq<TransactionRow>, hash: TransactionHash)
    ensures
        block_of_transaction(rows, hash) matches Some(b) ==> exists|i: int|
            0 <= i < rows.len() && (#[trigger] rows[i]).hash == hash && rows[i].block_hash == b,
        block_of_transaction(rows, hash) is None ==> forall|i: int|
            0 <= i < rows.len() ==> (#[trigger] rows[i]).hash != hash,
    decreases rows.len(),
{
    if rows.len() > 0 && rows[0].hash != hash {
        let rest = rows.drop_first();
        lemma_block_of_transaction(rest, hash);
        if let Some(b) = block_of_transaction(rows, hash) {
            let i = choose|i: int|
                0 <= i < rest.len() && (#[trigger] rest[i]).hash == hash && rest[i].block_hash
                    == b;
            assert(rows[i + 1] == rest[i]);
        } else {
            assert forall|i: int| 0 <= i < rows.len() implies (#[trigger] rows[i]).hash
                != hash by {
                if i > 0 {
                    assert(rows[i] == rest[i - 1]);
                }
            }
        }
    }
}

/// The hashes of the transactions of the block with the given hash, in
/// their order.
pub open spec fn hashes_of_block(rows: Seq<TransactionRow>, block_hash: BlockHash) -> Seq<
    TransactionHash,
>
    decreases rows.len(),
{
    if rows.len() == 0 {
        Seq::empty()
    } else if rows.last().block_hash == block_hash {
        hashes_of_block(rows.drop_last(), block_hash).push(rows.last().hash)
    } else {
        hashes_of_block(rows.drop_last(), block_hash)
    }
}

/// The hashes of a block's transactions hold the hash of every row of the
/// block.
pub proof fn lemma_hashes_of_block(rows: Seq<TransactionRow>, block_hash: BlockHash, i: int)
    requires
        0 <= i < rows.len(),
        rows[i].block_hash == block_hash,
    ensures
        hashes_of_block(rows, block_hash).contains(rows[i].hash),
    decreases rows.len(),
{
    let front = rows.drop_last();
    let all = hashes_of_block(rows, block_hash);
    if i == rows.len() - 1 {
        assert(all[all.len() - 1] == rows[i].hash);
    } else {
        lemma_hashes_of_block(front, block_hash, i);
        let kept = hashes_of_block(front, block_hash);
        let j = choose|j: int| 0 <= j < kept.len() && kept[j] == front[i].hash;
        assert(all[j] == rows[i].hash);
    }
}

/// The row of the highest block up to `n`, the last of them where
/// several rows are of that block: the root of a trie at block `n` is the
/// root that the last block up to `n` that changed the trie gave it.
pub open spec fn latest_root(rows: Seq<RootRow>, n: nat) -> Option<RootRow>
    decreases rows.len(),
{
    if rows.len() == 0 {
        None
    } else {
        let rest = latest_root(rows.drop_last(), n);
        let row = rows.last();
        if row.block_number@ <= n && (rest matches Some(best) ==> best.block_number@
            <= row.block_number@) {
            Some(row)
        } else {
            rest
        }
    }
}

/// The root that the last block up to a block gave.
pub fn find_root(rows: &Vec<RootRow>, block: BlockNumber) -> (r: Option<u64>)
    ensures
        r == (match latest_root(rows@, block@) {
            Some(row) => row.root_index,
            None => None,
        }),
{
    let mut best: Option<RootRow> = None;
    let mut i: usize = 0;
    proof {
        assert(rows@.subrange(0, 0) =~= Seq::<RootRow>::empty());
    }
    while i < rows.len()
        invariant
            i <= rows@.len(),
            best == latest_root(rows@.subrange(0, i as int), block@),
        decreases rows@.len() - i,
    {
        let row = rows[i];
        proof {
            let next = rows@.subrange(0, i + 1);
            assert(next.last() == row);
            assert(next.drop_last() =~= rows@.subrange(0, i as int));
        }
        let later = match best {
            Some(b) => b.block_number.get() <= row.block_number.get(),
            None => true,
        };
        if row.block_number.get() <= block.get() && later {
            best = Some(row);
        }
        i = i + 1;
    }
    proof {
        assert(rows@.subrange(0, i as int) =~= rows@);
    }
    match best {
        Some(row) => row.root_index,
        None => None,
    }
}

/// The row of a contract of the highest block up to `n`, the last of them
/// where several rows are of that block.
pub open spec fn contract_root_at(rows: Seq<ContractRootRow>, n: nat, contract: ContractAddress) -> Option<
    ContractRootRow,
>
    decreases rows.len(),
{
    if rows.len() == 0 {
        None
    } else {
        let rest = contract_root_at(rows.drop_last(), n, contract);
        let row = rows.last();
        if row.contract == contract && row.block_number@ <= n && (rest matches Some(best)
            ==> best.block_number@ <= row.block_number@) {
            Some(row)
        } else {
            rest
        }
    }
}

} // verus!
