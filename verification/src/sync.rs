//! What the node does with the headers that peers send: find the next
//! range that is missing, check each header and its place in the chain, and
//! store a batch.

use crate::common::{BlockHash, BlockId, BlockNumber, I64_MAX};
use crate::header::{BlockHeader, SignedBlockHeader};
use crate::storage::{batch_outcome, header_with_parent, Storage, StorageError, StorageView};
use vstd::prelude::*;

verus! {

/// The identity of a peer, as the bytes that the network knows it by.
#[derive(Clone, Debug, PartialEq, Eq, Hash)]
pub struct PeerId(pub Vec<u8>);

/// Something that a peer sent, with the peer.
#[derive(Clone, Debug, PartialEq, Eq)]
pub struct PeerData<T> {
    pub peer: PeerId,
    pub data: T,
}

/// A signed header from a peer, or what was found wrong.
pub type SignedHeaderResult = Result<PeerData<SignedBlockHeader>, HeaderSyncError>;

/// A range of headers that the store lacks.
///
/// The range is from `tail` up to `head`. Where the block from which the
/// search began is stored, `head` is the lowest stored block of the run that
/// reaches it, and the missing blocks are those from `tail` to just below
/// it; else `head` is that block and is missing too.
#[derive(Clone, Copy, Debug, PartialEq, Eq)]
pub struct HeaderGap {
    /// The highest block of the range.
    pub head: BlockNumber,
    /// The hash of the block at `head`, to check what is received against.
    pub head_hash: BlockHash,
    /// The lowest block of the range.
    pub tail: BlockNumber,
    /// The hash of the block below `tail`, which links what is received to
    /// what is stored; zero where `tail` is the first block.
    pub tail_parent_hash: BlockHash,
}

/// Whether every block from the first up to `n` is stored.
pub open spec fn complete_up_to(view: StorageView, n: nat) -> bool {
    forall|k: nat| k <= n ==> #[trigger] view.headers.contains_key(k)
}

/// Whether `gap` is the gap that a search from `anchor` finds.
pub open spec fn is_gap_from(
    view: StorageView,
    anchor: BlockNumber,
    anchor_hash: BlockHash,
    gap: HeaderGap,
) -> bool {
    &&& if view.headers.contains_key(anchor@) {
        &&& view.is_next_ancestor_without_parent(gap.head@, anchor@)
        &&& gap.head@ > 0
        &&& gap.head_hash == view.headers[gap.head@].hash
    } else {
        &&& gap.head == anchor
        &&& gap.head_hash == anchor_hash
    }
    &&& if gap.tail@ == 0 {
        &&& forall|k: nat| #[trigger] view.headers.contains_key(k) ==> k >= gap.head@
        &&& gap.tail_parent_hash.0@ == 0
    } else {
        &&& view.is_next_ancestor((gap.tail@ - 1) as nat, gap.head@)
        &&& gap.tail_parent_hash == view.headers[(gap.tail@ - 1) as nat].hash
    }
}

/// The next range of headers that the store lacks, searching from the
/// block `head` downwards.
///
/// There is none exactly when every block from the first up to `head` is
/// stored.
pub fn next_gap(storage: &Storage, head: BlockNumber, head_hash: BlockHash) -> (r: Option<
    HeaderGap,
>)
    requires
        storage.wf(),
    ensures
        r is None <==> complete_up_to(storage@, head@),
        r matches Some(gap) ==> is_gap_from(storage@, head, head_hash, gap),
{
    // The block to search from may itself be the head of the gap: it is when
    // it is an anchor from the first layer that has not been synced yet.
    let head_exists = storage.block_exists(BlockId::Number(head));
    let gap_head = if head_exists {
        // The lowest block of the run of stored blocks that reaches `head`.
        match storage.next_ancestor_without_parent(head) {
            Some(found) => {
                if found.0.get() == 0 {
                    // The run reaches the first block: nothing is missing.
                    proof {
                        lemma_run_is_complete(storage@, head@);
                    }
                    return None;
                }
                found
            },
            None => {
                proof {
                    lemma_lowest_lacks_parent(storage@, head@);
                }
                return None;
            },
        }
    } else {
        (head, head_hash)
    };
    proof {
        if head_exists {
            assert(storage@.lacks_parent(gap_head.0@));
            assert(!storage@.headers.contains_key((gap_head.0@ - 1) as nat));
        }
    }
    match storage.next_ancestor(gap_head.0) {
        Some((below, hash)) => {
            // Reading the head's number tells the verifier its range.
            let _limit: u64 = gap_head.0.get();
            let tail = BlockNumber::new_or_panic(below.get() + 1);
            Some(HeaderGap { head: gap_head.0, head_hash: gap_head.1, tail, tail_parent_hash: hash })
        },
        None => Some(
            HeaderGap {
                head: gap_head.0,
                head_hash: gap_head.1,
                tail: BlockNumber::genesis(),
                tail_parent_hash: BlockHash::zero(),
            },
        ),
    }
}

/// Below every stored block there is a stored block without a stored
/// parent.
proof fn lemma_lowest_lacks_parent(view: StorageView, n: nat)
    requires
        view.headers.contains_key(n),
    ensures
        exists|k: nat| #[trigger] view.lacks_parent(k) && k <= n,
    decreases n,
{
    if n == 0 || !view.headers.contains_key((n - 1) as nat) {
        assert(view.lacks_parent(n));
    } else {
        lemma_lowest_lacks_parent(view, (n - 1) as nat);
    }
}

/// Where the first block is the highest block up to `n` without a stored
/// parent and `n` is stored, every block up to `n` is stored.
proof fn lemma_run_is_complete(view: StorageView, n: nat)
    requires
        view.headers.contains_key(n),
        view.is_next_ancestor_without_parent(0, n),
    ensures
        complete_up_to(view, n),
{
    assert forall|k: nat| k <= n implies #[trigger] view.headers.contains_key(k) by {
        lemma_stored_down_from(view, n, k);
    }
}

proof fn lemma_stored_down_from(view: StorageView, n: nat, k: nat)
    requires
        view.headers.contains_key(n),
        view.is_next_ancestor_without_parent(0, n),
        k <= n,
    ensures
        view.headers.contains_key(k),
    decreases n - k,
{
    if k < n {
        lemma_stored_down_from(view, n, k + 1);
        if !view.headers.contains_key(k) {
            assert(view.lacks_parent(k + 1));
        }
    }
}

/// Where the search finds no gap, every block from the first up to the
/// anchor is stored, and each of them above the first is read with the hash
/// of the block below it as its parent's. Where it finds one, no block from
/// the tail to just below the head is stored, the head itself is stored only
/// where the anchor is, the tail is not above the head, and the block below
/// the tail is stored unless the tail is the first block.
pub proof fn lemma_gap_completeness(
    view: StorageView,
    anchor: BlockNumber,
    anchor_hash: BlockHash,
    found: Option<HeaderGap>,
)
    requires
        found is None <==> complete_up_to(view, anchor@),
        found matches Some(gap) ==> is_gap_from(view, anchor, anchor_hash, gap),
    ensures
        found is None ==> forall|k: nat|
            0 < k <= anchor@ ==> #[trigger] view.headers.contains_key(k) && (header_with_parent(
                view,
                k,
            ) matches Some(h) && h.parent_hash == view.headers[(k - 1) as nat].hash),
        found matches Some(gap) ==> {
            &&& gap.tail@ <= gap.head@
            &&& forall|k: nat| gap.tail@ <= k < gap.head@ ==> !#[trigger] view.headers.contains_key(k)
            &&& view.headers.contains_key(gap.head@) <==> view.headers.contains_key(anchor@)
            &&& gap.tail@ == 0 || view.headers.contains_key((gap.tail@ - 1) as nat)
        },
{
    match found {
        None => {
            assert forall|k: nat| 0 < k <= anchor@ implies #[trigger] view.headers.contains_key(k)
                && (header_with_parent(view, k) matches Some(h) && h.parent_hash
                == view.headers[(k - 1) as nat].hash) by {
                assert(view.headers.contains_key((k - 1) as nat));
            }
        },
        Some(gap) => {
            if view.headers.contains_key(anchor@) {
                assert(view.lacks_parent(gap.head@));
            } else {
                anchor.lemma_view_injective(gap.head);
            }
        },
    }
}

/// What was found wrong with a header from a peer.
#[derive(Clone, Debug, PartialEq, Eq)]
pub enum HeaderSyncError {
    /// The store refused the header.
    DatabaseError(StorageError),
    /// The signature is not right for the header.
    BadSignature(PeerData<SignedBlockHeader>),
    /// The hash is not the one that the header's fields give.
    BadBlockHash(PeerData<SignedBlockHeader>),
    /// The header does not follow the one before it.
    Discontinuity(PeerData<SignedBlockHeader>),
}

impl HeaderSyncError {
    /// The peer and the header that the error is about, where it is about
    /// one.
    pub fn peer_id_and_data(&self) -> (r: Option<&PeerData<SignedBlockHeader>>)
        ensures
            r == (match *self {
                HeaderSyncError::DatabaseError(_) => None::<&PeerData<SignedBlockHeader>>,
                HeaderSyncError::BadSignature(x) => Some(&x),
                HeaderSyncError::BadBlockHash(x) => Some(&x),
                HeaderSyncError::Discontinuity(x) => Some(&x),
            }),
    {
        match self {
            HeaderSyncError::DatabaseError(_) => None,
            HeaderSyncError::BadSignature(x) => Some(x),
            HeaderSyncError::BadBlockHash(x) => Some(x),
            HeaderSyncError::Discontinuity(x) => Some(x),
        }
    }

    /// The message of the error.
    pub fn message(&self) -> (r: &'static str)
        ensures
            r@ == (match *self {
                HeaderSyncError::DatabaseError(_) => "Storage refused the header"@,
                HeaderSyncError::BadSignature(_) => "Signature verification failed"@,
                HeaderSyncError::BadBlockHash(_) => "Block hash verification failed"@,
                HeaderSyncError::Discontinuity(_) => "Discontinuity in header chain"@,
            }),
    {
        match self {
            HeaderSyncError::DatabaseError(_) => "Storage refused the header",
            HeaderSyncError::BadSignature(_) => "Signature verification failed",
            HeaderSyncError::BadBlockHash(_) => "Block hash verification failed",
            HeaderSyncError::Discontinuity(_) => "Discontinuity in header chain",
        }
    }
}

/// Whether a header is the one that a stream expects next: it has the
/// expected number, and its parent has the expected hash.
pub open spec fn continues(expected: (BlockNumber, BlockHash, bool), header: BlockHeader) -> bool {
    header.number == expected.0 && header.parent_hash == expected.1
}

/// Whether the check of a header takes the expectation `before` to the
/// expectation `after`: a poisoned one stays as it is; the expected header
/// moves it to the block after, and poisons it where there is no block
/// after; any other header poisons it.
pub open spec fn stepped(
    before: (BlockNumber, BlockHash, bool),
    header: BlockHeader,
    after: (BlockNumber, BlockHash, bool),
) -> bool {
    if before.2 {
        after == before
    } else if continues(before, header) {
        &&& after.1 == header.hash
        &&& after.2 == (header.number@ == I64_MAX)
        &&& after.0@ == if header.number@ == I64_MAX {
            header.number@
        } else {
            header.number@ + 1
        }
    } else {
        &&& after.0 == before.0
        &&& after.1 == before.1
        &&& after.2
    }
}

/// Checks that a header from a stream follows the one before it.
///
/// `expected` holds the number that the next header must have, the hash
/// that its parent must have, and whether the stream is poisoned. A
/// poisoned stream yields nothing. Else a header that is the expected one is
/// handed on, and the expectation moves to the block after it; any other is
/// a discontinuity, which poisons the stream. The stream is poisoned too
/// after the header with the highest number there is, as none can follow it.
pub fn check_continuity(
    expected: &mut (BlockNumber, BlockHash, bool),
    input: PeerData<SignedBlockHeader>,
) -> (r: Option<SignedHeaderResult>)
    ensures
        stepped(*old(expected), input.data.header, *final(expected)),
        old(expected).2 ==> r is None && *final(expected) == *old(expected),
        !old(expected).2 && continues(*old(expected), input.data.header) ==> {
            &&& r == Some(Ok::<PeerData<SignedBlockHeader>, HeaderSyncError>(input))
            &&& final(expected).1 == input.data.header.hash
            &&& final(expected).2 == (input.data.header.number@ == I64_MAX)
            &&& final(expected).0@ == if input.data.header.number@ == I64_MAX {
                input.data.header.number@
            } else {
                input.data.header.number@ + 1
            }
        },
        !old(expected).2 && !continues(*old(expected), input.data.header) ==> {
            &&& r == Some(
                Err::<PeerData<SignedBlockHeader>, HeaderSyncError>(
                    HeaderSyncError::Discontinuity(input),
                ),
            )
            &&& final(expected).0 == old(expected).0
            &&& final(expected).1 == old(expected).1
            &&& final(expected).2
        },
{
    if expected.2 {
        return None;
    }
    let number = input.data.header.number;
    let hash = input.data.header.hash;
    let is_correct = number == expected.0 && input.data.header.parent_hash == expected.1;

    if is_correct {
        // Move the expectation to the block after this one.
        // Reading the number tells the verifier its range.
        let _height: u64 = number.get();
        match number.checked_add(1) {
            Some(next) => {
                *expected = (next, hash, false);
            },
            None => {
                *expected = (number, hash, true);
            },
        }
        Some(Ok(input))
    } else {
        *expected = (expected.0, expected.1, true);
        Some(Err(HeaderSyncError::Discontinuity(input)))
    }
}

/// Whether `states` are the expectations that the check goes through on a
/// stream of headers: the one before the first header, and the one after
/// each.
pub open spec fn checked_through(
    states: Seq<(BlockNumber, BlockHash, bool)>,
    headers: Seq<BlockHeader>,
) -> bool {
    &&& states.len() == headers.len() + 1
    &&& forall|i: int|
        0 <= i < headers.len() ==> stepped(states[i], #[trigger] headers[i], states[i + 1])
}

/// A stream that has gone through the continuity check without poisoning
/// it is a chain: its first header is the one that was expected at first,
/// and every other header has the number after that of the header before
/// it, and the hash of that header as its parent's.
pub proof fn lemma_chain_continuity(
    states: Seq<(BlockNumber, BlockHash, bool)>,
    headers: Seq<BlockHeader>,
)
    requires
        checked_through(states, headers),
        !states.last().2,
    ensures
        forall|i: int| 0 <= i < states.len() ==> !(#[trigger] states[i]).2,
        headers.len() > 0 ==> continues(states[0], headers[0]),
        forall|i: int|
            0 < i < headers.len() ==> (#[trigger] headers[i]).parent_hash == headers[i - 1].hash
                && headers[i].number@ == headers[i - 1].number@ + 1,
{
    let n = headers.len() as int;
    assert forall|i: int| 0 <= i < states.len() implies !(#[trigger] states[i]).2 by {
        if states[i].2 {
            lemma_poison_stays(states, headers, i, n);
        }
    }
    if n > 0 {
        assert(stepped(states[0], headers[0], states[1]));
    }
    assert forall|i: int| 0 < i < headers.len() implies (#[trigger] headers[i]).parent_hash
        == headers[i - 1].hash && headers[i].number@ == headers[i - 1].number@ + 1 by {
        assert(stepped(states[i - 1], headers[i - 1], states[i]));
        assert(stepped(states[i], headers[i], states[i + 1]));
        assert(!states[i - 1].2 && !states[i].2 && !states[i + 1].2);
    }
}

/// Once poisoned, the expectation stays poisoned.
proof fn lemma_poison_stays(
    states: Seq<(BlockNumber, BlockHash, bool)>,
    headers: Seq<BlockHeader>,
    i: int,
    j: int,
)
    requires
        checked_through(states, headers),
        0 <= i <= j < states.len(),
        states[i].2,
    ensures
        states[j].2,
    decreases j - i,
{
    if i < j {
        assert(stepped(states[i], headers[i], states[i + 1]));
        lemma_poison_stays(states, headers, i + 1, j);
    }
}

/// Checks the signature and the hash of a header from a peer: the
/// signature first.
pub fn verify(signed_header: PeerData<SignedBlockHeader>) -> (r: SignedHeaderResult)
    ensures
        r == (if !signed_header.data.signature_holds() {
            Err::<PeerData<SignedBlockHeader>, HeaderSyncError>(
                HeaderSyncError::BadSignature(signed_header),
            )
        } else if !signed_header.data.header.hash_holds() {
            Err(HeaderSyncError::BadBlockHash(signed_header))
        } else {
            Ok(signed_header)
        }),
{
    if !signed_header.data.verify_signature() {
        return Err(HeaderSyncError::BadSignature(signed_header));
    }
    if !signed_header.data.header.verify_hash() {
        return Err(HeaderSyncError::BadBlockHash(signed_header));
    }
    Ok(signed_header)
}

/// The signed headers that a batch from peers holds.
pub open spec fn headers_of_batch(batch: Seq<PeerData<SignedBlockHeader>>) -> Seq<
    SignedBlockHeader,
> {
    batch.map_values(|p: PeerData<SignedBlockHeader>| p.data)
}

/// Whether the header at `at` has the highest number of a batch, and is
/// the first with it.
pub open spec fn is_highest(batch: Seq<PeerData<SignedBlockHeader>>, at: int) -> bool {
    &&& 0 <= at < batch.len()
    &&& forall|j: int|
        0 <= j < batch.len() ==> (#[trigger] batch[j]).data.header.number@
            <= batch[at].data.header.number@
    &&& forall|j: int|
        0 <= j < at ==> (#[trigger] batch[j]).data.header.number@ < batch[at].data.header.number@
}

/// Stores the headers and signatures of a batch, all or none, and hands
/// back the header with the highest number among them.
///
/// The batch must hold a header.
pub fn persist(signed_headers: Vec<PeerData<SignedBlockHeader>>, storage: &mut Storage) -> (r:
    SignedHeaderResult)
    requires
        signed_headers@.len() > 0,
        old(storage).wf(),
    ensures
        final(storage).wf(),
        match batch_outcome(old(storage)@, headers_of_batch(signed_headers@)) {
            Ok(view) => final(storage)@ == view && (exists|at: int|
                is_highest(signed_headers@, at) && r == Ok::<
                    PeerData<SignedBlockHeader>,
                    HeaderSyncError,
                >(signed_headers@[at])),
            Err(e) => final(storage)@ == old(storage)@ && r == Err::<
                PeerData<SignedBlockHeader>,
                HeaderSyncError,
            >(HeaderSyncError::DatabaseError(e)),
        },
{
    let mut signed_headers = signed_headers;
    let ghost batch = signed_headers@;
    let mut rows: Vec<SignedBlockHeader> = Vec::new();
    let mut highest: usize = 0;
    let mut i: usize = 0;
    while i < signed_headers.len()
        invariant
            i <= signed_headers@.len(),
            signed_headers@ == batch,
            batch.len() > 0,
            rows@ == headers_of_batch(batch).subrange(0, i as int),
            i == 0 ==> highest == 0,
            i > 0 ==> highest < i,
            forall|j: int|
                0 <= j < i ==> (#[trigger] batch[j]).data.header.number@
                    <= batch[highest as int].data.header.number@,
            forall|j: int|
                0 <= j < highest ==> (#[trigger] batch[j]).data.header.number@
                    < batch[highest as int].data.header.number@,
        decreases signed_headers@.len() - i,
    {
        let data = signed_headers[i].data;
        rows.push(data);
        if data.header.number.get() > signed_headers[highest].data.header.number.get() {
            highest = i;
        }
        proof {
            assert(rows@ =~= headers_of_batch(batch).subrange(0, i + 1));
        }
        i = i + 1;
    }
    proof {
        assert(rows@ =~= headers_of_batch(batch));
    }
    match storage.insert_signed_headers(rows.as_slice()) {
        Ok(()) => {
            proof {
                assert(is_highest(batch, highest as int));
            }
            Ok(signed_headers.swap_remove(highest))
        },
        Err(e) => Err(HeaderSyncError::DatabaseError(e)),
    }
}

} // verus!
