//! How the node answers a peer that asks for a run of blocks.
//!
//! A request names a start, a direction, a step and a limit. The node
//! serves the blocks it has, one after another, each followed by the
//! trailer `ok`, until the limit or its own cap is reached or a block is
//! not there. A stream that stops at a block that is not there ends with
//! the trailer `unknown`; one that stops at the cap though more was asked
//! for ends with `too_much`; a request for nothing is answered with `ok`.

use crate::common::{BlockCommitmentSignature, BlockHash, BlockId, BlockNumber, I64_MAX};
use crate::header::BlockHeader;
use crate::p2p_proto::{
    BlockNumberOrHash, Direction, Fin, FinError, Iteration, Step, Transactions,
    TransactionsResponse, TransactionsResponseKind,
};
use crate::storage::{header_with_parent, Storage, StorageError, StorageView};
use crate::tables::last_signature;
use vstd::prelude::*;

verus! {

/// The number of blocks that the node serves at most in one stream.
pub const MAX_BLOCKS_COUNT: u64 = 100;

/// The number of the block that follows `current` in a request, if there
/// is such a number.
pub open spec fn next_number(current: nat, step: nat, direction: Direction) -> Option<nat> {
    match direction {
        Direction::Forward => if current + step <= I64_MAX {
            Some(current + step)
        } else {
            None
        },
        Direction::Backward => if step <= current {
            Some((current - step) as nat)
        } else {
            None
        },
    }
}

/// The number of the block that follows `current` in a request, if there
/// is such a number.
pub fn get_next_block_number(current: BlockNumber, step: Step, direction: Direction) -> (r: Option<
    BlockNumber,
>)
    ensures
        (match r {
            Some(n) => Some(n@),
            None => None,
        }) == next_number(current@, step@, direction),
{
    match direction {
        Direction::Forward => current.checked_add(step.into_inner()),
        Direction::Backward => current.checked_sub(step.into_inner()),
    }
}

/// The numbers of the blocks that a stream serves, beginning at `current`
/// and wanting `count` blocks: those that are stored, up to the first that
/// is not there.
pub open spec fn served(
    view: StorageView,
    current: nat,
    step: nat,
    direction: Direction,
    count: nat,
) -> Seq<nat>
    decreases count,
{
    if count == 0 || !view.headers.contains_key(current) {
        Seq::empty()
    } else {
        seq![current] + (if count == 1 {
            Seq::empty()
        } else {
            match next_number(current, step, direction) {
                Some(next) => served(view, next, step, direction, (count - 1) as nat),
                None => Seq::empty(),
            }
        })
    }
}

/// The number at which a request begins, if it names a block number in
/// range or the hash of a stored block.
pub open spec fn start_number(view: StorageView, start: BlockNumberOrHash) -> Option<nat> {
    match start {
        BlockNumberOrHash::Number(n) => if n <= I64_MAX {
            Some(n as nat)
        } else {
            None
        },
        BlockNumberOrHash::Hash(h) => if view.has_hash(BlockHash(h.0)) {
            Some(choose|n: nat| view.names(BlockId::Hash(BlockHash(h.0)), n))
        } else {
            None
        },
    }
}

/// The number of blocks that a stream serves at most: the limit of the
/// request, capped.
pub open spec fn wanted(limit: u64, cap: u64) -> nat {
    if limit < cap {
        limit as nat
    } else {
        cap as nat
    }
}

/// The numbers of the blocks that the answer to a request holds.
pub open spec fn planned_blocks(view: StorageView, iteration: Iteration, cap: u64) -> Seq<nat> {
    match start_number(view, iteration.start) {
        Some(start) => served(
            view,
            start,
            iteration.step@,
            iteration.direction,
            wanted(iteration.limit, cap),
        ),
        None => Seq::empty(),
    }
}

/// The trailer that ends the answer to a request, if one does: `ok` for a
/// request for nothing, `unknown` where the start is no block or fewer
/// blocks are served than are wanted, `too_much` where the cap alone kept
/// the stream short.
pub open spec fn planned_trailer(view: StorageView, iteration: Iteration, cap: u64) -> Option<Fin> {
    if iteration.limit == 0 {
        Some(Fin { error: None })
    } else if start_number(view, iteration.start) is None || planned_blocks(
        view,
        iteration,
        cap,
    ).len() < wanted(iteration.limit, cap) {
        Some(Fin { error: Some(FinError::Unknown) })
    } else if iteration.limit > cap {
        Some(Fin { error: Some(FinError::TooMuch) })
    } else {
        None
    }
}

/// The blocks that a stream serves and the trailer that ends it.
#[derive(Clone, Debug, PartialEq, Eq)]
pub struct StreamPlan {
    /// The blocks to serve, in their order.
    pub blocks: Vec<(BlockNumber, BlockHash)>,
    /// The trailer after the last block, if there is one.
    pub trailer: Option<Fin>,
}

/// The numbers of a string of blocks.
pub open spec fn numbers_of(blocks: Seq<(BlockNumber, BlockHash)>) -> Seq<nat> {
    blocks.map_values(|b: (BlockNumber, BlockHash)| b.0@)
}

/// A stream never serves more blocks than are wanted.
pub proof fn lemma_served_length(
    view: StorageView,
    current: nat,
    step: nat,
    direction: Direction,
    count: nat,
)
    ensures
        served(view, current, step, direction, count).len() <= count,
        forall|i: int|
            0 <= i < served(view, current, step, direction, count).len()
                ==> view.headers.contains_key(
                #[trigger] served(view, current, step, direction, count)[i],
            ),
    decreases count,
{
    if count > 1 && view.headers.contains_key(current) {
        if let Some(next) = next_number(current, step, direction) {
            lemma_served_length(view, next, step, direction, (count - 1) as nat);
        }
    }
}

/// Plans the answer to a request: the blocks to serve, which are stored,
/// and the trailer. `cap` is the number of blocks served at most.
pub fn plan_stream(storage: &Storage, iteration: Iteration, cap: u64) -> (r: StreamPlan)
    requires
        storage.wf(),
    ensures
        numbers_of(r.blocks@) == planned_blocks(storage@, iteration, cap),
        r.trailer == planned_trailer(storage@, iteration, cap),
        forall|i: int|
            0 <= i < r.blocks@.len() ==> storage@.headers.contains_key(
                (#[trigger] r.blocks@[i]).0@,
            ) && storage@.headers[r.blocks@[i].0@].hash == r.blocks@[i].1,
{
    let mut blocks: Vec<(BlockNumber, BlockHash)> = Vec::new();
    if iteration.limit == 0 {
        proof {
            assert(numbers_of(blocks@) =~= Seq::<nat>::empty());
            assert(planned_blocks(storage@, iteration, cap) =~= Seq::<nat>::empty());
        }
        return StreamPlan { blocks, trailer: Some(Fin::ok()) };
    }
    let start = match iteration.start {
        BlockNumberOrHash::Number(n) => BlockNumber::new(n),
        BlockNumberOrHash::Hash(h) => {
            proof {
                storage.lemma_names_one(BlockId::Hash(BlockHash(h.0)));
            }
            match storage.block_id(BlockId::Hash(BlockHash(h.0))) {
                Some((number, _)) => Some(number),
                None => None,
            }
        },
    };
    let count: u64 = if iteration.limit < cap {
        iteration.limit
    } else {
        cap
    };
    let Some(start) = start else {
        proof {
            assert(numbers_of(blocks@) =~= Seq::<nat>::empty());
        }
        return StreamPlan { blocks, trailer: Some(Fin::unknown()) };
    };
    let ghost all = served(
        storage@,
        start@,
        iteration.step@,
        iteration.direction,
        count as nat,
    );
    let mut current = start;
    let mut left: u64 = count;
    let mut short = false;
    proof {
        assert(numbers_of(blocks@) =~= Seq::<nat>::empty());
    }
    while left > 0 && !short
        invariant
            storage.wf(),
            left <= count,
            all == served(storage@, start@, iteration.step@, iteration.direction, count as nat),
            !short ==> all == numbers_of(blocks@) + served(
                storage@,
                current@,
                iteration.step@,
                iteration.direction,
                left as nat,
            ),
            !short ==> blocks@.len() == count - left,
            short ==> all == numbers_of(blocks@) && blocks@.len() < count,
            forall|i: int|
                0 <= i < blocks@.len() ==> storage@.headers.contains_key(
                    (#[trigger] blocks@[i]).0@,
                ) && storage@.headers[blocks@[i].0@].hash == blocks@[i].1,
        decreases left + (if short {
            0nat
        } else {
            1nat
        }),
    {
        let ghost before = numbers_of(blocks@);
        match storage.block_id(BlockId::Number(current)) {
            None => {
                short = true;
                proof {
                    assert(before + Seq::<nat>::empty() =~= before);
                }
            },
            Some((number, hash)) => {
                proof {
                    number.lemma_view_injective(current);
                }
                blocks.push((number, hash));
                proof {
                    assert(numbers_of(blocks@) =~= before + seq![current@]);
                }
                left = left - 1;
                if left > 0 {
                    match get_next_block_number(current, iteration.step, iteration.direction) {
                        Some(next) => {
                            proof {
                                let rest = served(
                                    storage@,
                                    next@,
                                    iteration.step@,
                                    iteration.direction,
                                    left as nat,
                                );
                                assert(before + (seq![current@] + rest) =~= (before + seq![
                                    current@,
                                ]) + rest);
                            }
                            current = next;
                        },
                        None => {
                            short = true;
                            proof {
                                assert(before + (seq![current@] + Seq::<nat>::empty()) =~= before
                                    + seq![current@]);
                            }
                        },
                    }
                } else {
                    proof {
                        assert(before + (seq![current@] + Seq::<nat>::empty()) =~= before + seq![
                            current@,
                        ]);
                        assert(numbers_of(blocks@) + Seq::<nat>::empty() =~= numbers_of(blocks@));
                    }
                }
            },
        }
    }
    proof {
        if !short {
            assert(numbers_of(blocks@) + Seq::<nat>::empty() =~= numbers_of(blocks@));
        }
    }
    let trailer = if short {
        Some(Fin::unknown())
    } else if iteration.limit > cap {
        Some(Fin::too_much())
    } else {
        None
    };
    StreamPlan { blocks, trailer }
}

/// One part of the answer to a request for headers.
#[derive(Clone, Copy, Debug, PartialEq, Eq)]
pub enum BlockHeadersResponsePart {
    /// The header of a block.
    Header(BlockHeader),
    /// The signature over the commitment of the block, if one is stored.
    Signatures(BlockNumber, Option<BlockCommitmentSignature>),
    /// A trailer: `ok` after each block, and the one that ends the stream.
    Fin(Fin),
}

/// A request for the headers of a run of blocks.
#[derive(Clone, Copy, Debug, PartialEq, Eq)]
pub struct BlockHeadersRequest {
    pub iteration: Iteration,
}

/// The answer to a request for headers.
#[derive(Clone, Debug, PartialEq, Eq)]
pub struct BlockHeadersResponse {
    pub parts: Vec<BlockHeadersResponsePart>,
}

/// The item of a stream at the place `offset` of its block `block`, where
/// every block takes `per` places.
pub open spec fn slot<T>(stream: Seq<T>, per: int, block: int, offset: int) -> T {
    stream[per * block + offset]
}

/// Answers a request for headers. `cap` is the number of blocks served at
/// most.
///
/// For each block that the plan names, in order, the answer holds the
/// header with its parent's hash, the signature if one is stored, and the
/// trailer `ok`; then the trailer of the plan if it has one. There is no
/// answer where a planned block above the first is stored without the
/// block below it, from which its parent's hash is read.
pub fn get_headers(storage: &Storage, request: BlockHeadersRequest, cap: u64) -> (r: Result<
    BlockHeadersResponse,
    StorageError,
>)
    requires
        storage.wf(),
    ensures
        ({
            let numbers = planned_blocks(storage@, request.iteration, cap);
            let trailer = planned_trailer(storage@, request.iteration, cap);
            match r {
                Ok(response) => {
                    &&& response.parts@.len() == 3 * numbers.len() + if trailer is Some {
                        1nat
                    } else {
                        0nat
                    }
                    &&& forall|i: int|
                        0 <= i < numbers.len() ==> {
                            &&& (#[trigger] slot(response.parts@, 3, i, 0)) matches BlockHeadersResponsePart::Header(
                                h,
                            ) && header_with_parent(storage@, numbers[i]) == Some(h)
                            &&& slot(response.parts@, 3, i, 1) matches BlockHeadersResponsePart::Signatures(
                                n,
                                signature,
                            ) && n@ == numbers[i] && signature == last_signature(
                                storage@.signatures,
                                numbers[i],
                            )
                            &&& slot(response.parts@, 3, i, 2) == BlockHeadersResponsePart::Fin(
                                Fin { error: None },
                            )
                        }
                    &&& trailer matches Some(fin) ==> response.parts@[3 * numbers.len() as int]
                        == BlockHeadersResponsePart::Fin(fin)
                },
                Err(e) => e == StorageError::MissingParent && exists|i: int|
                    0 <= i < numbers.len() && header_with_parent(storage@, #[trigger] numbers[i])
                        is None,
            }
        }),
{
    let plan = plan_stream(storage, request.iteration, cap);
    let ghost numbers = planned_blocks(storage@, request.iteration, cap);
    let mut parts: Vec<BlockHeadersResponsePart> = Vec::new();
    let mut i: usize = 0;
    while i < plan.blocks.len()
        invariant
            storage.wf(),
            i <= plan.blocks@.len(),
            numbers == numbers_of(plan.blocks@),
            numbers == planned_blocks(storage@, request.iteration, cap),
            parts@.len() == 3 * i,
            forall|k: int|
                0 <= k < plan.blocks@.len() ==> storage@.headers.contains_key(
                    (#[trigger] plan.blocks@[k]).0@,
                ),
            forall|k: int|
                0 <= k < i ==> {
                    &&& (#[trigger] slot(parts@, 3, k, 0)) matches BlockHeadersResponsePart::Header(
                        h,
                    ) && header_with_parent(storage@, numbers[k]) == Some(h)
                    &&& slot(parts@, 3, k, 1) matches BlockHeadersResponsePart::Signatures(
                        n,
                        signature,
                    ) && n@ == numbers[k] && signature == last_signature(
                        storage@.signatures,
                        numbers[k],
                    )
                    &&& slot(parts@, 3, k, 2) == BlockHeadersResponsePart::Fin(Fin { error: None })
                },
        decreases plan.blocks@.len() - i,
    {
        let number = plan.blocks[i].0;
        proof {
            assert(storage@.headers.contains_key(plan.blocks@[i as int].0@));
            assert(storage@.names(BlockId::Number(number), number@));
            assert(numbers[i as int] == number@);
        }
        let header = match storage.block_header(BlockId::Number(number)) {
            Ok(Some(header)) => header,
            Ok(None) => {
                return Err(StorageError::MissingParent);
            },
            Err(e) => {
                proof {
                    assert(header_with_parent(storage@, numbers[i as int]) is None);
                }
                return Err(e);
            },
        };
        let ghost before = parts@;
        parts.push(BlockHeadersResponsePart::Header(header));
        parts.push(BlockHeadersResponsePart::Signatures(number, storage.signature(number)));
        parts.push(BlockHeadersResponsePart::Fin(Fin::ok()));
        proof {
            assert forall|k: int| 0 <= k < i implies #[trigger] slot(parts@, 3, k, 0) == slot(
                before,
                3,
                k,
                0,
            ) && slot(parts@, 3, k, 1) == slot(before, 3, k, 1) && slot(parts@, 3, k, 2) == slot(
                before,
                3,
                k,
                2,
            ) by {}
        }
        i = i + 1;
    }
    match plan.trailer {
        Some(fin) => {
            let ghost before = parts@;
            parts.push(BlockHeadersResponsePart::Fin(fin));
            proof {
                assert forall|k: int| 0 <= k < numbers.len() implies #[trigger] slot(
                    parts@,
                    3,
                    k,
                    0,
                ) == slot(before, 3, k, 0) && slot(parts@, 3, k, 1) == slot(before, 3, k, 1)
                    && slot(parts@, 3, k, 2) == slot(before, 3, k, 2) by {}
            }
        },
        None => {},
    }
    Ok(BlockHeadersResponse { parts })
}

/// The two messages that answer for a block in a stream of transactions.
pub open spec fn transactions_of_block(block: (crate::p2p_proto::BlockId, Transactions)) -> (
    TransactionsResponse,
    TransactionsResponse,
) {
    (
        TransactionsResponse {
            id: Some(block.0),
            kind: TransactionsResponseKind::Transactions(block.1),
        },
        TransactionsResponse {
            id: Some(block.0),
            kind: TransactionsResponseKind::Fin(Fin { error: None }),
        },
    )
}

/// The stream that answers a request for transactions, given the
/// transactions of the blocks that are served and the trailer: for each
/// block its transactions and the trailer `ok`, both with the block's
/// identity, then the trailer of the stream without one.
pub fn frame_transactions(blocks: Vec<(crate::p2p_proto::BlockId, Transactions)>, trailer: Option<Fin>) -> (r:
    Vec<TransactionsResponse>)
    ensures
        r@.len() == 2 * blocks@.len() + if trailer is Some {
            1nat
        } else {
            0nat
        },
        forall|i: int|
            0 <= i < blocks@.len() ==> (#[trigger] slot(r@, 2, i, 0)) == transactions_of_block(
                blocks@[i],
            ).0 && slot(r@, 2, i, 1) == transactions_of_block(blocks@[i]).1,
        trailer matches Some(fin) ==> r@[2 * blocks@.len() as int] == (TransactionsResponse {
            id: None,
            kind: TransactionsResponseKind::Fin(fin),
        }),
{
    // A vector hands out what it owns from its end: turn the blocks round
    // first.
    let mut blocks = blocks;
    let ghost all = blocks@;
    let mut turned: Vec<(crate::p2p_proto::BlockId, Transactions)> = Vec::new();
    while blocks.len() > 0
        invariant
            blocks@.len() <= all.len(),
            blocks@ == all.subrange(0, blocks@.len() as int),
            turned@.len() == all.len() - blocks@.len(),
            forall|k: int| 0 <= k < turned@.len() ==> turned@[k] == all[all.len() - 1 - k],
        decreases blocks@.len(),
    {
        let ghost n = blocks@.len();
        let block = blocks.pop().unwrap();
        turned.push(block);
        proof {
            assert(blocks@ =~= all.subrange(0, n - 1));
        }
    }
    let mut out: Vec<TransactionsResponse> = Vec::new();
    let ghost total = turned@;
    while turned.len() > 0
        invariant
            total.len() == all.len(),
            forall|k: int| 0 <= k < total.len() ==> total[k] == all[all.len() - 1 - k],
            turned@.len() <= total.len(),
            turned@ == total.subrange(0, turned@.len() as int),
            out@.len() == 2 * (total.len() - turned@.len()),
            forall|i: int|
                0 <= i < total.len() - turned@.len() ==> (#[trigger] slot(out@, 2, i, 0))
                    == transactions_of_block(all[i]).0 && slot(out@, 2, i, 1)
                    == transactions_of_block(all[i]).1,
        decreases turned@.len(),
    {
        let ghost n = turned@.len();
        let ghost before = out@;
        let ghost done = total.len() - n;
        let (id, transactions) = turned.pop().unwrap();
        out.push(
            TransactionsResponse {
                id: Some(id),
                kind: TransactionsResponseKind::Transactions(transactions),
            },
        );
        out.push(
            TransactionsResponse { id: Some(id), kind: TransactionsResponseKind::Fin(Fin::ok()) },
        );
        proof {
            assert(turned@ =~= total.subrange(0, n - 1));
            assert(total[n - 1] == all[done]);
            assert forall|i: int| 0 <= i < done + 1 implies (#[trigger] slot(out@, 2, i, 0))
                == transactions_of_block(all[i]).0 && slot(out@, 2, i, 1) == transactions_of_block(
                all[i],
            ).1 by {
                if i < done {
                    assert(slot(out@, 2, i, 0) == slot(before, 2, i, 0));
                    assert(slot(out@, 2, i, 1) == slot(before, 2, i, 1));
                }
            }
        }
    }
    match trailer {
        Some(fin) => {
            let ghost before = out@;
            out.push(TransactionsResponse { id: None, kind: TransactionsResponseKind::Fin(fin) });
            proof {
                assert forall|i: int| 0 <= i < all.len() implies (#[trigger] slot(out@, 2, i, 0))
                    == transactions_of_block(all[i]).0 && slot(out@, 2, i, 1)
                    == transactions_of_block(all[i]).1 by {
                    assert(slot(out@, 2, i, 0) == slot(before, 2, i, 0));
                    assert(slot(out@, 2, i, 1) == slot(before, 2, i, 1));
                }
            }
        },
        None => {},
    }
    out
}

/// Where fewer blocks are there than a request wants, the stream serves
/// just those and ends with the trailer `unknown`.
pub proof fn lemma_partial_stream(view: StorageView, iteration: Iteration, cap: u64)
    requires
        iteration.limit > 0,
        planned_blocks(view, iteration, cap).len() < wanted(iteration.limit, cap),
    ensures
        planned_blocks(view, iteration, cap).len() < iteration.limit,
        planned_trailer(view, iteration, cap) == Some(Fin { error: Some(FinError::Unknown) }),
{
}

/// Where a request asks for more than the cap and as many blocks as the
/// cap are there, the stream serves as many blocks as the cap and ends
/// with the trailer `too_much`; and no stream serves more than the cap.
pub proof fn lemma_capped_stream(view: StorageView, iteration: Iteration, cap: u64)
    ensures
        planned_blocks(view, iteration, cap).len() <= cap,
        planned_blocks(view, iteration, cap).len() <= iteration.limit,
        iteration.limit > cap && planned_blocks(view, iteration, cap).len() == cap && cap > 0
            ==> planned_trailer(view, iteration, cap) == Some(
            Fin { error: Some(FinError::TooMuch) },
        ),
{
    if start_number(view, iteration.start) is None {
        assert(planned_blocks(view, iteration, cap).len() == 0);
    }
    if let Some(start) = start_number(view, iteration.start) {
        lemma_served_length(
            view,
            start,
            iteration.step@,
            iteration.direction,
            wanted(iteration.limit, cap),
        );
    }
}

} // verus!
