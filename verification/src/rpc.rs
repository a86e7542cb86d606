//! What the node tells a client about a block, and how it prepares the
//! trace of a transaction.

use crate::common::{
    BlockHash, BlockId, BlockNumber, BlockTimestamp, GasPrice, SequencerAddress, StarknetVersion,
    StateCommitment, StateUpdate, TransactionHash,
};
use crate::header::BlockHeader;
use crate::storage::{header_with_parent, Storage, StorageError, StorageView};
use crate::tables::{
    block_of_transaction, hashes_of_block, lemma_block_of_transaction, lemma_hashes_of_block,
};
use vstd::prelude::*;

verus! {

/// The status of a block as a client sees it.
#[derive(Clone, Copy, Debug, PartialEq, Eq, Hash, Structural)]
pub enum BlockStatus {
    Pending,
    AcceptedOnL2,
    AcceptedOnL1,
    Rejected,
}

/// The status of a block as the sequencer reports it.
#[derive(Clone, Copy, Debug, PartialEq, Eq, Hash, Structural)]
pub enum Status {
    NotReceived,
    Received,
    Pending,
    Rejected,
    AcceptedOnL1,
    AcceptedOnL2,
    Reverted,
    Aborted,
}

impl Status {
    /// The status that a client sees for a status of the sequencer.
    pub open spec fn seen_as(self) -> BlockStatus {
        match self {
            Status::AcceptedOnL1 => BlockStatus::AcceptedOnL1,
            Status::AcceptedOnL2 => BlockStatus::AcceptedOnL2,
            Status::Pending => BlockStatus::Pending,
            Status::Received => BlockStatus::Pending,
            Status::NotReceived => BlockStatus::Rejected,
            Status::Rejected => BlockStatus::Rejected,
            Status::Reverted => BlockStatus::Rejected,
            Status::Aborted => BlockStatus::Rejected,
        }
    }

    /// The status that a client sees for a status of the sequencer.
    pub fn to_block_status(self) -> (r: BlockStatus)
        ensures
            r == self.seen_as(),
    {
        match self {
            Status::AcceptedOnL1 => BlockStatus::AcceptedOnL1,
            Status::AcceptedOnL2 => BlockStatus::AcceptedOnL2,
            Status::Pending => BlockStatus::Pending,
            Status::Received => BlockStatus::Pending,
            Status::NotReceived => BlockStatus::Rejected,
            Status::Rejected => BlockStatus::Rejected,
            Status::Reverted => BlockStatus::Rejected,
            Status::Aborted => BlockStatus::Rejected,
        }
    }
}

/// The way in which a client names a block.
#[derive(Clone, Copy, Debug, PartialEq, Eq, Hash, Structural)]
pub enum RpcBlockId {
    Number(BlockNumber),
    Hash(BlockHash),
    Latest,
    Pending,
}

/// What a client sends to ask for a block.
#[derive(Clone, Copy, Debug, PartialEq, Eq)]
pub struct GetBlockInput {
    pub block_id: RpcBlockId,
}

/// Why a block could not be given.
#[derive(Clone, Copy, Debug, PartialEq, Eq, Structural)]
pub enum GetBlockError {
    /// The block is not stored.
    BlockNotFound,
    /// The store failed.
    Internal(StorageError),
}

/// A block that the sequencer has finished, as it reports it.
#[derive(Clone, Debug, PartialEq, Eq)]
pub struct SequencerBlock {
    pub block_hash: BlockHash,
    pub block_number: BlockNumber,
    pub parent_block_hash: BlockHash,
    /// None for blocks from before the sequencer said who it is.
    pub sequencer_address: Option<SequencerAddress>,
    pub state_commitment: StateCommitment,
    pub status: Status,
    pub timestamp: BlockTimestamp,
    pub starknet_version: StarknetVersion,
    pub transactions: Vec<TransactionHash>,
}

/// The block that the sequencer is making, as it reports it.
#[derive(Clone, Debug, PartialEq, Eq)]
pub struct PendingBlock {
    pub parent_hash: BlockHash,
    pub sequencer_address: SequencerAddress,
    pub status: Status,
    pub timestamp: BlockTimestamp,
    pub starknet_version: StarknetVersion,
    pub transactions: Vec<TransactionHash>,
}

/// A block of the sequencer, finished or not.
#[derive(Clone, Debug, PartialEq, Eq)]
pub enum MaybePendingBlock {
    Block(SequencerBlock),
    Pending(PendingBlock),
}

/// A block as a client gets it, with the hashes of its transactions.
#[derive(Clone, Debug, PartialEq, Eq)]
pub struct Block {
    pub status: BlockStatus,
    pub block_hash: Option<BlockHash>,
    pub parent_hash: BlockHash,
    pub block_number: Option<BlockNumber>,
    pub new_root: Option<StateCommitment>,
    pub timestamp: BlockTimestamp,
    pub sequencer_address: SequencerAddress,
    pub transactions: Vec<TransactionHash>,
}

impl Block {
    /// The block of a stored header, a status and the hashes of the
    /// block's transactions.
    pub fn from_parts(header: BlockHeader, status: BlockStatus, transactions: Vec<TransactionHash>) -> (r:
        Block)
        ensures
            r == (Block {
                status,
                block_hash: Some(header.hash),
                parent_hash: header.parent_hash,
                block_number: Some(header.number),
                new_root: Some(header.state_commitment),
                timestamp: header.timestamp,
                sequencer_address: header.sequencer_address,
                transactions,
            }),
    {
        Block {
            status,
            block_hash: Some(header.hash),
            parent_hash: header.parent_hash,
            block_number: Some(header.number),
            new_root: Some(header.state_commitment),
            timestamp: header.timestamp,
            sequencer_address: header.sequencer_address,
            transactions,
        }
    }

    /// The block of a block of the sequencer. A block that is not finished
    /// has no hash, number or root yet; a finished block without a
    /// sequencer address gets the address zero.
    pub fn from_sequencer(block: MaybePendingBlock) -> (r: Block)
        ensures
            match block {
                MaybePendingBlock::Block(b) => {
                    &&& r.status == b.status.seen_as()
                    &&& r.block_hash == Some(b.block_hash)
                    &&& r.parent_hash == b.parent_block_hash
                    &&& r.block_number == Some(b.block_number)
                    &&& r.new_root == Some(b.state_commitment)
                    &&& r.timestamp == b.timestamp
                    &&& match b.sequencer_address {
                        Some(a) => r.sequencer_address == a,
                        None => r.sequencer_address.0@ == 0,
                    }
                    &&& r.transactions == b.transactions
                },
                MaybePendingBlock::Pending(p) => r == (Block {
                    status: p.status.seen_as(),
                    block_hash: None,
                    parent_hash: p.parent_hash,
                    block_number: None,
                    new_root: None,
                    timestamp: p.timestamp,
                    sequencer_address: p.sequencer_address,
                    transactions: p.transactions,
                }),
            },
    {
        match block {
            MaybePendingBlock::Block(block) => Block {
                status: block.status.to_block_status(),
                block_hash: Some(block.block_hash),
                parent_hash: block.parent_block_hash,
                block_number: Some(block.block_number),
                new_root: Some(block.state_commitment),
                timestamp: block.timestamp,
                sequencer_address: match block.sequencer_address {
                    Some(a) => a,
                    // The sequencer of the oldest blocks is the address zero.
                    None => SequencerAddress::zero(),
                },
                transactions: block.transactions,
            },
            MaybePendingBlock::Pending(pending) => Block {
                status: pending.status.to_block_status(),
                block_hash: None,
                parent_hash: pending.parent_hash,
                block_number: None,
                new_root: None,
                timestamp: pending.timestamp,
                sequencer_address: pending.sequencer_address,
                transactions: pending.transactions,
            },
        }
    }
}

/// The stored block that a client names, if it names a stored one.
pub open spec fn stored_id(block_id: RpcBlockId) -> BlockId {
    match block_id {
        RpcBlockId::Number(n) => BlockId::Number(n),
        RpcBlockId::Hash(h) => BlockId::Hash(h),
        _ => BlockId::Latest,
    }
}

/// The status of a stored block: accepted on the first layer where the
/// pointer has reached it, on the second else.
pub open spec fn stored_status(view: StorageView, n: nat) -> BlockStatus {
    if view.l1_l2_pointer matches Some(p) && n <= p@ {
        BlockStatus::AcceptedOnL1
    } else {
        BlockStatus::AcceptedOnL2
    }
}

/// The block that a client asks for, with the hashes of its transactions.
///
/// The pending block is the one handed in. Any other block is read from the
/// store: it is not found where it is not stored, and the store fails where
/// the block is stored above the first without the block below it.
pub fn get_block_with_tx_hashes(storage: &Storage, pending: PendingBlock, input: GetBlockInput) -> (r:
    Result<Block, GetBlockError>)
    requires
        storage.wf(),
    ensures
        input.block_id is Pending ==> r == Ok::<Block, GetBlockError>(
            Block {
                status: pending.status.seen_as(),
                block_hash: None,
                parent_hash: pending.parent_hash,
                block_number: None,
                new_root: None,
                timestamp: pending.timestamp,
                sequencer_address: pending.sequencer_address,
                transactions: pending.transactions,
            },
        ),
        !(input.block_id is Pending) && !storage@.exists_block(stored_id(input.block_id)) ==> r
            == Err::<Block, GetBlockError>(GetBlockError::BlockNotFound),
        !(input.block_id is Pending) ==> forall|n: nat|
            storage@.names(stored_id(input.block_id), n) ==> match header_with_parent(
                storage@,
                n,
            ) {
                None => r == Err::<Block, GetBlockError>(
                    GetBlockError::Internal(StorageError::MissingParent),
                ),
                Some(header) => (r matches Ok(block) && block.status == stored_status(storage@, n)
                    && block.block_hash == Some(header.hash) && block.parent_hash
                    == header.parent_hash && block.block_number == Some(header.number)
                    && block.new_root == Some(header.state_commitment) && block.timestamp
                    == header.timestamp && block.sequencer_address == header.sequencer_address
                    && block.transactions@ == hashes_of_block(
                    storage@.transactions,
                    header.hash,
                )),
            },
{
    let block_id = match input.block_id {
        RpcBlockId::Pending => {
            return Ok(Block::from_sequencer(MaybePendingBlock::Pending(pending)));
        },
        RpcBlockId::Latest => BlockId::Latest,
        RpcBlockId::Number(n) => BlockId::Number(n),
        RpcBlockId::Hash(h) => BlockId::Hash(h),
    };
    proof {
        storage.lemma_names_one(block_id);
        storage.lemma_headers();
    }
    let header = match storage.block_header(block_id) {
        Ok(Some(header)) => header,
        Ok(None) => {
            return Err(GetBlockError::BlockNotFound);
        },
        Err(e) => {
            return Err(GetBlockError::Internal(e));
        },
    };
    let by_number = BlockId::Number(header.number);
    proof {
        storage.lemma_names_one(by_number);
        let n = choose|n: nat| storage@.names(block_id, n);
        assert(storage@.names(by_number, n));
    }
    let l1_accepted = storage.block_is_l1_accepted(by_number);
    let block_status = if l1_accepted {
        BlockStatus::AcceptedOnL1
    } else {
        BlockStatus::AcceptedOnL2
    };
    let transactions = match storage.transaction_hashes_for_block(by_number) {
        Some(hashes) => hashes,
        None => {
            return Err(GetBlockError::BlockNotFound);
        },
    };
    Ok(Block::from_parts(header, block_status, transactions))
}

/// The first version of the network whose transactions the node traces
/// itself: for older ones it asks the gateway.
pub const FIRST_TRACED_VERSION: (u64, u64, u64) = (0, 12, 3);

/// What a client sends to ask for the trace of a transaction.
#[derive(Clone, Copy, Debug, PartialEq, Eq)]
pub struct TraceTransactionInput {
    pub transaction_hash: TransactionHash,
}

/// The trace of a transaction, as the executor or the gateway encoded it.
#[derive(Clone, Debug, PartialEq, Eq)]
pub struct TransactionTrace {
    pub encoded: Vec<u8>,
}

/// What a client gets for the trace of a transaction.
#[derive(Clone, Debug, PartialEq, Eq)]
pub struct TraceTransactionOutput(pub TransactionTrace);

/// Why there is no trace of a transaction.
#[derive(Clone, Copy, Debug, PartialEq, Eq, Structural)]
pub enum TraceError {
    Received,
    Rejected,
}

/// Why the state to execute on could not be made.
#[derive(Clone, Debug, PartialEq, Eq)]
pub enum ExecutionStateError {
    BlockNotFound,
    Internal(String),
}

/// Why the executor failed.
#[derive(Clone, Debug, PartialEq, Eq)]
pub enum TransactionExecutionError {
    ExecutionError { transaction_index: usize, error: String },
    Internal(String),
    Custom(String),
}

/// Why the trace of a transaction could not be given.
#[derive(Clone, Debug, PartialEq, Eq)]
pub enum TraceTransactionError {
    InvalidTxnHash,
    NoTraceAvailable(TraceError),
    Internal(String),
    Custom(String),
}

/// The errors that a client sees.
#[derive(Clone, Debug, PartialEq, Eq)]
pub enum ApplicationError {
    InvalidTxnHash,
    NoTraceAvailable(TraceError),
    Internal(String),
    Custom(String),
}

/// The decimal digit of a number below ten.
pub open spec fn digit(d: nat) -> Seq<char> {
    if d == 0 {
        "0"@
    } else if d == 1 {
        "1"@
    } else if d == 2 {
        "2"@
    } else if d == 3 {
        "3"@
    } else if d == 4 {
        "4"@
    } else if d == 5 {
        "5"@
    } else if d == 6 {
        "6"@
    } else if d == 7 {
        "7"@
    } else if d == 8 {
        "8"@
    } else {
        "9"@
    }
}

/// A number in decimal digits.
pub open spec fn decimal(n: nat) -> Seq<char>
    decreases n,
{
    if n < 10 {
        digit(n)
    } else {
        decimal(n / 10) + digit(n % 10)
    }
}

/// The message of an execution error: the index of the transaction and the
/// executor's words.
pub open spec fn execution_error_text(transaction_index: nat, error: Seq<char>) -> Seq<char> {
    "Execution error at transaction index "@ + decimal(transaction_index) + ": "@ + error
}

/// The decimal digit of a number below ten.
fn digit_str(d: usize) -> (r: &'static str)
    requires
        d < 10,
    ensures
        r@ == digit(d as nat),
{
    if d == 0 {
        "0"
    } else if d == 1 {
        "1"
    } else if d == 2 {
        "2"
    } else if d == 3 {
        "3"
    } else if d == 4 {
        "4"
    } else if d == 5 {
        "5"
    } else if d == 6 {
        "6"
    } else if d == 7 {
        "7"
    } else if d == 8 {
        "8"
    } else {
        "9"
    }
}

/// Writes a number in decimal digits at the end of a text.
fn append_decimal(text: &mut String, n: usize)
    ensures
        final(text)@ == old(text)@ + decimal(n as nat),
    decreases n,
{
    if n >= 10 {
        append_decimal(text, n / 10);
    }
    let ghost before = text@;
    text.append(digit_str(n % 10));
    proof {
        if n >= 10 {
            assert(old(text)@ + decimal((n / 10) as nat) + digit((n % 10) as nat) =~= old(text)@
                + (decimal((n / 10) as nat) + digit((n % 10) as nat)));
        }
    }
}

/// Writes the message of an execution error.
fn execution_error_message(transaction_index: usize, error: &String) -> (r: String)
    ensures
        r@ == execution_error_text(transaction_index as nat, error@),
{
    let mut text = String::from_str("Execution error at transaction index ");
    append_decimal(&mut text, transaction_index);
    text.append(": ");
    text.append(error.as_str());
    text
}

impl TraceTransactionError {
    /// The error of a state that could not be made.
    pub fn from_state_error(value: ExecutionStateError) -> (r: TraceTransactionError)
        ensures
            match value {
                ExecutionStateError::BlockNotFound => r matches TraceTransactionError::Custom(m)
                    && m@ == "Block not found"@,
                ExecutionStateError::Internal(e) => r == TraceTransactionError::Internal(e),
            },
    {
        match value {
            ExecutionStateError::BlockNotFound => TraceTransactionError::Custom(
                "Block not found".to_string(),
            ),
            ExecutionStateError::Internal(e) => TraceTransactionError::Internal(e),
        }
    }

    /// The error of an execution that failed.
    pub fn from_execution_error(value: TransactionExecutionError) -> (r: TraceTransactionError)
        ensures
            match value {
                TransactionExecutionError::ExecutionError {
                    transaction_index,
                    error,
                } => r matches TraceTransactionError::Custom(m) && m@ == execution_error_text(
                    transaction_index as nat,
                    error@,
                ),
                TransactionExecutionError::Internal(e) => r == TraceTransactionError::Internal(e),
                TransactionExecutionError::Custom(e) => r == TraceTransactionError::Custom(e),
            },
    {
        match value {
            TransactionExecutionError::ExecutionError {
                transaction_index,
                error,
            } => TraceTransactionError::Custom(execution_error_message(transaction_index, &error)),
            TransactionExecutionError::Internal(e) => TraceTransactionError::Internal(e),
            TransactionExecutionError::Custom(e) => TraceTransactionError::Custom(e),
        }
    }

    /// The error as a client sees it.
    pub fn into_application_error(self) -> (r: ApplicationError)
        ensures
            r == (match self {
                TraceTransactionError::InvalidTxnHash => ApplicationError::InvalidTxnHash,
                TraceTransactionError::NoTraceAvailable(status) => ApplicationError::NoTraceAvailable(
                    status,
                ),
                TraceTransactionError::Internal(e) => ApplicationError::Internal(e),
                TraceTransactionError::Custom(e) => ApplicationError::Custom(e),
            }),
    {
        match self {
            TraceTransactionError::InvalidTxnHash => ApplicationError::InvalidTxnHash,
            TraceTransactionError::NoTraceAvailable(status) => ApplicationError::NoTraceAvailable(
                status,
            ),
            TraceTransactionError::Internal(e) => ApplicationError::Internal(e),
            TraceTransactionError::Custom(e) => ApplicationError::Custom(e),
        }
    }
}

/// What is to be done to trace a transaction.
#[derive(Clone, Debug, PartialEq, Eq)]
pub enum LocalExecution {
    /// Execute the given transactions, the last of which is the one to
    /// trace, on the state before the block with the given header; `None`
    /// is the pending block.
    Execute { header: Option<BlockHeader>, transactions: Vec<TransactionHash> },
    /// The block is from before the node traced transactions itself: the
    /// gateway is to be asked.
    Unsupported(TransactionHash),
}

/// The place of the first of some hashes that is the given one.
pub fn position(hashes: &[TransactionHash], wanted: TransactionHash) -> (r: Option<usize>)
    ensures
        r matches Some(i) ==> i < hashes@.len() && hashes@[i as int] == wanted && forall|j: int|
            0 <= j < i ==> hashes@[j] != wanted,
        r is None ==> forall|j: int| 0 <= j < hashes@.len() ==> hashes@[j] != wanted,
{
    let mut i: usize = 0;
    while i < hashes.len()
        invariant
            i <= hashes@.len(),
            forall|j: int| 0 <= j < i ==> hashes@[j] != wanted,
        decreases hashes@.len() - i,
    {
        if hashes[i] == wanted {
            return Some(i);
        }
        i = i + 1;
    }
    None
}

/// The first hashes of a string, up to and with the one at `last`.
pub fn up_to(hashes: &[TransactionHash], last: usize) -> (r: Vec<TransactionHash>)
    requires
        last < hashes@.len(),
    ensures
        r@ == hashes@.subrange(0, last + 1),
{
    let mut out: Vec<TransactionHash> = Vec::new();
    let mut i: usize = 0;
    while i <= last
        invariant
            i <= last + 1,
            last < hashes@.len(),
            out@ == hashes@.subrange(0, i as int),
        decreases last + 1 - i,
    {
        out.push(hashes[i]);
        proof {
            assert(out@ =~= hashes@.subrange(0, i + 1));
        }
        i = i + 1;
    }
    out
}

/// Whether a block of the given version is traced by the gateway.
pub open spec fn traced_by_gateway(version: StarknetVersion) -> bool {
    version.precedes_release(0, 12, 3)
}

/// Whether `prefix` is the beginning of `all` up to and with the first
/// `wanted`.
pub open spec fn ends_at_first(
    prefix: Seq<TransactionHash>,
    all: Seq<TransactionHash>,
    wanted: TransactionHash,
) -> bool {
    &&& 0 < prefix.len() <= all.len()
    &&& prefix == all.subrange(0, prefix.len() as int)
    &&& prefix.last() == wanted
    &&& !prefix.drop_last().contains(wanted)
}

/// What has to be done to trace a transaction of a stored block with the
/// given header and transactions.
pub open spec fn stored_trace(
    header: BlockHeader,
    transactions: Seq<TransactionHash>,
    wanted: TransactionHash,
    r: Result<LocalExecution, TraceTransactionError>,
) -> bool {
    if traced_by_gateway(header.starknet_version) {
        r == Ok::<LocalExecution, TraceTransactionError>(LocalExecution::Unsupported(wanted))
    } else {
        r matches Ok(LocalExecution::Execute { header: Some(h), transactions: batch }) && h
            == header && ends_at_first(batch@, transactions, wanted)
    }
}

/// Decides how a transaction is traced.
///
/// A transaction of the pending block is looked for first, among the hashes
/// handed in; then one of a stored block. The transaction is executed after
/// those before it in its block, unless the block's version is from before
/// the node traced transactions itself. A transaction that is in neither
/// is not known; one whose block is not stored, or stored without the block
/// below it, is an internal error.
pub fn prepare_trace(
    storage: &Storage,
    pending_version: StarknetVersion,
    pending_transactions: &[TransactionHash],
    input: TraceTransactionInput,
) -> (r: Result<LocalExecution, TraceTransactionError>)
    requires
        storage.wf(),
    ensures
        ({
            let wanted = input.transaction_hash;
            if pending_transactions@.contains(wanted) {
                if traced_by_gateway(pending_version) {
                    r == Ok::<LocalExecution, TraceTransactionError>(
                        LocalExecution::Unsupported(wanted),
                    )
                } else {
                    r matches Ok(LocalExecution::Execute { header: None, transactions })
                        && ends_at_first(transactions@, pending_transactions@, wanted)
                }
            } else {
                match block_of_transaction(storage@.transactions, wanted) {
                    None => r == Err::<LocalExecution, TraceTransactionError>(
                        TraceTransactionError::InvalidTxnHash,
                    ),
                    Some(block_hash) => if !storage@.has_hash(block_hash) {
                        r matches Err(TraceTransactionError::Internal(m)) && m@
                            == "Block header is missing"@
                    } else {
                        forall|n: nat|
                            storage@.names(BlockId::Hash(block_hash), n) ==> match header_with_parent(
                                storage@,
                                n,
                            ) {
                                None => r matches Err(TraceTransactionError::Internal(m)) && m@
                                    == "Fetching block header"@,
                                Some(header) => stored_trace(
                                    header,
                                    hashes_of_block(storage@.transactions, block_hash),
                                    wanted,
                                    r,
                                ),
                            }
                    },
                }
            }
        }),
{
    let wanted = input.transaction_hash;
    match position(pending_transactions, wanted) {
        Some(pending_idx) => {
            proof {
                assert(pending_transactions@.contains(wanted));
            }
            if pending_version.is_before_release(0, 12, 3) {
                return Ok(LocalExecution::Unsupported(pending_transactions[pending_idx]));
            }
            let transactions = up_to(pending_transactions, pending_idx);
            proof {
                lemma_prefix_ends_at_first(pending_transactions@, pending_idx as int, wanted);
            }
            Ok(LocalExecution::Execute { header: None, transactions })
        },
        None => {
            proof {
                if pending_transactions@.contains(wanted) {
                    let j = choose|j: int|
                        0 <= j < pending_transactions@.len() && pending_transactions@[j] == wanted;
                }
            }
            let Some(block_hash) = storage.transaction_block_hash(wanted) else {
                return Err(TraceTransactionError::InvalidTxnHash);
            };
            proof {
                storage.lemma_names_one(BlockId::Hash(block_hash));
                storage.lemma_headers();
            }
            let header = match storage.block_header(BlockId::Hash(block_hash)) {
                Ok(Some(header)) => header,
                Ok(None) => {
                    return Err(
                        TraceTransactionError::Internal("Block header is missing".to_string()),
                    );
                },
                Err(_) => {
                    return Err(
                        TraceTransactionError::Internal("Fetching block header".to_string()),
                    );
                },
            };
            if header.starknet_version.is_before_release(0, 12, 3) {
                return Ok(LocalExecution::Unsupported(wanted));
            }
            let Some(transactions) = storage.transaction_hashes_for_block(
                BlockId::Hash(block_hash),
            ) else {
                return Err(
                    TraceTransactionError::Internal("Block transactions missing".to_string()),
                );
            };
            proof {
                lemma_block_of_transaction(storage@.transactions, wanted);
                let i = choose|i: int|
                    0 <= i < storage@.transactions.len() && (
                    #[trigger] storage@.transactions[i]).hash == wanted
                        && storage@.transactions[i].block_hash == block_hash;
                lemma_hashes_of_block(storage@.transactions, block_hash, i);
            }
            let Some(index) = position(transactions.as_slice(), wanted) else {
                proof {
                    let j = choose|j: int|
                        0 <= j < transactions@.len() && transactions@[j] == wanted;
                }
                return Err(
                    TraceTransactionError::Internal(
                        "Failed to find transaction in the batch".to_string(),
                    ),
                );
            };
            let batch = up_to(transactions.as_slice(), index);
            proof {
                lemma_prefix_ends_at_first(transactions@, index as int, wanted);
            }
            Ok(LocalExecution::Execute { header: Some(header), transactions: batch })
        },
    }
}

/// The beginning of a string up to and with the first place of a hash
/// ends at the first such hash.
proof fn lemma_prefix_ends_at_first(all: Seq<TransactionHash>, at: int, wanted: TransactionHash)
    requires
        0 <= at < all.len(),
        all[at] == wanted,
        forall|j: int| 0 <= j < at ==> all[j] != wanted,
    ensures
        ends_at_first(all.subrange(0, at + 1), all, wanted),
{
    let prefix = all.subrange(0, at + 1);
    if prefix.drop_last().contains(wanted) {
        let j = choose|j: int| 0 <= j < prefix.drop_last().len() && prefix.drop_last()[j] == wanted;
        assert(prefix.drop_last()[j] == all[j]);
    }
}

/// The point in time at which a call is made: a stored block, or the
/// latest.
#[derive(Clone, Copy, Debug, PartialEq, Eq, Hash, Structural)]
pub enum BlockHashNumberOrLatest {
    Hash(BlockHash),
    Number(BlockNumber),
    Latest,
}

/// Where the price of gas for a call is taken from.
#[derive(Clone, Copy, Debug, PartialEq, Eq, Hash, Structural)]
pub enum GasPriceSource {
    /// From the block at which the call is made.
    PastBlock,
    /// The current price, which is given.
    Current(GasPrice),
}

/// The block that the sequencer is making, with the changes to the state
/// that it has made so far.
#[derive(Clone, Debug, PartialEq, Eq)]
pub struct PendingData {
    pub block: PendingBlock,
    pub state_update: StateUpdate,
}

/// Why a call could not be prepared.
#[derive(Clone, Copy, Debug, PartialEq, Eq, Structural)]
pub enum PrepareError {
    /// The node is not set up to make calls.
    UnsupportedConfiguration,
    /// The current price of gas is not known.
    GasPriceUnavailable,
}

/// The point in time that a client's block id names, if it is not the
/// pending block.
pub open spec fn point_in_time(at_block: RpcBlockId) -> Option<BlockHashNumberOrLatest> {
    match at_block {
        RpcBlockId::Hash(h) => Some(BlockHashNumberOrLatest::Hash(h)),
        RpcBlockId::Number(n) => Some(BlockHashNumberOrLatest::Number(n)),
        RpcBlockId::Latest => Some(BlockHashNumberOrLatest::Latest),
        RpcBlockId::Pending => None,
    }
}

/// The point in time at which a call at a block is made, and what of the
/// pending block goes into it: a call at the pending block is made at the
/// latest block, with the pending block's time and changes on top; any
/// other call is made at its block, with nothing on top.
pub fn base_block_and_pending_for_call(at_block: RpcBlockId, pending_data: &PendingData) -> (r: (
    BlockHashNumberOrLatest,
    Option<BlockTimestamp>,
    Option<StateUpdate>,
))
    ensures
        r == (match point_in_time(at_block) {
            Some(when) => (when, None::<BlockTimestamp>, None::<StateUpdate>),
            None => (
                BlockHashNumberOrLatest::Latest,
                Some(pending_data.block.timestamp),
                Some(pending_data.state_update),
            ),
        }),
{
    match at_block {
        RpcBlockId::Hash(h) => (BlockHashNumberOrLatest::Hash(h), None, None),
        RpcBlockId::Number(n) => (BlockHashNumberOrLatest::Number(n), None, None),
        RpcBlockId::Latest => (BlockHashNumberOrLatest::Latest, None, None),
        RpcBlockId::Pending => (
            BlockHashNumberOrLatest::Latest,
            Some(pending_data.block.timestamp),
            Some(pending_data.state_update),
        ),
    }
}

/// Prepares a call at a block: where the price of gas comes from, the
/// point in time, and what of the pending block goes into the call.
///
/// A call at the pending or the latest block takes the current price of
/// gas, and fails where that is not known; any other takes the price of its
/// block. Nothing is prepared where the node is not set up to make calls.
pub fn prepare_handle_and_block(
    call_handle_configured: bool,
    eth_gas_price: Option<GasPrice>,
    block_id: RpcBlockId,
    pending_data: &PendingData,
) -> (r: Result<
    (GasPriceSource, BlockHashNumberOrLatest, Option<BlockTimestamp>, Option<StateUpdate>),
    PrepareError,
>)
    ensures
        r == (if !call_handle_configured {
            Err::<
                (
                    GasPriceSource,
                    BlockHashNumberOrLatest,
                    Option<BlockTimestamp>,
                    Option<StateUpdate>,
                ),
                PrepareError,
            >(PrepareError::UnsupportedConfiguration)
        } else if (block_id is Pending || block_id is Latest) && eth_gas_price is None {
            Err(PrepareError::GasPriceUnavailable)
        } else {
            let gas_price = if block_id is Pending || block_id is Latest {
                GasPriceSource::Current(eth_gas_price->0)
            } else {
                GasPriceSource::PastBlock
            };
            match point_in_time(block_id) {
                Some(when) => Ok((gas_price, when, None::<BlockTimestamp>, None::<StateUpdate>)),
                None => Ok(
                    (
                        gas_price,
                        BlockHashNumberOrLatest::Latest,
                        Some(pending_data.block.timestamp),
                        Some(pending_data.state_update),
                    ),
                ),
            }
        }),
{
    if !call_handle_configured {
        return Err(PrepareError::UnsupportedConfiguration);
    }
    // A call at a stored block takes the price of gas of that block, a call
    // at a tag the current one.
    let at_tag = match block_id {
        RpcBlockId::Pending => true,
        RpcBlockId::Latest => true,
        _ => false,
    };
    let gas_price = if at_tag {
        match eth_gas_price {
            Some(price) => GasPriceSource::Current(price),
            None => {
                return Err(PrepareError::GasPriceUnavailable);
            },
        }
    } else {
        GasPriceSource::PastBlock
    };
    let (when, pending_timestamp, pending_update) = base_block_and_pending_for_call(
        block_id,
        pending_data,
    );
    Ok((gas_price, when, pending_timestamp, pending_update))
}

} // verus!
