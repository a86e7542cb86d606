use stark_node::common::{
    BlockHash, BlockNumber, BlockTimestamp, GasPrice, SequencerAddress, StarknetVersion,
    StateCommitment, StateUpdate, TransactionHash,
};
use stark_node::felt::Felt;
use stark_node::header::BlockHeader;
use stark_node::rpc::{
    base_block_and_pending_for_call, get_block_with_tx_hashes, position, prepare_handle_and_block,
    prepare_trace, up_to, ApplicationError, Block, BlockHashNumberOrLatest, BlockStatus,
    ExecutionStateError, GasPriceSource, GetBlockError, GetBlockInput, LocalExecution,
    MaybePendingBlock, PendingBlock, PendingData, PrepareError, RpcBlockId, SequencerBlock, Status,
    TraceError, TraceTransactionError, TraceTransactionInput, TraceTransactionOutput,
    TransactionExecutionError, TransactionTrace,
};
use stark_node::storage::{Storage, StorageError};

fn felt_bytes(bytes: &[u8]) -> Felt {
    Felt::from_be_slice(bytes).unwrap()
}

fn block_hash_bytes(bytes: &[u8]) -> BlockHash {
    BlockHash(felt_bytes(bytes))
}

fn transaction_hash_bytes(bytes: &[u8]) -> TransactionHash {
    TransactionHash(felt_bytes(bytes))
}

// Three blocks: "genesis" with one transaction, "block 1" with two, and
// "latest" with three, of versions 0.0.0, 0.12.2 and 0.13.0.
fn for_tests() -> Storage {
    let mut storage = Storage::new();
    let genesis = BlockHeader::builder()
        .with_timestamp(BlockTimestamp::new_or_panic(0))
        .finalize_with_hash(block_hash_bytes(b"genesis"));
    let block1 = genesis
        .child_builder()
        .with_timestamp(BlockTimestamp::new_or_panic(1))
        .with_starknet_version(StarknetVersion::new(0, 12, 2))
        .with_sequencer_address(SequencerAddress(felt_bytes(&[1])))
        .finalize_with_hash(block_hash_bytes(b"block 1"));
    let latest = block1
        .child_builder()
        .with_timestamp(BlockTimestamp::new_or_panic(2))
        .with_starknet_version(StarknetVersion::new(0, 13, 0))
        .with_sequencer_address(SequencerAddress(felt_bytes(&[2])))
        .finalize_with_hash(block_hash_bytes(b"latest"));
    for header in [genesis, block1, latest] {
        storage.insert_block_header(&header).unwrap();
    }
    storage.insert_transaction(genesis.hash, transaction_hash_bytes(b"txn 0"));
    storage.insert_transaction(block1.hash, transaction_hash_bytes(b"txn 1"));
    storage.insert_transaction(latest.hash, transaction_hash_bytes(b"txn 3"));
    storage.insert_transaction(block1.hash, transaction_hash_bytes(b"txn 2"));
    storage.insert_transaction(latest.hash, transaction_hash_bytes(b"txn 4"));
    storage.insert_transaction(latest.hash, transaction_hash_bytes(b"txn 5"));
    storage
}

fn pending_block() -> PendingBlock {
    PendingBlock {
        parent_hash: block_hash_bytes(b"latest"),
        sequencer_address: SequencerAddress(felt_bytes(b"pending sequencer address")),
        status: Status::Pending,
        timestamp: BlockTimestamp::new_or_panic(1234567),
        starknet_version: StarknetVersion::new(0, 13, 0),
        transactions: vec![
            transaction_hash_bytes(b"pending tx hash 0"),
            transaction_hash_bytes(b"pending tx hash 1"),
            transaction_hash_bytes(b"pending tx hash 2"),
        ],
    }
}

fn get(block_id: RpcBlockId) -> Result<Block, GetBlockError> {
    get_block_with_tx_hashes(&for_tests(), pending_block(), GetBlockInput { block_id })
}

#[test]
fn pending() {
    let result = get(RpcBlockId::Pending).unwrap();
    assert_eq!(result.parent_hash, block_hash_bytes(b"latest"));
    assert_eq!(result.block_hash, None);
    assert_eq!(result.block_number, None);
    assert_eq!(result.new_root, None);
    assert_eq!(result.status, BlockStatus::Pending);
    assert_eq!(result.transactions, pending_block().transactions);
}

#[test]
fn latest() {
    let result = get(RpcBlockId::Latest).unwrap();
    assert_eq!(result.block_hash, Some(block_hash_bytes(b"latest")));
    assert_eq!(result.parent_hash, block_hash_bytes(b"block 1"));
    assert_eq!(result.block_number, Some(BlockNumber::new_or_panic(2)));
}

#[test]
fn by_number() {
    let result = get(RpcBlockId::Number(BlockNumber::genesis())).unwrap();
    assert_eq!(result.block_hash, Some(block_hash_bytes(b"genesis")));
}

#[test]
fn by_hash() {
    let result = get(RpcBlockId::Hash(block_hash_bytes(b"genesis"))).unwrap();
    assert_eq!(result.block_hash, Some(block_hash_bytes(b"genesis")));
}

#[test]
fn not_found_by_number() {
    let result = get(RpcBlockId::Number(BlockNumber::max()));
    assert!(matches!(result, Err(GetBlockError::BlockNotFound)));
}

#[test]
fn not_found_by_hash() {
    let result = get(RpcBlockId::Hash(block_hash_bytes(b"non-existent")));
    assert!(matches!(result, Err(GetBlockError::BlockNotFound)));
}

#[test]
fn transaction_hashes_are_correct() {
    let tx_hashes = get(RpcBlockId::Number(BlockNumber::new_or_panic(1))).unwrap().transactions;
    assert_eq!(
        tx_hashes,
        vec![transaction_hash_bytes(b"txn 1"), transaction_hash_bytes(b"txn 2")]
    );
}

#[test]
fn status_follows_the_l1_pointer() {
    let mut storage = for_tests();
    storage.update_l1_l2_pointer(Some(BlockNumber::new_or_panic(1)));
    let status = |n: u64| {
        get_block_with_tx_hashes(
            &storage,
            pending_block(),
            GetBlockInput { block_id: RpcBlockId::Number(BlockNumber::new_or_panic(n)) },
        )
        .unwrap()
        .status
    };
    assert_eq!(status(0), BlockStatus::AcceptedOnL1);
    assert_eq!(status(1), BlockStatus::AcceptedOnL1);
    assert_eq!(status(2), BlockStatus::AcceptedOnL2);
}

#[test]
fn block_above_a_hole_is_a_store_failure() {
    let mut storage = for_tests();
    let lonely = BlockHeader::builder()
        .with_number(BlockNumber::new_or_panic(9))
        .finalize_with_hash(block_hash_bytes(b"nine"));
    storage.insert_block_header(&lonely).unwrap();
    let result = get_block_with_tx_hashes(
        &storage,
        pending_block(),
        GetBlockInput { block_id: RpcBlockId::Latest },
    );
    assert_eq!(result, Err(GetBlockError::Internal(StorageError::MissingParent)));
}

#[test]
fn from_sequencer_blocks() {
    let finished = SequencerBlock {
        block_hash: block_hash_bytes(b"h"),
        block_number: BlockNumber::new_or_panic(7),
        parent_block_hash: block_hash_bytes(b"p"),
        sequencer_address: None,
        state_commitment: StateCommitment(felt_bytes(b"root")),
        status: Status::AcceptedOnL1,
        timestamp: BlockTimestamp::new_or_panic(5),
        starknet_version: StarknetVersion::default(),
        transactions: vec![transaction_hash_bytes(b"t")],
    };
    let block = Block::from_sequencer(MaybePendingBlock::Block(finished.clone()));
    assert_eq!(
        block,
        Block {
            status: BlockStatus::AcceptedOnL1,
            block_hash: Some(finished.block_hash),
            parent_hash: finished.parent_block_hash,
            block_number: Some(finished.block_number),
            new_root: Some(finished.state_commitment),
            timestamp: finished.timestamp,
            sequencer_address: SequencerAddress::zero(),
            transactions: finished.transactions.clone(),
        }
    );
    let statuses = [
        (Status::NotReceived, BlockStatus::Rejected),
        (Status::Received, BlockStatus::Pending),
        (Status::Pending, BlockStatus::Pending),
        (Status::Rejected, BlockStatus::Rejected),
        (Status::AcceptedOnL1, BlockStatus::AcceptedOnL1),
        (Status::AcceptedOnL2, BlockStatus::AcceptedOnL2),
        (Status::Reverted, BlockStatus::Rejected),
        (Status::Aborted, BlockStatus::Rejected),
    ];
    for (from, to) in statuses {
        assert_eq!(from.to_block_status(), to);
    }
}

#[test]
fn trace_is_prepared_from_the_block_of_the_transaction() {
    let storage = for_tests();
    let pending = pending_block();
    let prepare = |hash: TransactionHash| {
        prepare_trace(
            &storage,
            pending.starknet_version,
            &pending.transactions,
            TraceTransactionInput { transaction_hash: hash },
        )
    };
    // A pending transaction: it and those before it, on the pending block.
    assert_eq!(
        prepare(transaction_hash_bytes(b"pending tx hash 1")),
        Ok(LocalExecution::Execute {
            header: None,
            transactions: pending.transactions[..2].to_vec(),
        })
    );
    // A stored transaction of a version that the node traces.
    match prepare(transaction_hash_bytes(b"txn 4")) {
        Ok(LocalExecution::Execute { header: Some(h), transactions }) => {
            assert_eq!(h.hash, block_hash_bytes(b"latest"));
            assert_eq!(
                transactions,
                vec![transaction_hash_bytes(b"txn 3"), transaction_hash_bytes(b"txn 4")]
            );
        }
        other => panic!("unexpected {:?}", other),
    }
    // A stored transaction of an older version: the gateway is asked.
    assert_eq!(
        prepare(transaction_hash_bytes(b"txn 2")),
        Ok(LocalExecution::Unsupported(transaction_hash_bytes(b"txn 2")))
    );
    assert_eq!(
        prepare(transaction_hash_bytes(b"txn 0")),
        Ok(LocalExecution::Unsupported(transaction_hash_bytes(b"txn 0")))
    );
    // A transaction that nobody knows.
    assert_eq!(
        prepare(transaction_hash_bytes(b"nobody")),
        Err(TraceTransactionError::InvalidTxnHash)
    );
    // The pending block of an older version.
    assert_eq!(
        prepare_trace(
            &storage,
            StarknetVersion::new(0, 12, 2),
            &pending.transactions,
            TraceTransactionInput { transaction_hash: pending.transactions[2] },
        ),
        Ok(LocalExecution::Unsupported(pending.transactions[2]))
    );
}

#[test]
fn position_and_prefix() {
    let hashes: Vec<TransactionHash> =
        (0..5u64).map(|n| TransactionHash(Felt::from_u64(n % 3))).collect();
    assert_eq!(position(&hashes, TransactionHash(Felt::from_u64(1))), Some(1));
    assert_eq!(position(&hashes, TransactionHash(Felt::from_u64(0))), Some(0));
    assert_eq!(position(&hashes, TransactionHash(Felt::from_u64(9))), None);
    assert_eq!(up_to(&hashes, 2), hashes[..3].to_vec());
    assert_eq!(up_to(&hashes, 0), hashes[..1].to_vec());
}

#[test]
fn trace_errors_map() {
    assert_eq!(
        TraceTransactionError::from_state_error(ExecutionStateError::BlockNotFound),
        TraceTransactionError::Custom("Block not found".to_string())
    );
    assert_eq!(
        TraceTransactionError::from_state_error(ExecutionStateError::Internal("x".to_string())),
        TraceTransactionError::Internal("x".to_string())
    );
    assert_eq!(
        TraceTransactionError::from_execution_error(TransactionExecutionError::ExecutionError {
            transaction_index: 3,
            error: "boom".to_string(),
        }),
        TraceTransactionError::Custom(
            "Execution error at transaction index 3: boom".to_string()
        )
    );
    assert_eq!(
        TraceTransactionError::from_execution_error(TransactionExecutionError::Internal(
            "i".to_string()
        )),
        TraceTransactionError::Internal("i".to_string())
    );
    assert_eq!(
        TraceTransactionError::from_execution_error(TransactionExecutionError::Custom(
            "c".to_string()
        )),
        TraceTransactionError::Custom("c".to_string())
    );
    assert_eq!(
        TraceTransactionError::InvalidTxnHash.into_application_error(),
        ApplicationError::InvalidTxnHash
    );
    assert_eq!(
        TraceTransactionError::NoTraceAvailable(TraceError::Rejected).into_application_error(),
        ApplicationError::NoTraceAvailable(TraceError::Rejected)
    );
    assert_eq!(
        TraceTransactionError::Internal("i".to_string()).into_application_error(),
        ApplicationError::Internal("i".to_string())
    );
    assert_eq!(
        TraceTransactionError::Custom("c".to_string()).into_application_error(),
        ApplicationError::Custom("c".to_string())
    );
    let out = TraceTransactionOutput(TransactionTrace { encoded: vec![1, 2] });
    assert_eq!(out.0.encoded, vec![1, 2]);
}

#[test]
fn versions_are_read_with_semver() {
    assert_eq!(StarknetVersion::parse(""), Some(StarknetVersion::default()));
    assert_eq!(StarknetVersion::parse("0.12.3"), Some(StarknetVersion::new(0, 12, 3)));
    assert_eq!(
        StarknetVersion::parse("0.13.0-rc1"),
        Some(StarknetVersion { major: 0, minor: 13, patch: 0, pre_release: true })
    );
    assert_eq!(StarknetVersion::parse("0.13"), None);
    assert_eq!(StarknetVersion::parse("zero"), None);
    assert_eq!(StarknetVersion::from_parts(None), None);
    assert_eq!(
        StarknetVersion::from_parts(Some((1, 2, 3, false))),
        Some(StarknetVersion::new(1, 2, 3))
    );
}

fn pending_data() -> PendingData {
    PendingData {
        block: pending_block(),
        state_update: StateUpdate::default()
            .with_state_commitment(StateCommitment(felt_bytes(b"pending root"))),
    }
}

#[test]
fn calls_at_the_pending_block_are_made_on_the_latest() {
    let data = pending_data();
    let genesis = block_hash_bytes(b"genesis");
    assert_eq!(
        base_block_and_pending_for_call(RpcBlockId::Hash(genesis), &data),
        (BlockHashNumberOrLatest::Hash(genesis), None, None)
    );
    assert_eq!(
        base_block_and_pending_for_call(RpcBlockId::Number(BlockNumber::new_or_panic(3)), &data),
        (BlockHashNumberOrLatest::Number(BlockNumber::new_or_panic(3)), None, None)
    );
    assert_eq!(
        base_block_and_pending_for_call(RpcBlockId::Latest, &data),
        (BlockHashNumberOrLatest::Latest, None, None)
    );
    assert_eq!(
        base_block_and_pending_for_call(RpcBlockId::Pending, &data),
        (BlockHashNumberOrLatest::Latest, Some(data.block.timestamp), Some(data.state_update))
    );
}

#[test]
fn calls_at_a_tag_take_the_current_gas_price() {
    let data = pending_data();
    let genesis = block_hash_bytes(b"genesis");
    assert_eq!(
        prepare_handle_and_block(false, Some(GasPrice(1)), RpcBlockId::Latest, &data),
        Err(PrepareError::UnsupportedConfiguration)
    );
    assert_eq!(
        prepare_handle_and_block(true, None, RpcBlockId::Latest, &data),
        Err(PrepareError::GasPriceUnavailable)
    );
    assert_eq!(
        prepare_handle_and_block(true, None, RpcBlockId::Pending, &data),
        Err(PrepareError::GasPriceUnavailable)
    );
    assert_eq!(
        prepare_handle_and_block(true, None, RpcBlockId::Hash(genesis), &data),
        Ok((GasPriceSource::PastBlock, BlockHashNumberOrLatest::Hash(genesis), None, None))
    );
    assert_eq!(
        prepare_handle_and_block(true, Some(GasPrice(7)), RpcBlockId::Latest, &data),
        Ok((GasPriceSource::Current(GasPrice(7)), BlockHashNumberOrLatest::Latest, None, None))
    );
    assert_eq!(
        prepare_handle_and_block(true, Some(GasPrice(7)), RpcBlockId::Pending, &data),
        Ok((
            GasPriceSource::Current(GasPrice(7)),
            BlockHashNumberOrLatest::Latest,
            Some(data.block.timestamp),
            Some(data.state_update)
        ))
    );
}

#[test]
fn trace_of_a_transaction_without_its_block_is_an_internal_error() {
    let mut storage = for_tests();
    storage.insert_transaction(block_hash_bytes(b"gone"), transaction_hash_bytes(b"orphan"));
    let out = prepare_trace(
        &storage,
        StarknetVersion::new(0, 13, 0),
        &[],
        TraceTransactionInput { transaction_hash: transaction_hash_bytes(b"orphan") },
    );
    assert!(matches!(out, Err(TraceTransactionError::Internal(_))));
}
