use stark_node::common::{
    BlockHash, BlockId, BlockNumber, BlockTimestamp, ClassCommitment, ClassHash, EventCommitment,
    GasPrice, SequencerAddress, StarknetVersion, StateCommitment, StorageCommitment,
    TransactionCommitment, TransactionHash,
};
use stark_node::felt::Felt;
use stark_node::header::BlockHeader;
use stark_node::storage::{Storage, StorageError};

fn felt_bytes(bytes: &[u8]) -> Felt {
    Felt::from_be_slice(bytes).unwrap()
}

fn block_hash_bytes(bytes: &[u8]) -> BlockHash {
    BlockHash(felt_bytes(bytes))
}

// A store filled with three headers.
fn setup() -> (Storage, Vec<BlockHeader>) {
    let mut storage = Storage::new();

    // The first header is written field by field so that every field is set
    // to a value of its own.
    let storage_commitment = StorageCommitment(felt_bytes(b"storage commitment genesis"));
    let class_commitment = ClassCommitment(felt_bytes(b"class commitment genesis"));

    let genesis = BlockHeader {
        hash: block_hash_bytes(b"genesis hash"),
        parent_hash: BlockHash::zero(),
        number: BlockNumber::genesis(),
        timestamp: BlockTimestamp::new_or_panic(10),
        eth_l1_gas_price: GasPrice(32),
        strk_l1_gas_price: GasPrice(33),
        sequencer_address: SequencerAddress(felt_bytes(b"sequencer address genesis")),
        starknet_version: StarknetVersion::default(),
        class_commitment,
        event_commitment: EventCommitment(felt_bytes(b"event commitment genesis")),
        state_commitment: StateCommitment::calculate(
            storage_commitment,
            class_commitment,
            StarknetVersion::default(),
        ),
        storage_commitment,
        transaction_commitment: TransactionCommitment(felt_bytes(b"tx commitment genesis")),
        transaction_count: 37,
        event_count: 40,
    };
    let header1 = genesis
        .child_builder()
        .with_timestamp(BlockTimestamp::new_or_panic(12))
        .with_eth_l1_gas_price(GasPrice(34))
        .with_strk_l1_gas_price(GasPrice(35))
        .with_sequencer_address(SequencerAddress(felt_bytes(b"sequencer address 1")))
        .with_event_commitment(EventCommitment(felt_bytes(b"event commitment 1")))
        .with_class_commitment(ClassCommitment(felt_bytes(b"class commitment 1")))
        .with_storage_commitment(StorageCommitment(felt_bytes(b"storage commitment 1")))
        .with_calculated_state_commitment()
        .with_transaction_commitment(TransactionCommitment(felt_bytes(b"tx commitment 1")))
        .finalize_with_hash(block_hash_bytes(b"block 1 hash"));

    let header2 = header1
        .child_builder()
        .with_eth_l1_gas_price(GasPrice(38))
        .with_strk_l1_gas_price(GasPrice(39))
        .with_timestamp(BlockTimestamp::new_or_panic(15))
        .with_sequencer_address(SequencerAddress(felt_bytes(b"sequencer address 2")))
        .with_event_commitment(EventCommitment(felt_bytes(b"event commitment 2")))
        .with_class_commitment(ClassCommitment(felt_bytes(b"class commitment 2")))
        .with_storage_commitment(StorageCommitment(felt_bytes(b"storage commitment 2")))
        .with_calculated_state_commitment()
        .with_transaction_commitment(TransactionCommitment(felt_bytes(b"tx commitment 2")))
        .finalize_with_hash(block_hash_bytes(b"block 2 hash"));

    let headers = vec![genesis, header1, header2];
    for header in &headers {
        storage.insert_block_header(header).unwrap();
    }
    (storage, headers)
}

#[test]
fn get_latest() {
    let (storage, headers) = setup();

    let result = storage.block_header(BlockId::Latest).unwrap().unwrap();
    let expected = headers.last().unwrap();

    assert_eq!(&result, expected);
}

#[test]
fn get_by_number() {
    let (storage, headers) = setup();

    for header in &headers {
        let result = storage.block_header(BlockId::Number(header.number)).unwrap().unwrap();
        assert_eq!(&result, header);
    }

    let past_head = headers.last().unwrap().number.checked_add(1).unwrap();
    let result = storage.block_header(BlockId::Number(past_head)).unwrap();
    assert_eq!(result, None);
}

#[test]
fn get_by_hash() {
    let (storage, headers) = setup();

    for header in &headers {
        let result = storage.block_header(BlockId::Hash(header.hash)).unwrap().unwrap();
        assert_eq!(&result, header);
    }

    let invalid = block_hash_bytes(b"invalid block hash");
    let result = storage.block_header(BlockId::Hash(invalid)).unwrap();
    assert_eq!(result, None);
}

#[test]
fn purge_block() {
    let (mut storage, headers) = setup();
    let latest = headers.last().unwrap();

    // A class declared by the block: purging the block takes its link to
    // the block away.
    let cairo_hash = ClassHash(Felt::from_u64(0x1234));
    storage.insert_class_definition(cairo_hash, Some(latest.number));
    assert!(storage.class_is_declared_at(latest.number, cairo_hash));

    storage.purge_block(latest.number);

    let exists = storage.block_exists(BlockId::Number(latest.number));
    assert!(!exists);

    let class_exists = storage.class_is_declared_at(latest.number, cairo_hash);
    assert!(!class_exists);
    // The class itself stays.
    assert!(storage.class_is_stored(cairo_hash));
}

#[test]
fn block_id() {
    let (storage, headers) = setup();

    let target = headers.last().unwrap();
    let expected = Some((target.number, target.hash));

    let by_number = storage.block_id(BlockId::Number(target.number));
    assert_eq!(by_number, expected);

    let by_hash = storage.block_id(BlockId::Hash(target.hash));
    assert_eq!(by_hash, expected);

    let latest = storage.block_id(BlockId::Latest);
    assert_eq!(latest, expected);
}

#[test]
fn block_is_l1_accepted() {
    let (mut storage, headers) = setup();

    // Mark the genesis header as L1 accepted.
    storage.update_l1_l2_pointer(Some(headers[0].number));

    let l1_by_hash = storage.block_is_l1_accepted(BlockId::Hash(headers[0].hash));
    assert!(l1_by_hash);
    let l1_by_number = storage.block_is_l1_accepted(BlockId::Number(headers[0].number));
    assert!(l1_by_number);

    // The second block will therefore be L2 accepted.
    let l2_by_hash = storage.block_is_l1_accepted(BlockId::Hash(headers[1].hash));
    assert!(!l2_by_hash);
    let l2_by_number = storage.block_is_l1_accepted(BlockId::Number(headers[1].number));
    assert!(!l2_by_number);
}

#[test]
fn block_empty_chain_returns_none() {
    let storage = Storage::new();

    let result = storage.next_ancestor(BlockNumber::new_or_panic(10));
    assert!(result.is_none());

    let result = storage.next_ancestor(BlockNumber::genesis());
    assert!(result.is_none());
}

#[test]
fn father_exists() {
    let (storage, headers) = setup();

    let result = storage.next_ancestor(headers[2].number.checked_add(1).unwrap()).unwrap();
    let expected = (headers[2].number, headers[2].hash);
    assert_eq!(result, expected);
}

#[test]
fn grandfather_exists() {
    let (storage, headers) = setup();

    let result = storage.next_ancestor(headers[2].number.checked_add(2).unwrap()).unwrap();
    let expected = (headers[2].number, headers[2].hash);
    assert_eq!(result, expected);
}

#[test]
fn gap_in_chain() {
    let mut storage = Storage::new();

    let genesis = BlockHeader::default();
    storage.insert_block_header(&genesis).unwrap();

    let header_after_gap = genesis
        .child_builder()
        .finalize_with_hash(block_hash_bytes(b"skipped"))
        .child_builder()
        .finalize_with_hash(block_hash_bytes(b"expected"));

    storage.insert_block_header(&header_after_gap).unwrap();

    let result = storage.next_ancestor(header_after_gap.number.checked_add(1).unwrap()).unwrap();
    let expected = (header_after_gap.number, header_after_gap.hash);
    assert_eq!(result, expected);
}

#[test]
fn without_parent_empty_chain_returns_none() {
    let storage = Storage::new();

    let result = storage.next_ancestor_without_parent(BlockNumber::new_or_panic(10));
    assert!(result.is_none());

    let result = storage.next_ancestor_without_parent(BlockNumber::genesis());
    assert!(result.is_none());
}

#[test]
fn target_without_parent_returns_target() {
    let mut storage = Storage::new();

    let genesis = BlockHeader::default();

    let header_after_gap = genesis
        .child_builder()
        .finalize_with_hash(block_hash_bytes(b"skipped"))
        .child_builder()
        .finalize_with_hash(block_hash_bytes(b"expected"));

    storage.insert_block_header(&genesis).unwrap();
    storage.insert_block_header(&header_after_gap).unwrap();

    let expected = (genesis.number, genesis.hash);
    let result = storage.next_ancestor_without_parent(genesis.number).unwrap();
    assert_eq!(result, expected);

    let expected = (header_after_gap.number, header_after_gap.hash);
    let result = storage.next_ancestor_without_parent(header_after_gap.number).unwrap();
    assert_eq!(result, expected);
}

#[test]
fn missing_target_is_skipped() {
    let (storage, headers) = setup();

    let target = headers
        .last()
        .unwrap()
        .child_builder()
        .finalize_with_hash(block_hash_bytes(b"target"));

    let expected = (headers[0].number, headers[0].hash);
    let result = storage.next_ancestor_without_parent(target.number).unwrap();
    assert_eq!(result, expected);
}

#[test]
fn complete_chain_returns_genesis() {
    let (storage, headers) = setup();

    let result = storage.next_ancestor_without_parent(BlockNumber::genesis()).unwrap();
    let expected = (headers[0].number, headers[0].hash);
    assert_eq!(result, expected);
}

#[test]
fn incomplete_chain_returns_tail() {
    let (mut storage, headers) = setup();

    let tail = headers
        .last()
        .unwrap()
        .child_builder()
        .finalize_with_hash(block_hash_bytes(b"skipped"))
        .child_builder()
        .finalize_with_hash(block_hash_bytes(b"tail"));
    let target = tail.child_builder().finalize_with_hash(block_hash_bytes(b"target"));
    storage.insert_block_header(&tail).unwrap();
    storage.insert_block_header(&target).unwrap();

    let result = storage.next_ancestor_without_parent(target.number).unwrap();
    let expected = (tail.number, tail.hash);
    assert_eq!(result, expected);
}

#[test]
fn insert_refuses_a_taken_number_or_hash() {
    let (mut storage, headers) = setup();

    let same_number = BlockHeader { hash: block_hash_bytes(b"another"), ..headers[1] };
    assert_eq!(
        storage.insert_block_header(&same_number),
        Err(StorageError::DuplicateBlockNumber)
    );

    let same_hash =
        BlockHeader { number: BlockNumber::new_or_panic(7), ..headers[1] };
    assert_eq!(storage.insert_block_header(&same_hash), Err(StorageError::DuplicateBlockHash));

    let too_many = BlockHeader {
        number: BlockNumber::new_or_panic(8),
        hash: block_hash_bytes(b"eight"),
        transaction_count: usize::MAX,
        ..headers[1]
    };
    assert_eq!(storage.insert_block_header(&too_many), Err(StorageError::CountOutOfRange));

    // Nothing was stored by the refused calls.
    assert!(!storage.block_exists(BlockId::Number(BlockNumber::new_or_panic(7))));
    assert!(!storage.block_exists(BlockId::Number(BlockNumber::new_or_panic(8))));
    assert!(!storage.block_exists(BlockId::Hash(block_hash_bytes(b"another"))));
}

#[test]
fn header_above_a_hole_has_no_parent_to_read() {
    let mut storage = Storage::new();
    let genesis = BlockHeader::default();
    let above = genesis
        .child_builder()
        .finalize_with_hash(block_hash_bytes(b"skipped"))
        .child_builder()
        .finalize_with_hash(block_hash_bytes(b"above"));
    storage.insert_block_header(&genesis).unwrap();
    storage.insert_block_header(&above).unwrap();

    assert_eq!(
        storage.block_header(BlockId::Number(above.number)),
        Err(StorageError::MissingParent)
    );
    assert_eq!(storage.block_header(BlockId::Number(genesis.number)), Ok(Some(genesis)));
}

#[test]
fn purge_takes_every_row_of_the_block() {
    let (mut storage, headers) = setup();
    let target = headers[2];
    let other = headers[1];
    let tx_a = TransactionHash(Felt::from_u64(1));
    let tx_b = TransactionHash(Felt::from_u64(2));
    storage.insert_transaction(target.hash, tx_a);
    storage.insert_transaction(other.hash, tx_b);
    storage.insert_storage_root(target.number, Some(5));
    storage.insert_storage_root(other.number, Some(4));
    storage.insert_class_root(target.number, Some(3));

    storage.purge_block(target.number);

    assert_eq!(storage.transaction_block_hash(tx_a), None);
    assert_eq!(storage.transaction_block_hash(tx_b), Some(other.hash));
    // The root at the purged block is now the one of the block before.
    assert_eq!(storage.storage_root_index(target.number), Some(4));
    assert_eq!(storage.storage_root_index(other.number), Some(4));
    assert_eq!(storage.storage_root_index(headers[0].number), None);
    assert_eq!(storage.class_root_index(target.number), None);
    assert_eq!(storage.block_id(BlockId::Latest), Some((other.number, other.hash)));
}

#[test]
fn purging_the_only_block_empties_the_headers() {
    let mut storage = Storage::new();
    let genesis = BlockHeader::default();
    storage.insert_block_header(&genesis).unwrap();
    storage.purge_block(genesis.number);
    assert!(!storage.block_exists(BlockId::Latest));
    assert_eq!(storage.block_id(BlockId::Latest), None);
}

#[test]
fn roots_are_read_as_of_the_last_block_up_to_the_asked_one() {
    let mut storage = Storage::new();
    let block = |n: u64| BlockNumber::new_or_panic(n);
    storage.insert_storage_root(block(2), Some(20));
    storage.insert_storage_root(block(5), Some(50));
    storage.insert_storage_root(block(3), None);
    storage.insert_storage_root(block(5), Some(51));
    assert_eq!(storage.storage_root_index(block(1)), None);
    assert_eq!(storage.storage_root_index(block(2)), Some(20));
    assert_eq!(storage.storage_root_index(block(3)), None);
    assert_eq!(storage.storage_root_index(block(4)), None);
    assert_eq!(storage.storage_root_index(block(5)), Some(51));
    assert_eq!(storage.storage_root_index(block(9)), Some(51));
}
