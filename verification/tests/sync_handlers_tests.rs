use stark_node::common::{BlockCommitmentSignature, BlockHash, BlockNumber};
use stark_node::felt::Felt;
use stark_node::header::BlockHeader;
use stark_node::p2p_proto::{
    AccountSignature, Address, BlockId, BlockNumberOrHash, Direction, Fin, FinError, InvokeV1,
    Iteration, Step, Transaction, Transactions, TransactionsResponse,
    TransactionsResponseKind, WireError, WireResponses, WireTransaction,
};
use stark_node::storage::{Storage, StorageError};
use stark_node::sync_handlers::{
    frame_transactions, get_headers, plan_stream, BlockHeadersRequest, BlockHeadersResponsePart,
    MAX_BLOCKS_COUNT,
};

const I64_MAX: u64 = i64::MAX as u64;
const MAX_COUNT_IN_TESTS: u64 = 10;

fn check_next(start: u64, step: u64, direction: Direction, expected: Option<u64>) {
    assert_eq!(
        stark_node::sync_handlers::get_next_block_number(
            BlockNumber::new_or_panic(start),
            Step::new(Some(step)),
            direction
        ),
        expected.map(BlockNumber::new_or_panic)
    );
}

#[test]
fn get_next_block_number() {
    check_next(0, 1, Direction::Forward, Some(1));
    check_next(0, I64_MAX, Direction::Forward, Some(I64_MAX));
    check_next(1, I64_MAX, Direction::Forward, None);
    check_next(0, 1, Direction::Backward, None);
    check_next(1, 1, Direction::Backward, Some(0));
    check_next(I64_MAX, 1, Direction::Backward, Some(I64_MAX - 1));
    check_next(I64_MAX, I64_MAX, Direction::Backward, Some(0));
    check_next(I64_MAX, I64_MAX + 1, Direction::Backward, None);
}

#[test]
fn step_is_at_least_one() {
    assert_eq!(Step::new(None).into_inner(), 1);
    assert_eq!(Step::new(Some(0)).into_inner(), 1);
    assert_eq!(Step::new(Some(7)).into_inner(), 7);
    assert_eq!(Step::default().into_inner(), 1);
}

fn hash(n: u64) -> BlockHash {
    BlockHash(Felt::from_u64(500 + n))
}

fn with_n_blocks(n: u64) -> Storage {
    let mut storage = Storage::new();
    for i in 0..n {
        let parent = if i == 0 { BlockHash::zero() } else { hash(i - 1) };
        let header = BlockHeader::builder()
            .with_number(BlockNumber::new_or_panic(i))
            .with_parent_hash(parent)
            .finalize_with_hash(hash(i));
        storage.insert_block_header(&header).unwrap();
        storage.insert_signature(BlockNumber::new_or_panic(i), BlockCommitmentSignature::default());
    }
    storage
}

fn iteration(start: u64, limit: u64, step: u64, direction: Direction) -> Iteration {
    Iteration {
        start: BlockNumberOrHash::Number(start),
        direction,
        limit,
        step: Step::new(Some(step)),
    }
}

#[test]
fn zero_limit_yields_fin_ok_invalid_start_yields_fin_unknown() {
    let storage = Storage::new();
    for start in [0, 5, I64_MAX + 1] {
        let request = BlockHeadersRequest { iteration: iteration(start, 0, 1, Direction::Forward) };
        let response = get_headers(&storage, request, MAX_COUNT_IN_TESTS).unwrap();
        assert_eq!(response.parts, vec![BlockHeadersResponsePart::Fin(Fin::ok())]);
    }
    for start in [I64_MAX + 1, u64::MAX] {
        let request = BlockHeadersRequest { iteration: iteration(start, 3, 1, Direction::Forward) };
        let response = get_headers(&storage, request, MAX_COUNT_IN_TESTS).unwrap();
        assert_eq!(response.parts, vec![BlockHeadersResponsePart::Fin(Fin::unknown())]);
    }
    // The hash of no stored block.
    let by_hash = Iteration {
        start: BlockNumberOrHash::Hash(stark_node::p2p_proto::Hash(Felt::from_u64(1))),
        direction: Direction::Forward,
        limit: 3,
        step: Step::default(),
    };
    let plan = plan_stream(&storage, by_hash, MAX_COUNT_IN_TESTS);
    assert!(plan.blocks.is_empty());
    assert_eq!(plan.trailer, Some(Fin::unknown()));
}

#[test]
fn tests_test_get_headers() {
    // Partially successful requests end with an additional Fin::unknown().
    for direction in [Direction::Backward, Direction::Forward] {
        for limit in [2, 5, MAX_COUNT_IN_TESTS, MAX_COUNT_IN_TESTS * 2] {
            for step in [1, 2, 77] {
                let storage = with_n_blocks(1);
                let request =
                    BlockHeadersRequest { iteration: iteration(0, limit, step, direction) };
                let parts = get_headers(&storage, request, MAX_COUNT_IN_TESTS).unwrap().parts;
                assert_eq!(parts.len(), 4);
                match &parts[0] {
                    BlockHeadersResponsePart::Header(h) => assert_eq!(h.number.get(), 0),
                    other => panic!("unexpected part {:?}", other),
                }
                match &parts[1] {
                    BlockHeadersResponsePart::Signatures(n, s) => {
                        assert_eq!(n.get(), 0);
                        assert!(s.is_some());
                    }
                    other => panic!("unexpected part {:?}", other),
                }
                assert_eq!(parts[2], BlockHeadersResponsePart::Fin(Fin::ok()));
                // Expect Fin::unknown() where the first unavailable item would be
                assert_eq!(parts[3], BlockHeadersResponsePart::Fin(Fin::unknown()));
            }
        }
    }
}

#[test]
fn internally_limited_requests_end_with_additional_fin_too_much() {
    let blocks_in_storage = MAX_COUNT_IN_TESTS;
    for direction in [Direction::Backward, Direction::Forward] {
        for limit in [blocks_in_storage + 1, 1000, u64::MAX] {
            let storage = with_n_blocks(blocks_in_storage);
            let start = match direction {
                Direction::Forward => 0,
                Direction::Backward => blocks_in_storage - 1,
            };
            let request = BlockHeadersRequest { iteration: iteration(start, limit, 1, direction) };
            let parts = get_headers(&storage, request, MAX_COUNT_IN_TESTS).unwrap().parts;
            assert_eq!(parts.len(), blocks_in_storage as usize * 3 + 1);
            let chunked = parts.chunks_exact(3);
            let remainder = chunked.remainder();
            for chunk in chunked {
                assert!(matches!(chunk[0], BlockHeadersResponsePart::Header(_)));
                assert!(matches!(chunk[1], BlockHeadersResponsePart::Signatures(_, _)));
                assert_eq!(chunk[2], BlockHeadersResponsePart::Fin(Fin::ok()));
            }
            // Expect Fin::too_much() if all requested items were found up to the internal limit
            assert_eq!(remainder, &[BlockHeadersResponsePart::Fin(Fin::too_much())]);
        }
    }
}

#[test]
fn complete_stream_has_no_extra_trailer() {
    let storage = with_n_blocks(6);
    let request = BlockHeadersRequest { iteration: iteration(5, 3, 2, Direction::Backward) };
    let parts = get_headers(&storage, request, MAX_BLOCKS_COUNT).unwrap().parts;
    assert_eq!(parts.len(), 9);
    let numbers: Vec<u64> = parts
        .iter()
        .filter_map(|p| match p {
            BlockHeadersResponsePart::Header(h) => Some(h.number.get()),
            _ => None,
        })
        .collect();
    assert_eq!(numbers, vec![5, 3, 1]);
    // The headers come with their parents' hashes.
    match &parts[0] {
        BlockHeadersResponsePart::Header(h) => assert_eq!(h.parent_hash, hash(4)),
        other => panic!("unexpected part {:?}", other),
    }
    assert_eq!(parts[8], BlockHeadersResponsePart::Fin(Fin::ok()));
}

#[test]
fn start_by_hash() {
    let storage = with_n_blocks(4);
    let by_hash = Iteration {
        start: BlockNumberOrHash::Hash(stark_node::p2p_proto::Hash(hash(2).0)),
        direction: Direction::Forward,
        limit: 5,
        step: Step::default(),
    };
    let plan = plan_stream(&storage, by_hash, MAX_BLOCKS_COUNT);
    let numbers: Vec<u64> = plan.blocks.iter().map(|b| b.0.get()).collect();
    assert_eq!(numbers, vec![2, 3]);
    assert_eq!(plan.blocks[0].1, hash(2));
    assert_eq!(plan.trailer, Some(Fin::unknown()));
}

#[test]
fn header_above_a_hole_fails_the_stream() {
    let mut storage = with_n_blocks(2);
    let lonely = BlockHeader::builder()
        .with_number(BlockNumber::new_or_panic(5))
        .finalize_with_hash(hash(5));
    storage.insert_block_header(&lonely).unwrap();
    let request = BlockHeadersRequest { iteration: iteration(5, 1, 1, Direction::Forward) };
    assert_eq!(
        get_headers(&storage, request, MAX_BLOCKS_COUNT),
        Err(StorageError::MissingParent)
    );
}

fn some_transactions(n: u64) -> Transactions {
    Transactions {
        items: vec![Transaction::InvokeV1(InvokeV1 {
            sender: Address(Felt::from_u64(n)),
            max_fee: Felt::from_u64(1),
            signature: AccountSignature { parts: vec![] },
            nonce: Felt::from_u64(2),
            calldata: vec![Felt::from_u64(n)],
        })],
    }
}

#[test]
fn transactions_stream_is_framed_block_by_block() {
    let id = |n: u64| BlockId { number: n, hash: stark_node::p2p_proto::Hash(Felt::from_u64(n)) };
    let blocks = vec![(id(4), some_transactions(4)), (id(5), some_transactions(5))];
    let stream = frame_transactions(blocks, Some(Fin::unknown()));
    assert_eq!(stream.len(), 5);
    for (i, n) in [4u64, 5].iter().enumerate() {
        assert_eq!(stream[2 * i].id, Some(id(*n)));
        assert_eq!(
            stream[2 * i].kind.clone().into_transactions(),
            Some(some_transactions(*n))
        );
        assert_eq!(stream[2 * i + 1].id, Some(id(*n)));
        assert_eq!(stream[2 * i + 1].clone().into_fin(), Some(Fin::ok()));
        assert_eq!(stream[2 * i].clone().into_fin(), None);
    }
    assert_eq!(stream[4], TransactionsResponse::from(Fin::unknown()));
    assert_eq!(stream[4].id, None);
    assert_eq!(stream[4].kind.clone().into_fin().unwrap().error, Some(FinError::Unknown));

    assert!(frame_transactions(vec![], None).is_empty());
    assert_eq!(
        frame_transactions(vec![], Some(Fin::ok())),
        vec![TransactionsResponse::from(Fin::ok())]
    );
}

#[test]
fn wire_frames_round_trip() {
    let txn = some_transactions(1).items.remove(0);
    let frame = txn.clone().to_protobuf();
    assert_eq!(Transaction::try_from_protobuf(frame, "Transaction"), Ok(txn));
    assert_eq!(
        Transaction::try_from_protobuf(WireTransaction { txn: None }, "Transaction"),
        Err(WireError::MissingField {
            field: "txn".to_string(),
            message: "Transaction".to_string()
        })
    );
    let kind = TransactionsResponseKind::Fin(Fin::too_much());
    assert_eq!(kind.clone().to_protobuf(), WireResponses::Fin(Fin::too_much()));
    assert_eq!(
        TransactionsResponseKind::try_from_protobuf(kind.clone().to_protobuf(), "responses"),
        Ok(kind)
    );
    let kind = TransactionsResponseKind::Transactions(some_transactions(2));
    assert_eq!(
        TransactionsResponseKind::try_from_protobuf(kind.clone().to_protobuf(), "responses"),
        Ok(kind)
    );
}

// The blocks among 0..num_blocks that a request overlaps: every step-th
// from the start on, as many as the limit and the cap allow.
fn overlapping(
    start_block: u64,
    limit: u64,
    step: u64,
    num_blocks: u64,
    direction: Direction,
) -> Vec<u64> {
    let all: Vec<u64> = (0..num_blocks).collect();
    let take = std::cmp::min(limit, MAX_COUNT_IN_TESTS) as usize;
    match direction {
        Direction::Forward => {
            all.into_iter().skip(start_block as usize).step_by(step as usize).take(take).collect()
        }
        Direction::Backward => {
            if start_block >= num_blocks {
                return Vec::new();
            }
            all.into_iter()
                .take(start_block as usize + 1)
                .rev()
                .step_by(step as usize)
                .take(take)
                .collect()
        }
    }
}

#[test]
fn planned_blocks_are_the_overlap_of_request_and_store() {
    for num_blocks in [0u64, 1, 5, 12, 20] {
        let storage = with_n_blocks(num_blocks);
        for direction in [Direction::Forward, Direction::Backward] {
            for start in [0u64, 1, 4, 11, 19, 25] {
                for limit in [1u64, 2, 9, 10, 11, 40] {
                    for step in [1u64, 2, 3, 7] {
                        let plan = plan_stream(
                            &storage,
                            iteration(start, limit, step, direction),
                            MAX_COUNT_IN_TESTS,
                        );
                        let expected = overlapping(start, limit, step, num_blocks, direction);
                        let numbers: Vec<u64> = plan.blocks.iter().map(|b| b.0.get()).collect();
                        assert_eq!(
                            numbers, expected,
                            "{num_blocks} blocks, start {start}, limit {limit}, step {step}, \
                             {direction:?}"
                        );
                        let wanted = std::cmp::min(limit, MAX_COUNT_IN_TESTS) as usize;
                        let trailer = if expected.len() < wanted {
                            Some(Fin::unknown())
                        } else if limit > MAX_COUNT_IN_TESTS {
                            Some(Fin::too_much())
                        } else {
                            None
                        };
                        assert_eq!(plan.trailer, trailer);
                    }
                }
            }
        }
    }
}
