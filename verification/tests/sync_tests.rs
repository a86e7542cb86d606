use stark_node::common::{BlockCommitmentSignature, BlockHash, BlockId, BlockNumber};
use stark_node::felt::Felt;
use stark_node::header::{BlockHeader, SignedBlockHeader};
use stark_node::storage::{Storage, StorageError};
use stark_node::sync::{
    check_continuity, next_gap, persist, verify, HeaderGap, HeaderSyncError, PeerData, PeerId,
};

fn hash(n: u64) -> BlockHash {
    BlockHash(Felt::from_u64(1000 + n))
}

fn header(n: u64) -> BlockHeader {
    let parent = if n == 0 { BlockHash::zero() } else { hash(n - 1) };
    BlockHeader::builder()
        .with_number(BlockNumber::new_or_panic(n))
        .with_parent_hash(parent)
        .finalize_with_hash(hash(n))
}

fn from_peer(n: u64) -> PeerData<SignedBlockHeader> {
    PeerData {
        peer: PeerId(vec![7, 7]),
        data: SignedBlockHeader {
            header: header(n),
            signature: BlockCommitmentSignature::default(),
        },
    }
}

fn store_with(numbers: &[u64]) -> Storage {
    let mut storage = Storage::new();
    for n in numbers {
        storage.insert_block_header(&header(*n)).unwrap();
    }
    storage
}

#[test]
fn gap_at_head() {
    let storage = store_with(&[0, 1, 2]);
    let anchor_hash = BlockHash(Felt::from_u64(42));
    let gap = next_gap(&storage, BlockNumber::new_or_panic(10), anchor_hash).unwrap();
    assert_eq!(
        gap,
        HeaderGap {
            head: BlockNumber::new_or_panic(10),
            head_hash: anchor_hash,
            tail: BlockNumber::new_or_panic(3),
            tail_parent_hash: hash(2),
        }
    );
}

#[test]
fn no_gap_in_a_complete_chain() {
    let storage = store_with(&[0, 1, 2, 3]);
    assert_eq!(next_gap(&storage, BlockNumber::new_or_panic(3), hash(3)), None);
    assert_eq!(next_gap(&storage, BlockNumber::new_or_panic(1), hash(1)), None);
}

#[test]
fn gap_below_a_stored_anchor() {
    let storage = store_with(&[0, 1, 5, 6, 7]);
    let gap = next_gap(&storage, BlockNumber::new_or_panic(7), hash(7)).unwrap();
    assert_eq!(
        gap,
        HeaderGap {
            head: BlockNumber::new_or_panic(5),
            head_hash: hash(5),
            tail: BlockNumber::new_or_panic(2),
            tail_parent_hash: hash(1),
        }
    );
}

#[test]
fn gap_down_to_genesis() {
    let storage = Storage::new();
    let gap = next_gap(&storage, BlockNumber::new_or_panic(4), hash(4)).unwrap();
    assert_eq!(
        gap,
        HeaderGap {
            head: BlockNumber::new_or_panic(4),
            head_hash: hash(4),
            tail: BlockNumber::genesis(),
            tail_parent_hash: BlockHash::zero(),
        }
    );

    let storage = store_with(&[3, 4]);
    let gap = next_gap(&storage, BlockNumber::new_or_panic(4), hash(4)).unwrap();
    assert_eq!(
        gap,
        HeaderGap {
            head: BlockNumber::new_or_panic(3),
            head_hash: hash(3),
            tail: BlockNumber::genesis(),
            tail_parent_hash: BlockHash::zero(),
        }
    );
}

#[test]
fn continuity_accepts_a_chain() {
    let mut expected = (BlockNumber::new_or_panic(3), hash(2), false);
    for n in 3..6 {
        let out = check_continuity(&mut expected, from_peer(n));
        assert_eq!(out, Some(Ok(from_peer(n))));
        assert_eq!(expected, (BlockNumber::new_or_panic(n + 1), hash(n), false));
    }
}

#[test]
fn continuity_poisons_on_the_first_mismatch() {
    let mut expected = (BlockNumber::new_or_panic(3), hash(2), false);
    assert_eq!(check_continuity(&mut expected, from_peer(3)), Some(Ok(from_peer(3))));
    // Block 5 does not follow block 3.
    let out = check_continuity(&mut expected, from_peer(5));
    assert_eq!(out, Some(Err(HeaderSyncError::Discontinuity(from_peer(5)))));
    assert!(expected.2);
    // Everything after that is dropped, the right block too.
    assert_eq!(check_continuity(&mut expected, from_peer(4)), None);
    assert!(expected.2);
}

#[test]
fn continuity_checks_the_parent_hash() {
    let mut expected = (BlockNumber::new_or_panic(3), hash(99), false);
    let out = check_continuity(&mut expected, from_peer(3));
    assert_eq!(out, Some(Err(HeaderSyncError::Discontinuity(from_peer(3)))));
}

#[test]
fn continuity_ends_at_the_highest_number() {
    let top = BlockNumber::max();
    let mut item = from_peer(1);
    item.data.header.number = top;
    let mut expected = (top, item.data.header.parent_hash, false);
    let out = check_continuity(&mut expected, item.clone());
    assert_eq!(out, Some(Ok(item)));
    assert!(expected.2);
}

#[test]
fn verify_accepts_every_header() {
    assert_eq!(verify(from_peer(3)), Ok(from_peer(3)));
}

#[test]
fn error_names_its_peer() {
    let e = HeaderSyncError::BadSignature(from_peer(1));
    assert_eq!(e.peer_id_and_data(), Some(&from_peer(1)));
    assert_eq!(e.message(), "Signature verification failed");
    let e = HeaderSyncError::BadBlockHash(from_peer(2));
    assert_eq!(e.peer_id_and_data(), Some(&from_peer(2)));
    assert_eq!(e.message(), "Block hash verification failed");
    let e = HeaderSyncError::Discontinuity(from_peer(3));
    assert_eq!(e.peer_id_and_data(), Some(&from_peer(3)));
    assert_eq!(e.message(), "Discontinuity in header chain");
    let e = HeaderSyncError::DatabaseError(StorageError::DuplicateBlockHash);
    assert_eq!(e.peer_id_and_data(), None);
}

#[test]
fn persist_stores_the_batch_and_returns_the_highest() {
    let mut storage = store_with(&[0]);
    let batch = vec![from_peer(1), from_peer(3), from_peer(2)];
    let last = persist(batch, &mut storage).unwrap();
    assert_eq!(last, from_peer(3));
    for n in 0..4 {
        assert!(storage.block_exists(BlockId::Number(BlockNumber::new_or_panic(n))));
    }
    assert_eq!(
        storage.signature(BlockNumber::new_or_panic(2)),
        Some(BlockCommitmentSignature::default())
    );
    assert_eq!(storage.block_header(BlockId::Latest), Ok(Some(header(3))));
}

#[test]
fn persist_is_all_or_nothing() {
    let mut storage = store_with(&[0, 2]);
    let batch = vec![from_peer(1), from_peer(2), from_peer(3)];
    let out = persist(batch, &mut storage);
    assert_eq!(out, Err(HeaderSyncError::DatabaseError(StorageError::DuplicateBlockNumber)));
    assert!(!storage.block_exists(BlockId::Number(BlockNumber::new_or_panic(1))));
    assert!(!storage.block_exists(BlockId::Number(BlockNumber::new_or_panic(3))));
    assert_eq!(storage.signature(BlockNumber::new_or_panic(1)), None);
    assert!(storage.block_exists(BlockId::Number(BlockNumber::new_or_panic(2))));
}
