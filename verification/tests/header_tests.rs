use stark_node::common::{
    BlockHash, BlockNumber, ClassCommitment, StarknetVersion, StateCommitment,
    StorageCommitment,
};
use stark_node::felt::Felt;
use stark_node::header::{BlockHeader, SignedBlockHeader};

#[test]
fn builder_starts_blank() {
    let header = BlockHeader::builder().finalize_with_hash(BlockHash::zero());
    assert_eq!(header, BlockHeader::default());
}

#[test]
fn child_builder_links_to_the_parent() {
    let parent = BlockHeader::builder()
        .with_number(BlockNumber::new_or_panic(41))
        .finalize_with_hash(BlockHash(Felt::from_u64(9)));
    let child = parent.child_builder().finalize_with_hash(BlockHash(Felt::from_u64(10)));
    assert_eq!(child.number, BlockNumber::new_or_panic(42));
    assert_eq!(child.parent_hash, parent.hash);
    assert_eq!(child.transaction_count, 0);
}

#[test]
fn init_state_update_takes_hash_and_commitment() {
    let header = BlockHeader::builder()
        .with_state_commitment(StateCommitment(Felt::from_u64(5)))
        .finalize_with_hash(BlockHash(Felt::from_u64(9)));
    let update = header.init_state_update();
    assert_eq!(update.block_hash, header.hash);
    assert_eq!(update.state_commitment, header.state_commitment);
    assert_eq!(update.parent_state_commitment, StateCommitment::zero());
}

#[test]
fn state_commitment_before_and_from_0_11() {
    let storage = StorageCommitment(Felt::from_u64(3));
    let class = ClassCommitment(Felt::from_u64(4));
    let old = BlockHeader::builder()
        .with_storage_commitment(storage)
        .with_class_commitment(class)
        .with_starknet_version(StarknetVersion::new(0, 10, 3))
        .with_calculated_state_commitment()
        .finalize_with_hash(BlockHash::zero());
    assert_eq!(old.state_commitment, StateCommitment(storage.0));

    let new = BlockHeader::builder()
        .with_storage_commitment(storage)
        .with_class_commitment(class)
        .with_starknet_version(StarknetVersion::new(0, 11, 0))
        .with_calculated_state_commitment()
        .finalize_with_hash(BlockHash::zero());
    let expected = pathfinder_crypto::hash::pedersen_hash(
        pathfinder_crypto::Felt::from_u64(3),
        pathfinder_crypto::Felt::from_u64(4),
    );
    assert_eq!(new.state_commitment.0.to_be_bytes(), expected.to_be_bytes());
}

#[test]
fn stubs_accept() {
    assert!(SignedBlockHeader::default().verify_signature());
    assert!(BlockHeader::default().verify_hash());
}

#[test]
fn version_order() {
    let v = StarknetVersion::new(0, 12, 3);
    assert!(v.is_before_release(0, 13, 0));
    assert!(v.is_before_release(1, 0, 0));
    assert!(!v.is_before_release(0, 12, 3));
    assert!(!v.is_before_release(0, 11, 9));
    let pre = StarknetVersion { pre_release: true, ..v };
    assert!(pre.is_before_release(0, 12, 3));
}
