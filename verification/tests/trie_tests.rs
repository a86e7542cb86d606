use stark_node::common::{
    BlockNumber, ClassHash, ContractAddress, ContractNonce, ContractRoot, ContractStateHash,
    StorageAddress, StorageValue,
};
use stark_node::contract::{
    calculate_contract_state_hash, update_contract_state, update_storage_commitment,
    ContractUpdate, ContractsStorageTree, StorageCommitmentTree, TrieError,
};
use stark_node::felt::Felt;
use stark_node::merkle_proof::{get_proof, verify_proof, Membership, TrieNode};
use stark_node::merkle_node::InternalNode;
use stark_node::merkle_tree::{
    verify_loaded, verify_stored, MerkleTree, NodeSummary, NodeVisit, Visit, Visited, VisitedNode,
};
use std::ops::ControlFlow;
use stark_node::storage::Storage;
use stark_node::trie_store::{NewNode, StoredNode, TrieStore, TrieStoreError};

fn felt(hex: &str) -> Felt {
    let digits = hex.trim_start_matches("0x");
    let padded = format!("{:0>64}", digits);
    let mut bytes = [0u8; 32];
    for i in 0..32 {
        bytes[i] = u8::from_str_radix(&padded[2 * i..2 * i + 2], 16).unwrap();
    }
    Felt::from_be_bytes(bytes).unwrap()
}

fn theirs(f: Felt) -> pathfinder_crypto::Felt {
    pathfinder_crypto::Felt::from_be_bytes(f.to_be_bytes()).unwrap()
}

fn ours(f: pathfinder_crypto::Felt) -> Felt {
    Felt::from_be_bytes(f.to_be_bytes()).unwrap()
}

fn pedersen(a: Felt, b: Felt) -> Felt {
    ours(pathfinder_crypto::hash::pedersen_hash(theirs(a), theirs(b)))
}

// The hash of an edge, computed with the crypto crate alone.
fn edge(child: Felt, path_value: u64, length: u64) -> Felt {
    let h = pathfinder_crypto::hash::pedersen_hash(
        theirs(child),
        pathfinder_crypto::Felt::from_u64(path_value),
    );
    ours(h + pathfinder_crypto::Felt::from_u64(length))
}

fn key(n: u64) -> Vec<bool> {
    Felt::from_u64(n).to_bits()
}

#[test]
fn contract_state_hash_known_value() {
    let root = ContractRoot(felt(
        "0x4fb440e8ca9b74fc12a22ebffe0bc0658206337897226117b985434c239c028",
    ));
    let hash = ClassHash(felt(
        "0x2ff4903e17f87b298ded00c44bfeb22874c5f73be2ced8f1d9d9556fb509779",
    ));
    let nonce = ContractNonce::zero();
    let expected = ContractStateHash(felt(
        "0x7161b591c893836263a64f2a7e0d829c92f6956148a60ce5e99a3f55c7973f3",
    ));
    assert_eq!(calculate_contract_state_hash(hash, root, nonce), expected);
}

#[test]
fn contract_state_hash_formula() {
    let class = Felt::from_u64(11);
    let root = Felt::from_u64(22);
    let nonce = Felt::from_u64(33);
    let expected = pedersen(pedersen(pedersen(class, root), nonce), Felt::zero());
    assert_eq!(
        calculate_contract_state_hash(ClassHash(class), ContractRoot(root), ContractNonce(nonce)),
        ContractStateHash(expected)
    );
}

#[test]
fn key_is_the_251_low_bits() {
    let bits = Felt::from_u64(5).to_bits();
    assert_eq!(bits.len(), 251);
    assert!(bits[250] && !bits[249] && bits[248]);
    assert!(bits[..248].iter().all(|b| !b));
    assert_eq!(Felt::from_bits(&bits), Felt::from_u64(5));
    // The same bits as the crypto crate's view of the element.
    let view = pathfinder_crypto::Felt::from_u64(5);
    let theirs: Vec<bool> = view.view_bits().iter().map(|b| *b).collect();
    assert_eq!(bits, theirs);
}

#[test]
fn empty_trie_has_root_zero() {
    let mut store = TrieStore::new();
    let update = MerkleTree::empty().commit(&mut store);
    assert_eq!(update.root, Felt::zero());
    assert_eq!(update.root_index, None);
    assert!(update.nodes.is_empty());
    assert_eq!(store.len(), 0);
}

#[test]
fn single_leaf_is_one_edge() {
    let mut store = TrieStore::new();
    let mut tree = MerkleTree::empty();
    tree.set(key(1), Felt::from_u64(2));
    let update = tree.commit(&mut store);
    // An edge of 251 bits with the number 1, to the leaf 2.
    assert_eq!(update.root, edge(Felt::from_u64(2), 1, 251));
    assert_eq!(update.root_index, Some(0));
    assert_eq!(update.nodes.len(), 1);
    assert_eq!(update.nodes[0].0, update.root);
    assert_eq!(update.nodes[0].1, StoredNode::LeafEdge { path: key(1) });
    assert_eq!(store.leaf(0, false), Some(Felt::from_u64(2)));
}

#[test]
fn two_neighbours_share_an_edge() {
    let mut store = TrieStore::new();
    let mut tree = MerkleTree::empty();
    tree.set(key(0), Felt::from_u64(7));
    tree.set(key(1), Felt::from_u64(9));
    let update = tree.commit(&mut store);
    let binary = pedersen(Felt::from_u64(7), Felt::from_u64(9));
    assert_eq!(update.root, edge(binary, 0, 250));
    assert_eq!(update.nodes.len(), 2);
    assert_eq!(update.nodes[0].1, StoredNode::LeafBinary);
    assert_eq!(update.nodes[0].0, binary);
    assert_eq!(store.leaf(0, false), Some(Felt::from_u64(7)));
    assert_eq!(store.leaf(0, true), Some(Felt::from_u64(9)));
}

#[test]
fn two_far_keys_split_at_the_top() {
    let mut store = TrieStore::new();
    let mut tree = MerkleTree::empty();
    // The keys 0 and 2^250 differ in their first bit.
    let mut high = vec![false; 251];
    high[0] = true;
    tree.set(key(0), Felt::from_u64(3));
    tree.set(high.clone(), Felt::from_u64(4));
    let update = tree.commit(&mut store);
    let left = edge(Felt::from_u64(3), 0, 250);
    let right = edge(Felt::from_u64(4), 0, 250);
    assert_eq!(update.root, pedersen(left, right));
    assert_eq!(update.nodes.len(), 3);
}

#[test]
fn order_of_sets_does_not_change_the_root() {
    let pairs: Vec<(u64, u64)> = vec![(1, 10), (2, 20), (3, 30), (900, 40), (u64::MAX, 50)];
    let mut roots = Vec::new();
    for rotation in 0..pairs.len() {
        let mut store = TrieStore::new();
        let mut tree = MerkleTree::empty();
        for i in 0..pairs.len() {
            let (k, v) = pairs[(i + rotation) % pairs.len()];
            tree.set(key(k), Felt::from_u64(v));
        }
        roots.push(tree.commit(&mut store).root);
    }
    assert!(roots.iter().all(|r| *r == roots[0]));
    assert_ne!(roots[0], Felt::zero());
}

#[test]
fn setting_zero_deletes() {
    let mut store = TrieStore::new();
    let mut with_two = MerkleTree::empty();
    with_two.set(key(1), Felt::from_u64(10));
    with_two.set(key(2), Felt::from_u64(20));
    let two = with_two.commit(&mut store);

    // Add a third key, then take it out again.
    let mut tree = MerkleTree::new(two.root_index.unwrap());
    tree.set(key(3), Felt::from_u64(30));
    let three = tree.commit(&mut store);
    assert_ne!(three.root, two.root);
    let mut tree = MerkleTree::new(three.root_index.unwrap());
    tree.set(key(3), Felt::zero());
    let back = tree.commit(&mut store);
    assert_eq!(back.root, two.root);

    // A key set and deleted in one go leaves no trace.
    let mut store = TrieStore::new();
    let mut tree = MerkleTree::empty();
    tree.set(key(5), Felt::from_u64(1));
    tree.set(key(5), Felt::zero());
    let update = tree.commit(&mut store);
    assert_eq!(update.root, Felt::zero());
    assert_eq!(update.root_index, None);
}

#[test]
fn get_reads_pending_and_stored_values() {
    let mut store = TrieStore::new();
    let mut tree = MerkleTree::empty();
    tree.set(key(1), Felt::from_u64(10));
    tree.set(key(2), Felt::from_u64(20));
    assert_eq!(tree.get(&store, &key(1)), Some(Felt::from_u64(10)));
    assert_eq!(tree.get(&store, &key(3)), None);
    let update = tree.commit(&mut store);

    let mut tree = MerkleTree::new(update.root_index.unwrap());
    assert_eq!(tree.get(&store, &key(1)), Some(Felt::from_u64(10)));
    assert_eq!(tree.get(&store, &key(2)), Some(Felt::from_u64(20)));
    assert_eq!(tree.get(&store, &key(3)), None);
    tree.set(key(2), Felt::from_u64(21));
    tree.set(key(1), Felt::zero());
    assert_eq!(tree.get(&store, &key(2)), Some(Felt::from_u64(21)));
    assert_eq!(tree.get(&store, &key(1)), None);
}

#[test]
fn unchanged_nodes_are_reused() {
    let mut store = TrieStore::new();
    let mut tree = MerkleTree::empty();
    let mut high = vec![false; 251];
    high[0] = true;
    tree.set(key(0), Felt::from_u64(3));
    tree.set(high.clone(), Felt::from_u64(4));
    let first = tree.commit(&mut store);
    assert_eq!(store.len(), 3);

    // Changing the right half leaves the left half as it is stored.
    let mut tree = MerkleTree::new(first.root_index.unwrap()).with_verify_hashes(true);
    tree.set(high, Felt::from_u64(5));
    let second = tree.commit(&mut store);
    assert_eq!(second.nodes.len(), 2);
    assert_eq!(store.len(), 5);
    match store.get(second.root_index.unwrap()) {
        Some(StoredNode::Binary { left, .. }) => {
            assert_eq!(store.hash(left), Some(edge(Felt::from_u64(3), 0, 250)));
            assert!(left < 3);
        }
        other => panic!("the root is {:?}", other),
    }
}

#[test]
fn proof_replays_to_the_value() {
    let mut store = TrieStore::new();
    let mut tree = MerkleTree::empty();
    for (k, v) in [(1u64, 10u64), (2, 20), (3, 30), (1 << 40, 40)] {
        tree.set(key(k), Felt::from_u64(v));
    }
    let update = tree.commit(&mut store);
    let root = update.root_index.unwrap();

    for (k, v) in [(1u64, 10u64), (2, 20), (3, 30), (1 << 40, 40)] {
        let proof = get_proof(&store, root, &key(k));
        assert!(!proof.is_empty());
        assert_eq!(proof[0].hash(), update.root);
        assert_eq!(
            verify_proof(update.root, &key(k), &proof),
            Some(Membership::Member(Felt::from_u64(v)))
        );
    }
    // A key that is not there.
    let proof = get_proof(&store, root, &key(77));
    assert_eq!(verify_proof(update.root, &key(77), &proof), Some(Membership::NonMember));
    // A proof does not fit another root or another key's value.
    let proof = get_proof(&store, root, &key(1));
    assert_eq!(verify_proof(Felt::from_u64(1), &key(1), &proof), None);
    assert_ne!(
        verify_proof(update.root, &key(2), &proof),
        Some(Membership::Member(Felt::from_u64(20)))
    );
}

#[test]
fn proof_of_a_single_leaf() {
    let mut store = TrieStore::new();
    let mut tree = MerkleTree::empty();
    tree.set(key(1), Felt::from_u64(2));
    let update = tree.commit(&mut store);
    let proof = get_proof(&store, 0, &key(1));
    assert_eq!(proof, vec![TrieNode::Edge { child: Felt::from_u64(2), path: key(1) }]);
    assert_eq!(
        verify_proof(update.root, &key(1), &proof),
        Some(Membership::Member(Felt::from_u64(2)))
    );
    // The empty trie proves that nothing is there.
    assert_eq!(verify_proof(Felt::zero(), &key(1), &[]), Some(Membership::NonMember));
}

#[test]
fn store_refuses_nodes_that_do_not_fit() {
    let mut store = TrieStore::new();
    assert_eq!(store.push_binary(0, 1), Err(TrieStoreError::MissingNode));
    assert_eq!(
        store.push_leaf_binary(Felt::zero(), Felt::from_u64(1)),
        Err(TrieStoreError::ZeroLeaf)
    );
    assert_eq!(store.push_leaf_edge(vec![], Felt::from_u64(1)), Err(TrieStoreError::EmptyPath));
    assert_eq!(
        store.push_leaf_edge(vec![true; 252], Felt::from_u64(1)),
        Err(TrieStoreError::TooHigh)
    );
    let a = store.push_leaf_binary(Felt::from_u64(1), Felt::from_u64(2)).unwrap();
    let e = store.push_leaf_edge(vec![true, false], Felt::from_u64(3)).unwrap();
    assert_eq!(store.push_binary(a, e), Err(TrieStoreError::HeightMismatch));
    assert_eq!(store.push_edge(e, vec![true]), Err(TrieStoreError::EdgeBelowEdge));
    assert_eq!(store.push_edge(a, vec![]), Err(TrieStoreError::EmptyPath));
    assert_eq!(store.push_edge(a, vec![true; 251]), Err(TrieStoreError::TooHigh));
    assert_eq!(store.push_edge(9, vec![true]), Err(TrieStoreError::MissingNode));
    let top = store.push_edge(a, vec![false]).unwrap();
    assert_eq!(store.height(top), Some(2));
    assert_eq!(store.len(), 3);
}

#[test]
fn contract_and_global_tries_through_the_store() {
    let mut storage = Storage::new();
    let contract = ContractAddress(Felt::from_u64(0x1234));
    let block = BlockNumber::new_or_panic(3);

    let mut tree = ContractsStorageTree::empty(contract);
    tree.set(StorageAddress(Felt::from_u64(1)), StorageValue(Felt::from_u64(100)));
    tree.set(StorageAddress(Felt::from_u64(2)), StorageValue(Felt::from_u64(200)));
    let (root, index, nodes) = tree.commit(&mut storage);
    assert!(!nodes.is_empty());
    storage.insert_contract_root(block, contract, index);

    let loaded = ContractsStorageTree::load(&storage, contract, block).unwrap();
    assert_eq!(
        loaded.get(&storage, &StorageAddress(Felt::from_u64(2))),
        Some(StorageValue(Felt::from_u64(200)))
    );
    assert_eq!(loaded.get(&storage, &StorageAddress(Felt::from_u64(3))), None);
    let (same_root, same_index, no_nodes) = loaded.commit(&mut storage);
    assert_eq!(same_root, root);
    assert_eq!(same_index, index);
    assert!(no_nodes.is_empty());

    let proof = ContractsStorageTree::get_proof(&storage, contract, block, &key(1)).unwrap();
    assert_eq!(
        verify_proof(root.0, &key(1), &proof),
        Some(Membership::Member(Felt::from_u64(100)))
    );
    // No root is named up to an earlier block: the trie is empty there.
    let earlier = BlockNumber::new_or_panic(2);
    assert!(ContractsStorageTree::get_proof(&storage, contract, earlier, &key(1))
        .unwrap()
        .is_empty());
    // A later block that does not touch the contract has the same trie.
    let later = BlockNumber::new_or_panic(9);
    assert_eq!(
        ContractsStorageTree::get_proof(&storage, contract, later, &key(1)).unwrap(),
        proof
    );

    let state_hash = calculate_contract_state_hash(
        ClassHash(Felt::from_u64(5)),
        root,
        ContractNonce(Felt::from_u64(1)),
    );
    let mut global = StorageCommitmentTree::load(&storage, block).unwrap();
    global.set(contract, state_hash);
    assert_eq!(global.get(&storage, &contract), Some(state_hash));
    let (commitment, global_index, _) = global.commit(&mut storage);
    storage.insert_storage_root(block, global_index);
    assert_eq!(commitment.0, edge(state_hash.0, 0x1234, 251));

    let proof = StorageCommitmentTree::get_proof(&storage, block, &contract).unwrap();
    assert_eq!(
        verify_proof(commitment.0, &contract.0.to_bits(), &proof),
        Some(Membership::Member(state_hash.0))
    );
}

#[test]
fn load_refuses_a_root_that_is_not_stored() {
    let mut storage = Storage::new();
    let block = BlockNumber::new_or_panic(1);
    storage.insert_storage_root(block, Some(17));
    assert!(matches!(
        StorageCommitmentTree::load(&storage, block),
        Err(TrieError::MissingRoot)
    ));
    let contract = ContractAddress(Felt::from_u64(1));
    storage.insert_contract_root(block, contract, Some(3));
    assert!(matches!(
        ContractsStorageTree::load(&storage, contract, block),
        Err(TrieError::MissingRoot)
    ));
}

#[test]
fn walk_goes_through_every_node_in_order() {
    let mut store = TrieStore::new();
    let mut tree = MerkleTree::empty();
    assert!(tree.dfs_nodes(&store).is_empty());
    let mut high = vec![false; 251];
    high[0] = true;
    tree.set(key(0), Felt::from_u64(3));
    tree.set(key(1), Felt::from_u64(4));
    tree.set(high.clone(), Felt::from_u64(5));
    let visited = tree.dfs_nodes(&store);
    // The root, the edge on the left to the pair of leaves, the pair, its
    // two leaves, the edge on the right, its leaf.
    let left_edge: Vec<bool> = vec![false; 249];
    let mut pair_path = vec![false];
    pair_path.extend_from_slice(&left_edge);
    let expected = vec![
        Visited { path: vec![], node: VisitedNode::Binary },
        Visited { path: vec![false], node: VisitedNode::Edge { path: left_edge } },
        Visited { path: pair_path.clone(), node: VisitedNode::Binary },
        Visited { path: key(0), node: VisitedNode::Leaf(Felt::from_u64(3)) },
        Visited { path: key(1), node: VisitedNode::Leaf(Felt::from_u64(4)) },
        Visited { path: vec![true], node: VisitedNode::Edge { path: vec![false; 250] } },
        Visited { path: high.clone(), node: VisitedNode::Leaf(Felt::from_u64(5)) },
    ];
    assert_eq!(visited, expected);
    // The walk is the same after the trie was stored and loaded.
    let update = tree.commit(&mut store);
    let mut loaded = MerkleTree::new(update.root_index.unwrap());
    assert_eq!(loaded.dfs_nodes(&store), expected);
}

#[test]
fn contract_state_is_brought_up_to_date() {
    let mut storage = Storage::new();
    let contract = ContractAddress(Felt::from_u64(0x99));
    let block0 = BlockNumber::genesis();
    let block1 = BlockNumber::new_or_panic(1);
    let class = ClassHash(Felt::from_u64(5));

    // The first block writes two cells.
    let writes = vec![
        (StorageAddress(Felt::from_u64(1)), StorageValue(Felt::from_u64(100))),
        (StorageAddress(Felt::from_u64(2)), StorageValue(Felt::from_u64(200))),
    ];
    let first = update_contract_state(
        &mut storage,
        contract,
        block0,
        &writes,
        ContractNonce(Felt::from_u64(1)),
        class,
        true,
    )
    .unwrap();
    assert_eq!(
        first.state_hash,
        calculate_contract_state_hash(class, first.root, ContractNonce(Felt::from_u64(1)))
    );
    storage.insert_contract_root(block0, contract, first.root_index);

    // The second block clears one of them and writes a third.
    let writes = vec![
        (StorageAddress(Felt::from_u64(2)), StorageValue(Felt::zero())),
        (StorageAddress(Felt::from_u64(3)), StorageValue(Felt::from_u64(300))),
    ];
    let second = update_contract_state(
        &mut storage,
        contract,
        block0,
        &writes,
        ContractNonce(Felt::from_u64(2)),
        class,
        false,
    )
    .unwrap();
    storage.insert_contract_root(block1, contract, second.root_index);

    // The same trie built in one go.
    let mut fresh = ContractsStorageTree::empty(contract);
    fresh.set(StorageAddress(Felt::from_u64(3)), StorageValue(Felt::from_u64(300)));
    fresh.set(StorageAddress(Felt::from_u64(1)), StorageValue(Felt::from_u64(100)));
    let (root, _, _) = fresh.commit(&mut Storage::new());
    assert_eq!(second.root, root);
    assert_ne!(second.root, first.root);

    // Rolling the second block back gives the first root again.
    let back = vec![
        (StorageAddress(Felt::from_u64(2)), StorageValue(Felt::from_u64(200))),
        (StorageAddress(Felt::from_u64(3)), StorageValue(Felt::zero())),
    ];
    let rolled = update_contract_state(
        &mut storage,
        contract,
        block1,
        &back,
        ContractNonce(Felt::from_u64(1)),
        class,
        false,
    )
    .unwrap();
    assert_eq!(rolled.root, first.root);
    assert_eq!(rolled.state_hash, first.state_hash);

    // A root that is not stored.
    storage.insert_contract_root(BlockNumber::new_or_panic(2), contract, Some(1000));
    let before = storage.contract_trie().len();
    assert_eq!(
        update_contract_state(
            &mut storage,
            contract,
            BlockNumber::new_or_panic(2),
            &back,
            ContractNonce::zero(),
            class,
            false,
        ),
        Err(TrieError::MissingRoot)
    );
    assert_eq!(storage.contract_trie().len(), before);
}

#[test]
fn visitor_can_prune_and_break_off() {
    let mut store = TrieStore::new();
    let mut tree = MerkleTree::empty();
    let mut high = vec![false; 251];
    high[0] = true;
    tree.set(key(0), Felt::from_u64(3));
    tree.set(key(1), Felt::from_u64(4));
    tree.set(high, Felt::from_u64(5));

    // The first leaf.
    let first_leaf = |visit: NodeVisit| match visit.node {
        NodeSummary::Leaf(v) => ControlFlow::Break((visit.path, v)),
        _ => ControlFlow::Continue(Visit::ContinueDeeper),
    };
    assert_eq!(tree.dfs(&store, &first_leaf), Some((Felt::from_u64(0), Felt::from_u64(3))));

    // The first leaf when the left half is left out: the one on the right.
    let skipping_left = |visit: NodeVisit| match visit.node {
        NodeSummary::Leaf(v) => ControlFlow::Break(v),
        NodeSummary::Edge { length: 249, .. } => ControlFlow::Continue(Visit::StopSubtree),
        _ => ControlFlow::Continue(Visit::ContinueDeeper),
    };
    assert_eq!(tree.dfs(&store, &skipping_left), Some(Felt::from_u64(5)));

    // A visitor that never breaks off gives nothing.
    let never = |_: NodeVisit| ControlFlow::<Felt, Visit>::Continue(Visit::ContinueDeeper);
    assert_eq!(tree.dfs(&store, &never), None);

    // The depth and the edge of the first edge.
    let first_edge = |visit: NodeVisit| match visit.node {
        NodeSummary::Edge { path, length } => ControlFlow::Break((visit.depth, path, length)),
        _ => ControlFlow::Continue(Visit::ContinueDeeper),
    };
    assert_eq!(tree.dfs(&store, &first_edge), Some((1, Felt::zero(), 249)));

    // The same through the tries of the store.
    let mut storage = Storage::new();
    let mut global = StorageCommitmentTree::empty();
    global.set(ContractAddress(Felt::from_u64(6)), ContractStateHash(Felt::from_u64(9)));
    assert_eq!(global.dfs(&storage, &first_leaf), Some((Felt::from_u64(6), Felt::from_u64(9))));
    let (_, index, _) = global.commit(&mut storage);
    storage.insert_storage_root(BlockNumber::new_or_panic(1), index);
    let mut loaded = StorageCommitmentTree::load(&storage, BlockNumber::new_or_panic(1)).unwrap();
    assert_eq!(loaded.dfs(&storage, &first_leaf), Some((Felt::from_u64(6), Felt::from_u64(9))));
    assert_eq!(loaded.dfs_nodes(&storage).len(), 2);
}

#[test]
fn blocks_bring_the_storage_commitment_up_to_date() {
    let mut storage = Storage::new();
    let a = ContractAddress(Felt::from_u64(0xa));
    let b = ContractAddress(Felt::from_u64(0xb));
    let class = ClassHash(Felt::from_u64(5));
    let block = |n: u64| BlockNumber::new_or_panic(n);
    let write = |k: u64, v: u64| (StorageAddress(Felt::from_u64(k)), StorageValue(Felt::from_u64(v)));

    // Block 1 deploys both contracts.
    let first = vec![
        ContractUpdate {
            contract: a,
            class_hash: class,
            nonce: ContractNonce::zero(),
            writes: vec![write(1, 10), write(2, 20)],
        },
        ContractUpdate {
            contract: b,
            class_hash: class,
            nonce: ContractNonce::zero(),
            writes: vec![write(1, 11)],
        },
    ];
    let commitment1 =
        update_storage_commitment(&mut storage, block(0), block(1), &first, true).unwrap();

    // The same by hand.
    let mut by_hand = Storage::new();
    let mut expected = StorageCommitmentTree::empty();
    for update in &first {
        let mut tree = ContractsStorageTree::empty(update.contract);
        for (k, v) in &update.writes {
            tree.set(*k, *v);
        }
        let (root, _, _) = tree.commit(&mut by_hand);
        expected.set(
            update.contract,
            calculate_contract_state_hash(update.class_hash, root, update.nonce),
        );
    }
    let (expected1, _, _) = expected.commit(&mut by_hand);
    assert_eq!(commitment1, expected1);

    // Block 2 changes one contract; block 3 changes it back.
    let second = vec![ContractUpdate {
        contract: a,
        class_hash: class,
        nonce: ContractNonce(Felt::from_u64(1)),
        writes: vec![write(2, 0), write(3, 30)],
    }];
    let commitment2 =
        update_storage_commitment(&mut storage, block(1), block(2), &second, false).unwrap();
    assert_ne!(commitment2, commitment1);
    let third = vec![ContractUpdate {
        contract: a,
        class_hash: class,
        nonce: ContractNonce::zero(),
        writes: vec![write(3, 0), write(2, 20)],
    }];
    let commitment3 =
        update_storage_commitment(&mut storage, block(2), block(3), &third, false).unwrap();
    assert_eq!(commitment3, commitment1);

    // Every block can be read as it was.
    for (n, commitment) in [(1, commitment1), (2, commitment2), (3, commitment3)] {
        let (root, _, nodes) =
            StorageCommitmentTree::load(&storage, block(n)).unwrap().commit(&mut storage);
        assert_eq!(root, commitment);
        assert!(nodes.is_empty());
    }
    let at = |n: u64, contract: ContractAddress, k: u64| {
        ContractsStorageTree::load(&storage, contract, block(n))
            .unwrap()
            .get(&storage, &StorageAddress(Felt::from_u64(k)))
    };
    assert_eq!(at(1, a, 2), Some(StorageValue(Felt::from_u64(20))));
    assert_eq!(at(2, a, 2), None);
    assert_eq!(at(2, a, 3), Some(StorageValue(Felt::from_u64(30))));
    assert_eq!(at(3, a, 3), None);
    assert_eq!(at(3, b, 1), Some(StorageValue(Felt::from_u64(11))));
    assert_eq!(at(0, b, 1), None);

    // A root that is not stored fails the update and leaves the store alone.
    storage.insert_contract_root(block(5), b, Some(100_000));
    let nodes = storage.contract_trie().len();
    let update = vec![ContractUpdate {
        contract: b,
        class_hash: class,
        nonce: ContractNonce::zero(),
        writes: vec![write(1, 12)],
    }];
    assert_eq!(
        update_storage_commitment(&mut storage, block(5), block(6), &update, false),
        Err(TrieError::MissingRoot)
    );
    assert_eq!(storage.contract_trie().len(), nodes);
    assert_eq!(storage.storage_root_index(block(6)), storage.storage_root_index(block(3)));
}

#[test]
fn stored_hashes_check_out() {
    let mut store = TrieStore::new();
    let mut tree = MerkleTree::empty();
    for (k, v) in [(1u64, 10u64), (2, 20), (1 << 40, 40)] {
        tree.set(key(k), Felt::from_u64(v));
    }
    let update = tree.commit(&mut store);
    for index in 0..store.len() as u64 {
        assert!(verify_stored(&store, index));
    }
    // No node is stored under the next index.
    assert!(!verify_stored(&store, store.len() as u64));
    let root = update.root_index.unwrap();
    assert!(verify_loaded(&store, &InternalNode::Unresolved(root)));
    assert!(verify_loaded(&store, &InternalNode::Leaf(Felt::one())));
    let mixed = InternalNode::Binary {
        left: Box::new(InternalNode::Unresolved(root)),
        right: Box::new(InternalNode::Unresolved(1_000)),
    };
    assert!(!verify_loaded(&store, &mixed));
}

#[test]
fn push_stores_every_kind_of_node() {
    let mut store = TrieStore::new();
    let pair = store
        .push(NewNode::LeafBinary { left: Felt::from_u64(1), right: Felt::from_u64(2) })
        .unwrap();
    let other = store
        .push(NewNode::LeafBinary { left: Felt::from_u64(3), right: Felt::from_u64(4) })
        .unwrap();
    let both = store.push(NewNode::Binary { left: pair, right: other }).unwrap();
    let edge = store.push(NewNode::Edge { child: both, path: vec![true, false] }).unwrap();
    let leaf = store
        .push(NewNode::LeafEdge { path: vec![false; 4], value: Felt::from_u64(9) })
        .unwrap();
    assert_eq!((pair, other, both, edge, leaf), (0, 1, 2, 3, 4));
    assert_eq!(store.height(both), Some(2));
    assert_eq!(store.height(edge), Some(4));
    assert_eq!(store.height(leaf), Some(4));
    assert_eq!(store.get(edge), Some(StoredNode::Edge { child: both, path: vec![true, false] }));
    assert_eq!(
        store.hash(both),
        Some(pedersen(
            pedersen(Felt::from_u64(1), Felt::from_u64(2)),
            pedersen(Felt::from_u64(3), Felt::from_u64(4))
        ))
    );
    // What does not fit is refused and leaves the table as it is.
    assert_eq!(
        store.push(NewNode::Binary { left: pair, right: both }),
        Err(TrieStoreError::HeightMismatch)
    );
    assert_eq!(
        store.push(NewNode::Edge { child: edge, path: vec![true] }),
        Err(TrieStoreError::EdgeBelowEdge)
    );
    assert_eq!(store.push(NewNode::Binary { left: 9, right: 0 }), Err(TrieStoreError::MissingNode));
    assert_eq!(store.len(), 5);

    // The same through the store of the node.
    let mut storage = Storage::new();
    assert_eq!(
        storage.insert_contract_trie_node(NewNode::LeafBinary {
            left: Felt::from_u64(1),
            right: Felt::from_u64(2)
        }),
        Ok(0)
    );
    assert_eq!(
        storage.insert_storage_trie_node(NewNode::LeafEdge { path: vec![], value: Felt::one() }),
        Err(TrieStoreError::EmptyPath)
    );
    assert_eq!(
        storage.insert_storage_trie_node(NewNode::LeafEdge {
            path: vec![true],
            value: Felt::zero()
        }),
        Err(TrieStoreError::ZeroLeaf)
    );
    assert_eq!(storage.contract_trie().len(), 1);
    assert_eq!(storage.storage_trie().len(), 0);
}
