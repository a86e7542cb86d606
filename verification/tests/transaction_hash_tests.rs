use stark_node::common::{
    CasmHash, ChainId, ClassHash, ContractAddress, ContractAddressSalt, DataAvailabilityMode,
    EntryPoint, Fee, ResourceAmount, ResourceBound, ResourceBounds, ResourcePricePerUnit, Tip,
    TransactionHash, TransactionNonce, TransactionVersion,
};
use stark_node::felt::Felt;
use stark_node::transaction::{
    for_legacy_l1_handlers, DeclareTransaction, DeclareTransactionV0V1, DeclareTransactionV2,
    DeclareTransactionV3, DeployAccountTransaction, DeployAccountTransactionV0V1,
    DeployAccountTransactionV3, DeployTransaction, EntryPointType, InvokeTransaction,
    InvokeTransactionV0, InvokeTransactionV1, InvokeTransactionV3, L1HandlerTransaction,
    Transaction,
};
use stark_node::transaction_hash::{
    compute_transaction_hash, compute_txn_hash, compute_v3_txn_hash, resolve_hash, verify,
    verify_computed, NonceOrClassHash, VerifyResult,
};

type Theirs = pathfinder_crypto::Felt;

fn theirs(f: Felt) -> Theirs {
    Theirs::from_be_bytes(f.to_be_bytes()).unwrap()
}

fn ours(f: Theirs) -> Felt {
    Felt::from_be_bytes(f.to_be_bytes()).unwrap()
}

fn f(n: u64) -> Felt {
    Felt::from_u64(n)
}

fn tag(s: &str) -> Felt {
    Felt::from_be_slice(s.as_bytes()).unwrap()
}

// The Pedersen hash chain of the crypto crate over a list.
fn chain(elements: &[Felt]) -> Felt {
    let mut h = pathfinder_crypto::hash::HashChain::default();
    for e in elements {
        h.update(theirs(*e));
    }
    ours(h.finalize())
}

// Poseidon through the streaming hasher of the crypto crate.
fn poseidon(elements: &[Felt]) -> Felt {
    let mut h = pathfinder_crypto::hash::PoseidonHasher::new();
    for e in elements {
        h.write(theirs(*e).into());
    }
    ours(h.finish().into())
}

fn constructor() -> Felt {
    Felt::from_be_slice(&[
        0x02, 0x8f, 0xfe, 0x4f, 0xf0, 0xf2, 0x26, 0xa9, 0x10, 0x72, 0x53, 0xe1, 0x7a, 0x90, 0x40,
        0x99, 0xaa, 0x4f, 0x63, 0xa0, 0x2a, 0x56, 0x21, 0xde, 0x05, 0x76, 0xe5, 0xaa, 0x71, 0xbc,
        0x51, 0x94,
    ])
    .unwrap()
}

fn bounds() -> ResourceBounds {
    ResourceBounds {
        l1_gas: ResourceBound {
            max_amount: ResourceAmount(0x186a0),
            max_price_per_unit: ResourcePricePerUnit(0x5af3107a4000),
        },
        l2_gas: ResourceBound {
            max_amount: ResourceAmount(0),
            max_price_per_unit: ResourcePricePerUnit(0),
        },
    }
}

// One bound as 32 bytes: the name in the first eight, the amount in the
// next eight, the price in the last sixteen.
fn flat(name: &[u8], bound: ResourceBound) -> Felt {
    let mut b = [0u8; 32];
    b[8 - name.len()..8].copy_from_slice(name);
    b[8..16].copy_from_slice(&bound.max_amount.0.to_be_bytes());
    b[16..].copy_from_slice(&bound.max_price_per_unit.0.to_be_bytes());
    Felt::from_be_bytes(b).unwrap()
}

fn v3_expected(
    prefix: &str,
    sender: Felt,
    chain_id: ChainId,
    nonce: Felt,
    tail: &[Felt],
    tip: u64,
    paymaster: &[Felt],
    nonce_mode: u64,
    fee_mode: u64,
) -> Felt {
    let fee_fields = poseidon(&[
        f(tip),
        flat(b"L1_GAS", bounds().l1_gas),
        flat(b"L2_GAS", bounds().l2_gas),
    ]);
    let mut all = vec![
        tag(prefix),
        f(3),
        sender,
        fee_fields,
        poseidon(paymaster),
        chain_id.0,
        nonce,
        f((nonce_mode << 32) + fee_mode),
    ];
    all.extend_from_slice(tail);
    poseidon(&all)
}

fn declare_v2(chain_id: ChainId) -> DeclareTransactionV2 {
    let mut txn = DeclareTransactionV2 {
        class_hash: ClassHash(f(0xabc)),
        max_fee: Fee(f(2)),
        nonce: TransactionNonce(f(1)),
        sender_address: ContractAddress(f(0x5e4d)),
        transaction_hash: TransactionHash::zero(),
        compiled_class_hash: CasmHash(f(0xdef)),
    };
    let expected = chain(&[
        tag("declare"),
        f(2),
        txn.sender_address.0,
        f(0),
        chain(&[f(0xabc)]),
        f(2),
        chain_id.0,
        f(1),
        f(0xdef),
    ]);
    txn.transaction_hash = TransactionHash(expected);
    txn
}

fn all_kinds(chain_id: ChainId) -> Vec<Transaction> {
    let sender = ContractAddress(f(0x5e4d));
    let calldata = vec![f(1), f(2), f(3)];
    let calldata_hash = chain(&calldata);
    let mut out = Vec::new();

    // Declare v0: the class hash follows the chain id, the fee is zero.
    let h = chain(&[tag("declare"), f(0), sender.0, f(0), chain(&[]), f(0), chain_id.0, f(0xabc)]);
    out.push(Transaction::Declare(DeclareTransaction::V0(DeclareTransactionV0V1 {
        class_hash: ClassHash(f(0xabc)),
        max_fee: Fee(f(9)),
        nonce: TransactionNonce(f(4)),
        sender_address: sender,
        transaction_hash: TransactionHash(h),
    })));
    // Declare v1.
    let h = chain(&[
        tag("declare"),
        f(1),
        sender.0,
        f(0),
        chain(&[f(0xabc)]),
        f(9),
        chain_id.0,
        f(4),
    ]);
    out.push(Transaction::Declare(DeclareTransaction::V1(DeclareTransactionV0V1 {
        class_hash: ClassHash(f(0xabc)),
        max_fee: Fee(f(9)),
        nonce: TransactionNonce(f(4)),
        sender_address: sender,
        transaction_hash: TransactionHash(h),
    })));
    // Declare v2.
    out.push(Transaction::Declare(DeclareTransaction::V2(declare_v2(chain_id))));
    // Declare v3.
    let deployment = vec![f(7)];
    let paymaster = vec![f(8), f(9)];
    let h = v3_expected(
        "declare",
        sender.0,
        chain_id,
        f(4),
        &[poseidon(&deployment), f(0xabc), f(0xdef)],
        5,
        &paymaster,
        1,
        0,
    );
    out.push(Transaction::Declare(DeclareTransaction::V3(DeclareTransactionV3 {
        class_hash: ClassHash(f(0xabc)),
        nonce: TransactionNonce(f(4)),
        nonce_data_availability_mode: DataAvailabilityMode::L2,
        fee_data_availability_mode: DataAvailabilityMode::L1,
        resource_bounds: bounds(),
        tip: Tip(5),
        paymaster_data: paymaster.clone(),
        sender_address: sender,
        transaction_hash: TransactionHash(h),
        compiled_class_hash: CasmHash(f(0xdef)),
        account_deployment_data: deployment.clone(),
    })));
    // Deploy, by the canonical formula.
    let h = chain(&[
        tag("deploy"),
        f(1),
        sender.0,
        constructor(),
        calldata_hash,
        f(0),
        chain_id.0,
    ]);
    out.push(Transaction::Deploy(DeployTransaction {
        contract_address: sender,
        contract_address_salt: ContractAddressSalt(f(6)),
        class_hash: ClassHash(f(0xabc)),
        constructor_calldata: calldata.clone(),
        transaction_hash: TransactionHash(h),
        version: TransactionVersion(f(1)),
    }));
    // Deploy, by the oldest formula.
    let h = chain(&[tag("deploy"), sender.0, constructor(), calldata_hash, chain_id.0]);
    out.push(Transaction::Deploy(DeployTransaction {
        contract_address: sender,
        contract_address_salt: ContractAddressSalt(f(6)),
        class_hash: ClassHash(f(0xabc)),
        constructor_calldata: calldata.clone(),
        transaction_hash: TransactionHash(h),
        version: TransactionVersion(f(0)),
    }));
    // Deploy account v1.
    let h = chain(&[
        tag("deploy_account"),
        f(1),
        sender.0,
        f(0),
        chain(&[f(0xabc), f(6), f(1), f(2), f(3)]),
        f(9),
        chain_id.0,
        f(4),
    ]);
    out.push(Transaction::DeployAccount(DeployAccountTransaction::V0V1(
        DeployAccountTransactionV0V1 {
            contract_address: sender,
            transaction_hash: TransactionHash(h),
            max_fee: Fee(f(9)),
            version: TransactionVersion(f(1)),
            nonce: TransactionNonce(f(4)),
            contract_address_salt: ContractAddressSalt(f(6)),
            constructor_calldata: calldata.clone(),
            class_hash: ClassHash(f(0xabc)),
        },
    )));
    // Deploy account v3.
    let h = v3_expected(
        "deploy_account",
        sender.0,
        chain_id,
        f(4),
        &[poseidon(&calldata), f(0xabc), f(6)],
        5,
        &paymaster,
        0,
        1,
    );
    out.push(Transaction::DeployAccount(DeployAccountTransaction::V3(
        DeployAccountTransactionV3 {
            nonce: TransactionNonce(f(4)),
            nonce_data_availability_mode: DataAvailabilityMode::L1,
            fee_data_availability_mode: DataAvailabilityMode::L2,
            resource_bounds: bounds(),
            tip: Tip(5),
            paymaster_data: paymaster.clone(),
            sender_address: sender,
            transaction_hash: TransactionHash(h),
            version: TransactionVersion(f(3)),
            contract_address_salt: ContractAddressSalt(f(6)),
            constructor_calldata: calldata.clone(),
            class_hash: ClassHash(f(0xabc)),
        },
    )));
    // Invoke v0, canonical and oldest.
    let h = chain(&[tag("invoke"), f(0), sender.0, f(0x77), calldata_hash, f(9), chain_id.0]);
    out.push(Transaction::Invoke(InvokeTransaction::V0(InvokeTransactionV0 {
        calldata: calldata.clone(),
        sender_address: sender,
        entry_point_selector: EntryPoint(f(0x77)),
        entry_point_type: Some(EntryPointType::External),
        max_fee: Fee(f(9)),
        transaction_hash: TransactionHash(h),
    })));
    let h = chain(&[tag("invoke"), sender.0, f(0x77), calldata_hash, chain_id.0]);
    out.push(Transaction::Invoke(InvokeTransaction::V0(InvokeTransactionV0 {
        calldata: calldata.clone(),
        sender_address: sender,
        entry_point_selector: EntryPoint(f(0x77)),
        entry_point_type: None,
        max_fee: Fee(f(9)),
        transaction_hash: TransactionHash(h),
    })));
    // Invoke v1.
    let h = chain(&[tag("invoke"), f(1), sender.0, f(0), calldata_hash, f(9), chain_id.0, f(4)]);
    out.push(Transaction::Invoke(InvokeTransaction::V1(InvokeTransactionV1 {
        calldata: calldata.clone(),
        sender_address: sender,
        max_fee: Fee(f(9)),
        nonce: TransactionNonce(f(4)),
        transaction_hash: TransactionHash(h),
    })));
    // Invoke v3.
    let h = v3_expected(
        "invoke",
        sender.0,
        chain_id,
        f(4),
        &[poseidon(&deployment), poseidon(&calldata)],
        5,
        &paymaster,
        0,
        0,
    );
    out.push(Transaction::Invoke(InvokeTransaction::V3(InvokeTransactionV3 {
        nonce: TransactionNonce(f(4)),
        nonce_data_availability_mode: DataAvailabilityMode::L1,
        fee_data_availability_mode: DataAvailabilityMode::L1,
        resource_bounds: bounds(),
        tip: Tip(5),
        paymaster_data: paymaster.clone(),
        sender_address: sender,
        transaction_hash: TransactionHash(h),
        calldata: calldata.clone(),
        account_deployment_data: deployment.clone(),
    })));
    // L1 handler, by the three formulas.
    let h = chain(&[
        tag("l1_handler"),
        f(0),
        sender.0,
        f(0x77),
        calldata_hash,
        f(0),
        chain_id.0,
        f(4),
    ]);
    out.push(l1_handler(h, calldata.clone()));
    let h = chain(&[tag("l1_handler"), sender.0, f(0x77), calldata_hash, chain_id.0, f(4)]);
    out.push(l1_handler(h, calldata.clone()));
    let h = chain(&[tag("invoke"), sender.0, f(0x77), calldata_hash, chain_id.0]);
    out.push(l1_handler(h, calldata.clone()));
    out
}

fn l1_handler(hash: Felt, calldata: Vec<Felt>) -> Transaction {
    Transaction::L1Handler(L1HandlerTransaction {
        contract_address: ContractAddress(f(0x5e4d)),
        entry_point_selector: EntryPoint(f(0x77)),
        nonce: TransactionNonce(f(4)),
        calldata,
        transaction_hash: TransactionHash(hash),
        version: TransactionVersion(f(0)),
    })
}

#[test]
fn computation() {
    let transactions = all_kinds(ChainId::goerli_testnet());
    assert_eq!(transactions.len(), 15);
    for txn in transactions {
        let actual_hash = compute_transaction_hash(&txn, ChainId::goerli_testnet());
        assert_eq!(actual_hash, txn.hash(), "{:?}", txn);
    }
}

// An L1 handler of the oldest kind, as the gateway came to serve it later:
// hashed as an invocation, without version and nonce.
fn block_854_idx_96_as_l1_handler() -> Transaction {
    let calldata = vec![f(0xbeef), f(0x2), f(0x3)];
    let h = chain(&[
        tag("invoke"),
        f(0x5e4d),
        f(0x77),
        chain(&calldata),
        ChainId::mainnet().0,
    ]);
    Transaction::L1Handler(L1HandlerTransaction {
        contract_address: ContractAddress(f(0x5e4d)),
        entry_point_selector: EntryPoint(f(0x77)),
        nonce: TransactionNonce(f(0)),
        calldata,
        transaction_hash: TransactionHash(h),
        version: TransactionVersion(f(0)),
    })
}

#[test]
fn rewritten_l1_handler() {
    let block_854_idx_96 = block_854_idx_96_as_l1_handler();
    assert_eq!(verify(&block_854_idx_96, ChainId::mainnet()), VerifyResult::Match);
}

#[test]
fn old_l1_handler_in_invoke_v0() {
    // The same transaction as it was served at first: an invocation of
    // version 0 that enters an L1 handler.
    let Transaction::L1Handler(handler) = block_854_idx_96_as_l1_handler() else {
        unreachable!()
    };
    let block_854_idx_96 = Transaction::Invoke(InvokeTransaction::V0(InvokeTransactionV0 {
        calldata: handler.calldata.clone(),
        sender_address: handler.contract_address,
        entry_point_selector: handler.entry_point_selector,
        entry_point_type: Some(EntryPointType::L1Handler),
        max_fee: Fee(f(0)),
        transaction_hash: handler.transaction_hash,
    }));
    assert_eq!(verify(&block_854_idx_96, ChainId::mainnet()), VerifyResult::Match);
    // Turned into the L1 handler that it stands for, it is the rewritten one.
    assert_eq!(for_legacy_l1_handlers(block_854_idx_96), Transaction::L1Handler(handler));
}

#[test]
fn ok() {
    let txn = Transaction::Declare(DeclareTransaction::V2(declare_v2(ChainId::goerli_testnet())));
    assert_eq!(verify(&txn, ChainId::goerli_testnet()), VerifyResult::Match);
}

#[test]
fn failed() {
    let txn = Transaction::Declare(DeclareTransaction::V2(declare_v2(ChainId::goerli_testnet())));
    // Wrong chain id to force failure
    assert!(matches!(verify(&txn, ChainId::mainnet()), VerifyResult::Mismatch(_)));
}

#[test]
fn declare_v2_on_mainnet() {
    let txn = declare_v2(ChainId::mainnet());
    let wrapped = Transaction::Declare(DeclareTransaction::V2(txn));
    assert_eq!(compute_transaction_hash(&wrapped, ChainId::mainnet()), txn.transaction_hash);
}

#[test]
fn mismatch_carries_the_canonical_hash() {
    // No formula gives the hash 1: the result is the canonical hash, for
    // the kinds with older formulas too.
    for txn in all_kinds(ChainId::mainnet()) {
        let canonical = compute_transaction_hash(&txn, ChainId::mainnet());
        let wrong = with_hash(txn, f(1));
        match verify(&wrong, ChainId::mainnet()) {
            VerifyResult::Mismatch(h) => {
                assert_ne!(h, TransactionHash(f(1)));
                if !has_fallback(&wrong) {
                    assert_eq!(h, canonical);
                }
            }
            VerifyResult::Match => panic!("matched {:?}", wrong),
        }
    }
    // For an L1 handler, the canonical hash is the one with the version.
    let calldata = vec![f(1), f(2), f(3)];
    let canonical = chain(&[
        tag("l1_handler"),
        f(0),
        f(0x5e4d),
        f(0x77),
        chain(&calldata),
        f(0),
        ChainId::mainnet().0,
        f(4),
    ]);
    assert_eq!(
        verify(&l1_handler(f(1), calldata), ChainId::mainnet()),
        VerifyResult::Mismatch(TransactionHash(canonical))
    );
}

fn has_fallback(txn: &Transaction) -> bool {
    matches!(
        txn,
        Transaction::Deploy(_)
            | Transaction::Invoke(InvokeTransaction::V0(_))
            | Transaction::L1Handler(_)
    )
}

fn with_hash(txn: Transaction, hash: Felt) -> Transaction {
    let hash = TransactionHash(hash);
    match txn {
        Transaction::Declare(DeclareTransaction::V0(mut t)) => {
            t.transaction_hash = hash;
            Transaction::Declare(DeclareTransaction::V0(t))
        }
        Transaction::Declare(DeclareTransaction::V1(mut t)) => {
            t.transaction_hash = hash;
            Transaction::Declare(DeclareTransaction::V1(t))
        }
        Transaction::Declare(DeclareTransaction::V2(mut t)) => {
            t.transaction_hash = hash;
            Transaction::Declare(DeclareTransaction::V2(t))
        }
        Transaction::Declare(DeclareTransaction::V3(mut t)) => {
            t.transaction_hash = hash;
            Transaction::Declare(DeclareTransaction::V3(t))
        }
        Transaction::Deploy(mut t) => {
            t.transaction_hash = hash;
            Transaction::Deploy(t)
        }
        Transaction::DeployAccount(DeployAccountTransaction::V0V1(mut t)) => {
            t.transaction_hash = hash;
            Transaction::DeployAccount(DeployAccountTransaction::V0V1(t))
        }
        Transaction::DeployAccount(DeployAccountTransaction::V3(mut t)) => {
            t.transaction_hash = hash;
            Transaction::DeployAccount(DeployAccountTransaction::V3(t))
        }
        Transaction::Invoke(InvokeTransaction::V0(mut t)) => {
            t.transaction_hash = hash;
            Transaction::Invoke(InvokeTransaction::V0(t))
        }
        Transaction::Invoke(InvokeTransaction::V1(mut t)) => {
            t.transaction_hash = hash;
            Transaction::Invoke(InvokeTransaction::V1(t))
        }
        Transaction::Invoke(InvokeTransaction::V3(mut t)) => {
            t.transaction_hash = hash;
            Transaction::Invoke(InvokeTransaction::V3(t))
        }
        Transaction::L1Handler(mut t) => {
            t.transaction_hash = hash;
            Transaction::L1Handler(t)
        }
    }
}

#[test]
fn resolve_picks_the_reported_hash_where_a_formula_gives_it() {
    let h = |n| TransactionHash(f(n));
    assert_eq!(resolve_hash(h(1), h(1), &[h(2), h(3)]), h(1));
    assert_eq!(resolve_hash(h(2), h(1), &[h(2), h(3)]), h(2));
    assert_eq!(resolve_hash(h(3), h(1), &[h(2), h(3)]), h(3));
    assert_eq!(resolve_hash(h(4), h(1), &[h(2), h(3)]), h(1));
    assert_eq!(resolve_hash(h(4), h(1), &[]), h(1));
    assert_eq!(verify_computed(h(1), h(1)), VerifyResult::Match);
    assert_eq!(verify_computed(h(1), h(2)), VerifyResult::Mismatch(h(2)));
}

#[test]
fn generic_formulas_agree_with_an_independent_implementation() {
    // Pedersen and Poseidon of another crate, over the same elements.
    let to = |x: Felt| starknet_crypto::Felt::from_bytes_be(&x.to_be_bytes());
    let back = |x: starknet_crypto::Felt| Felt::from_be_bytes(x.to_bytes_be()).unwrap();
    let chain2 = |elements: &[Felt]| {
        let mut acc = starknet_crypto::Felt::ZERO;
        for e in elements {
            acc = starknet_crypto::pedersen_hash(&acc, &to(*e));
        }
        back(starknet_crypto::pedersen_hash(&acc, &to(f(elements.len() as u64))))
    };
    let poseidon2 = |elements: &[Felt]| {
        let converted: Vec<starknet_crypto::Felt> = elements.iter().map(|e| to(*e)).collect();
        back(starknet_crypto::poseidon_hash_many(&converted))
    };

    let h = compute_txn_hash(
        b"invoke",
        TransactionVersion(f(1)),
        ContractAddress(f(10)),
        None,
        f(11),
        Some(Fee(f(12))),
        ChainId::mainnet(),
        NonceOrClassHash::from(TransactionNonce(f(13))),
        Some(CasmHash(f(14))),
    );
    let expected = chain2(&[
        tag("invoke"),
        f(1),
        f(10),
        f(0),
        f(11),
        f(12),
        ChainId::mainnet().0,
        f(13),
        f(14),
    ]);
    assert_eq!(h, TransactionHash(expected));

    let h = compute_txn_hash(
        b"declare",
        TransactionVersion(f(0)),
        ContractAddress(f(10)),
        Some(EntryPoint(f(5))),
        f(11),
        None,
        ChainId::mainnet(),
        NonceOrClassHash::from(ClassHash(f(13))),
        None,
    );
    let expected =
        chain2(&[tag("declare"), f(0), f(10), f(5), f(11), f(0), ChainId::mainnet().0, f(13)]);
    assert_eq!(h, TransactionHash(expected));

    let h = compute_v3_txn_hash(
        b"invoke",
        TransactionVersion(f(3)),
        ContractAddress(f(10)),
        ChainId::mainnet(),
        TransactionNonce(f(13)),
        &[f(21), f(22)],
        Tip(5),
        &[f(31)],
        DataAvailabilityMode::L2,
        DataAvailabilityMode::L2,
        bounds(),
    );
    let fee_fields =
        poseidon2(&[f(5), flat(b"L1_GAS", bounds().l1_gas), flat(b"L2_GAS", bounds().l2_gas)]);
    let expected = poseidon2(&[
        tag("invoke"),
        f(3),
        f(10),
        fee_fields,
        poseidon2(&[f(31)]),
        ChainId::mainnet().0,
        f(13),
        f((1 << 32) + 1),
        f(21),
        f(22),
    ]);
    assert_eq!(h, TransactionHash(expected));
}

#[test]
fn chain_ids_are_their_names() {
    assert_eq!(ChainId::mainnet().0, tag("SN_MAIN"));
    assert_eq!(ChainId::goerli_testnet().0, tag("SN_GOERLI"));
}

#[test]
fn other_transactions_are_left_alone() {
    let txn = all_kinds(ChainId::mainnet()).remove(8);
    assert!(matches!(txn, Transaction::Invoke(InvokeTransaction::V0(_))));
    assert_eq!(for_legacy_l1_handlers(txn.clone()), txn);
}
