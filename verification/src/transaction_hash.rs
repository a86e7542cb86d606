//! The hash of a transaction, for every kind and version.
//!
//! Versions 0 to 2, deployments and L1 handlers are hashed with a Pedersen
//! hash chain, version 3 with Poseidon. Deployments, invocations of version 0
//! and L1 handlers were once hashed otherwise: where the canonical hash is not
//! the one that the transaction reports, the older formulas are tried in turn,
//! and the first that gives the reported hash is taken.

use crate::common::{
    CasmHash, ChainId, ClassHash, ContractAddress, DataAvailabilityMode, EntryPoint, Fee,
    PaymasterDataElem, ResourceBound, ResourceBounds, Tip, TransactionHash, TransactionNonce,
    TransactionVersion,
};
use crate::felt::{
    be_u128, be_value, lemma_be_value_bound, lemma_pow256_increases, lemma_short_string_fits,
    modulus, pow128, pow256, pow64, Felt,
};
use crate::hash::{
    felt_values, hash_elements, hash_on_elements, poseidon_hash_many, poseidon_many,
    starknet_keccak, starknet_keccak_spec, HashChain,
};
use crate::transaction::{
    DeclareTransaction, DeclareTransactionV0V1, DeclareTransactionV2, DeclareTransactionV3,
    DeployAccountTransaction, DeployAccountTransactionV0V1, DeployAccountTransactionV3,
    DeployTransaction, InvokeTransaction, InvokeTransactionV0, InvokeTransactionV1,
    InvokeTransactionV3, L1HandlerTransaction, Transaction,
};
use vstd::prelude::*;
use vstd::string::{is_ascii, StringSliceAdditionalSpecFns};

verus! {

/// What a check of a transaction's hash found.
#[derive(Clone, Copy, Debug, PartialEq, Eq, Structural)]
pub enum VerifyResult {
    /// The reported hash is the one that a formula gives.
    Match,
    /// No formula gives the reported hash; the canonical one gives this.
    Mismatch(TransactionHash),
}

/// What follows the chain id in the hash of a transaction of version 0 to 2.
#[derive(Clone, Copy, Debug, PartialEq, Eq, Structural)]
pub enum NonceOrClassHash {
    Nonce(TransactionNonce),
    ClassHash(ClassHash),
    /// Nothing follows.
    Neither,
}

impl NonceOrClassHash {
    /// The elements that it adds to the hash chain.
    pub open spec fn elements(self) -> Seq<nat> {
        match self {
            NonceOrClassHash::Nonce(n) => seq![n.0@],
            NonceOrClassHash::ClassHash(c) => seq![c.0@],
            NonceOrClassHash::Neither => Seq::empty(),
        }
    }
}

impl From<TransactionNonce> for NonceOrClassHash {
    fn from(n: TransactionNonce) -> (r: NonceOrClassHash) {
        NonceOrClassHash::Nonce(n)
    }
}

impl vstd::std_specs::convert::FromSpecImpl<TransactionNonce> for NonceOrClassHash {
    open spec fn obeys_from_spec() -> bool {
        true
    }

    open spec fn from_spec(n: TransactionNonce) -> NonceOrClassHash {
        NonceOrClassHash::Nonce(n)
    }
}

impl From<ClassHash> for NonceOrClassHash {
    fn from(c: ClassHash) -> (r: NonceOrClassHash) {
        NonceOrClassHash::ClassHash(c)
    }
}

impl vstd::std_specs::convert::FromSpecImpl<ClassHash> for NonceOrClassHash {
    open spec fn obeys_from_spec() -> bool {
        true
    }

    open spec fn from_spec(c: ClassHash) -> NonceOrClassHash {
        NonceOrClassHash::ClassHash(c)
    }
}

/// The bytes of an ASCII tag.
pub open spec fn tag(s: &str) -> Seq<u8> {
    s.spec_bytes()
}

/// The selector of an optional entry point: zero where there is none.
pub open spec fn entry_point_or_zero(e: Option<EntryPoint>) -> nat {
    match e {
        Some(e) => e.0@,
        None => 0,
    }
}

/// An optional fee: zero where there is none.
pub open spec fn fee_or_zero(f: Option<Fee>) -> nat {
    match f {
        Some(f) => f.0@,
        None => 0,
    }
}

/// The element that an optional compiled class hash adds to the hash chain.
pub open spec fn casm_elements(c: Option<CasmHash>) -> Seq<nat> {
    match c {
        Some(c) => seq![c.0@],
        None => Seq::empty(),
    }
}

/// The element that an optional field element adds to the hash chain.
pub open spec fn optional_element(f: Option<Felt>) -> Seq<nat> {
    match f {
        Some(f) => seq![f@],
        None => Seq::empty(),
    }
}

/// The hash of a transaction of version 0 to 2: the hash chain over the
/// prefix, the version, the address, the entry point selector or zero, the
/// hash of the payload, the largest fee or zero, the chain id, and what
/// follows.
pub open spec fn txn_hash_of(
    prefix: Seq<u8>,
    version: nat,
    address: nat,
    entry_point: nat,
    list_hash: nat,
    max_fee: nat,
    chain_id: nat,
    tail: Seq<nat>,
) -> nat {
    hash_on_elements(
        seq![be_value(prefix), version, address, entry_point, list_hash, max_fee, chain_id] + tail,
    )
}

/// The hash of a transaction by the oldest formula: the hash chain over the
/// prefix, the address, the entry point selector or zero, the hash of the
/// payload, the chain id, and what follows.
pub open spec fn legacy_txn_hash_of(
    prefix: Seq<u8>,
    address: nat,
    entry_point: nat,
    list_hash: nat,
    chain_id: nat,
    tail: Seq<nat>,
) -> nat {
    hash_on_elements(seq![be_value(prefix), address, entry_point, list_hash, chain_id] + tail)
}

/// One resource bound as a single number: the name of the resource in the
/// eight top bytes, the largest amount in the next eight, the largest price
/// in the last sixteen.
pub open spec fn flattened_bounds_of(resource_name: Seq<u8>, bound: ResourceBound) -> nat {
    (be_value(resource_name) * pow64() + bound.max_amount.0 as nat) * pow128()
        + bound.max_price_per_unit.0 as nat
}

/// The hash of the fields of a transaction that speak of its fee: Poseidon
/// over the tip and the flattened bounds of both layers.
pub open spec fn fee_fields_hash_of(tip: Tip, bounds: ResourceBounds) -> nat {
    poseidon_many(
        seq![
            tip.0 as nat,
            flattened_bounds_of(tag("L1_GAS"), bounds.l1_gas),
            flattened_bounds_of(tag("L2_GAS"), bounds.l2_gas),
        ],
    )
}

/// The two data availability modes as one number: that of the nonce in the
/// upper 32 bits, that of the fee below.
pub open spec fn da_mode_of(nonce_mode: DataAvailabilityMode, fee_mode: DataAvailabilityMode) -> nat {
    nonce_mode.number() * 0x1_0000_0000 + fee_mode.number()
}

/// The hash of a transaction of version 3: Poseidon over the prefix, the
/// version, the sender, the hash of the fee fields, the hash of the
/// paymaster data, the chain id, the nonce, the data availability modes, and
/// what is particular to the kind of transaction.
pub open spec fn v3_txn_hash_of(
    prefix: Seq<u8>,
    version: nat,
    sender_address: nat,
    chain_id: nat,
    nonce: nat,
    tail: Seq<nat>,
    tip: Tip,
    paymaster_data: Seq<nat>,
    nonce_mode: DataAvailabilityMode,
    fee_mode: DataAvailabilityMode,
    bounds: ResourceBounds,
) -> nat {
    poseidon_many(
        seq![
            be_value(prefix),
            version,
            sender_address,
            fee_fields_hash_of(tip, bounds),
            poseidon_many(paymaster_data),
            chain_id,
            nonce,
            da_mode_of(nonce_mode, fee_mode),
        ] + tail,
    )
}

/// The hash that stands for a transaction, given the hash it reports, the
/// canonical hash and those of the older formulas: the reported one where
/// any of them gives it, else the canonical one.
pub open spec fn resolved_hash(reported: nat, canonical: nat, fallbacks: Seq<nat>) -> nat {
    if canonical == reported || fallbacks.contains(reported) {
        reported
    } else {
        canonical
    }
}

/// The numbers that a string of transaction hashes denotes.
pub open spec fn hash_values(hashes: Seq<TransactionHash>) -> Seq<nat> {
    hashes.map_values(|h: TransactionHash| h.0@)
}

/// The selector of the constructor: the network's Keccak of `constructor`.
pub open spec fn constructor_selector() -> nat {
    starknet_keccak_spec(tag("constructor"))
}

/// The canonical hash of a declaration of version 0.
pub open spec fn declare_v0_hash_of(txn: DeclareTransactionV0V1, chain_id: nat) -> nat {
    txn_hash_of(
        tag("declare"),
        0,
        txn.sender_address.0@,
        0,
        hash_on_elements(Seq::empty()),
        0,
        chain_id,
        seq![txn.class_hash.0@],
    )
}

/// The canonical hash of a declaration of version 1.
pub open spec fn declare_v1_hash_of(txn: DeclareTransactionV0V1, chain_id: nat) -> nat {
    txn_hash_of(
        tag("declare"),
        1,
        txn.sender_address.0@,
        0,
        hash_on_elements(seq![txn.class_hash.0@]),
        txn.max_fee.0@,
        chain_id,
        seq![txn.nonce.0@],
    )
}

/// The canonical hash of a declaration of version 2.
pub open spec fn declare_v2_hash_of(txn: DeclareTransactionV2, chain_id: nat) -> nat {
    txn_hash_of(
        tag("declare"),
        2,
        txn.sender_address.0@,
        0,
        hash_on_elements(seq![txn.class_hash.0@]),
        txn.max_fee.0@,
        chain_id,
        seq![txn.nonce.0@, txn.compiled_class_hash.0@],
    )
}

/// The canonical hash of a declaration of version 3.
pub open spec fn declare_v3_hash_of(txn: DeclareTransactionV3, chain_id: nat) -> nat {
    v3_txn_hash_of(
        tag("declare"),
        3,
        txn.sender_address.0@,
        chain_id,
        txn.nonce.0@,
        seq![
            poseidon_many(felt_values(txn.account_deployment_data@)),
            txn.class_hash.0@,
            txn.compiled_class_hash.0@,
        ],
        txn.tip,
        felt_values(txn.paymaster_data@),
        txn.nonce_data_availability_mode,
        txn.fee_data_availability_mode,
        txn.resource_bounds,
    )
}

/// The canonical hash of a deployment.
pub open spec fn deploy_hash_of(txn: DeployTransaction, chain_id: nat) -> nat {
    txn_hash_of(
        tag("deploy"),
        txn.version.0@,
        txn.contract_address.0@,
        constructor_selector(),
        hash_on_elements(felt_values(txn.constructor_calldata@)),
        0,
        chain_id,
        Seq::empty(),
    )
}

/// The hash of a deployment by the oldest formula.
pub open spec fn deploy_legacy_hash_of(txn: DeployTransaction, chain_id: nat) -> nat {
    legacy_txn_hash_of(
        tag("deploy"),
        txn.contract_address.0@,
        constructor_selector(),
        hash_on_elements(felt_values(txn.constructor_calldata@)),
        chain_id,
        Seq::empty(),
    )
}

/// The canonical hash of a deployment of an account of version 0 or 1.
pub open spec fn deploy_account_v0v1_hash_of(
    txn: DeployAccountTransactionV0V1,
    chain_id: nat,
) -> nat {
    txn_hash_of(
        tag("deploy_account"),
        txn.version.0@,
        txn.contract_address.0@,
        0,
        hash_on_elements(
            seq![txn.class_hash.0@, txn.contract_address_salt.0@] + felt_values(
                txn.constructor_calldata@,
            ),
        ),
        txn.max_fee.0@,
        chain_id,
        seq![txn.nonce.0@],
    )
}

/// The canonical hash of a deployment of an account of version 3.
pub open spec fn deploy_account_v3_hash_of(txn: DeployAccountTransactionV3, chain_id: nat) -> nat {
    v3_txn_hash_of(
        tag("deploy_account"),
        3,
        txn.sender_address.0@,
        chain_id,
        txn.nonce.0@,
        seq![
            poseidon_many(felt_values(txn.constructor_calldata@)),
            txn.class_hash.0@,
            txn.contract_address_salt.0@,
        ],
        txn.tip,
        felt_values(txn.paymaster_data@),
        txn.nonce_data_availability_mode,
        txn.fee_data_availability_mode,
        txn.resource_bounds,
    )
}

/// The canonical hash of an invocation of version 0.
pub open spec fn invoke_v0_hash_of(txn: InvokeTransactionV0, chain_id: nat) -> nat {
    txn_hash_of(
        tag("invoke"),
        0,
        txn.sender_address.0@,
        txn.entry_point_selector.0@,
        hash_on_elements(felt_values(txn.calldata@)),
        txn.max_fee.0@,
        chain_id,
        Seq::empty(),
    )
}

/// The hash of an invocation of version 0 by the oldest formula.
pub open spec fn invoke_v0_legacy_hash_of(txn: InvokeTransactionV0, chain_id: nat) -> nat {
    legacy_txn_hash_of(
        tag("invoke"),
        txn.sender_address.0@,
        txn.entry_point_selector.0@,
        hash_on_elements(felt_values(txn.calldata@)),
        chain_id,
        Seq::empty(),
    )
}

/// The canonical hash of an invocation of version 1.
pub open spec fn invoke_v1_hash_of(txn: InvokeTransactionV1, chain_id: nat) -> nat {
    txn_hash_of(
        tag("invoke"),
        1,
        txn.sender_address.0@,
        0,
        hash_on_elements(felt_values(txn.calldata@)),
        txn.max_fee.0@,
        chain_id,
        seq![txn.nonce.0@],
    )
}

/// The canonical hash of an invocation of version 3.
pub open spec fn invoke_v3_hash_of(txn: InvokeTransactionV3, chain_id: nat) -> nat {
    v3_txn_hash_of(
        tag("invoke"),
        3,
        txn.sender_address.0@,
        chain_id,
        txn.nonce.0@,
        seq![
            poseidon_many(felt_values(txn.account_deployment_data@)),
            poseidon_many(felt_values(txn.calldata@)),
        ],
        txn.tip,
        felt_values(txn.paymaster_data@),
        txn.nonce_data_availability_mode,
        txn.fee_data_availability_mode,
        txn.resource_bounds,
    )
}

/// The canonical hash of an L1 handler.
pub open spec fn l1_handler_hash_of(txn: L1HandlerTransaction, chain_id: nat) -> nat {
    txn_hash_of(
        tag("l1_handler"),
        txn.version.0@,
        txn.contract_address.0@,
        txn.entry_point_selector.0@,
        hash_on_elements(felt_values(txn.calldata@)),
        0,
        chain_id,
        seq![txn.nonce.0@],
    )
}

/// The hash of an L1 handler by the formula of the time when it had a nonce
/// but no version.
pub open spec fn l1_handler_legacy_hash_of(txn: L1HandlerTransaction, chain_id: nat) -> nat {
    legacy_txn_hash_of(
        tag("l1_handler"),
        txn.contract_address.0@,
        txn.entry_point_selector.0@,
        hash_on_elements(felt_values(txn.calldata@)),
        chain_id,
        seq![txn.nonce.0@],
    )
}

/// The hash of an L1 handler by the formula of the time when it was served
/// as an invocation.
pub open spec fn l1_handler_as_invoke_hash_of(txn: L1HandlerTransaction, chain_id: nat) -> nat {
    legacy_txn_hash_of(
        tag("invoke"),
        txn.contract_address.0@,
        txn.entry_point_selector.0@,
        hash_on_elements(felt_values(txn.calldata@)),
        chain_id,
        Seq::empty(),
    )
}

/// The hash that the canonical formula gives for a transaction.
pub open spec fn canonical_hash_of(txn: Transaction, chain_id: nat) -> nat {
    match txn {
        Transaction::Declare(DeclareTransaction::V0(t)) => declare_v0_hash_of(t, chain_id),
        Transaction::Declare(DeclareTransaction::V1(t)) => declare_v1_hash_of(t, chain_id),
        Transaction::Declare(DeclareTransaction::V2(t)) => declare_v2_hash_of(t, chain_id),
        Transaction::Declare(DeclareTransaction::V3(t)) => declare_v3_hash_of(t, chain_id),
        Transaction::Deploy(t) => deploy_hash_of(t, chain_id),
        Transaction::DeployAccount(DeployAccountTransaction::V0V1(t)) => {
            deploy_account_v0v1_hash_of(t, chain_id)
        },
        Transaction::DeployAccount(DeployAccountTransaction::V3(t)) => deploy_account_v3_hash_of(
            t,
            chain_id,
        ),
        Transaction::Invoke(InvokeTransaction::V0(t)) => invoke_v0_hash_of(t, chain_id),
        Transaction::Invoke(InvokeTransaction::V1(t)) => invoke_v1_hash_of(t, chain_id),
        Transaction::Invoke(InvokeTransaction::V3(t)) => invoke_v3_hash_of(t, chain_id),
        Transaction::L1Handler(t) => l1_handler_hash_of(t, chain_id),
    }
}

/// The hashes that the older formulas give for a transaction, in the order
/// in which they are tried.
pub open spec fn fallback_hashes_of(txn: Transaction, chain_id: nat) -> Seq<nat> {
    match txn {
        Transaction::Deploy(t) => seq![deploy_legacy_hash_of(t, chain_id)],
        Transaction::Invoke(InvokeTransaction::V0(t)) => seq![
            invoke_v0_legacy_hash_of(t, chain_id),
        ],
        Transaction::L1Handler(t) => seq![
            l1_handler_legacy_hash_of(t, chain_id),
            l1_handler_as_invoke_hash_of(t, chain_id),
        ],
        _ => Seq::empty(),
    }
}

/// The hash of a transaction: the reported one where the canonical formula
/// or an older one gives it, else the canonical one.
pub open spec fn transaction_hash_of(txn: Transaction, chain_id: nat) -> nat {
    resolved_hash(
        txn.reported_hash().0@,
        canonical_hash_of(txn, chain_id),
        fallback_hashes_of(txn, chain_id),
    )
}

/// The bytes of an ASCII tag of at most 31 characters denote a field element.
proof fn lemma_tag_fits(s: &str)
    requires
        is_ascii(s),
        s@.len() <= 31,
    ensures
        tag(s).len() == s@.len(),
        be_value(tag(s)) < modulus(),
{
    vstd::string::is_ascii_spec_bytes(s);
    lemma_short_string_fits(tag(s));
}

/// Checks the hash that a transaction reports against the formulas.
pub fn verify(txn: &Transaction, chain_id: ChainId) -> (r: VerifyResult)
    ensures
        r is Match <==> txn.reported_hash().0@ == transaction_hash_of(*txn, chain_id.0@),
        r is Match <==> (canonical_hash_of(*txn, chain_id.0@) == txn.reported_hash().0@
            || fallback_hashes_of(*txn, chain_id.0@).contains(txn.reported_hash().0@)),
        r matches VerifyResult::Mismatch(h) ==> h.0@ == canonical_hash_of(*txn, chain_id.0@),
{
    let computed_hash = compute_transaction_hash(txn, chain_id);
    verify_computed(txn.hash(), computed_hash)
}

/// Compares the hash that a transaction reports with the computed one.
pub fn verify_computed(reported: TransactionHash, computed: TransactionHash) -> (r: VerifyResult)
    ensures
        r is Match <==> reported.0@ == computed.0@,
        r matches VerifyResult::Mismatch(h) ==> h == computed,
{
    proof {
        reported.0.lemma_view_injective(computed.0);
    }
    if computed == reported {
        VerifyResult::Match
    } else {
        VerifyResult::Mismatch(computed)
    }
}

/// The hash of a transaction on the chain with the given id.
pub fn compute_transaction_hash(txn: &Transaction, chain_id: ChainId) -> (r: TransactionHash)
    ensures
        r.0@ == transaction_hash_of(*txn, chain_id.0@),
{
    let computed = match txn {
        Transaction::Declare(DeclareTransaction::V0(txn)) => compute_declare_v0_hash(txn, chain_id),
        Transaction::Declare(DeclareTransaction::V1(txn)) => compute_declare_v1_hash(txn, chain_id),
        Transaction::Declare(DeclareTransaction::V2(txn)) => compute_declare_v2_hash(txn, chain_id),
        Transaction::Declare(DeclareTransaction::V3(txn)) => compute_declare_v3_hash(txn, chain_id),
        Transaction::Deploy(txn) => compute_deploy_hash(txn, chain_id),
        Transaction::DeployAccount(DeployAccountTransaction::V0V1(txn)) => {
            compute_deploy_account_v0v1_hash(txn, chain_id)
        },
        Transaction::DeployAccount(DeployAccountTransaction::V3(txn)) => {
            compute_deploy_account_v3_hash(txn, chain_id)
        },
        Transaction::Invoke(InvokeTransaction::V0(txn)) => compute_invoke_v0_hash(txn, chain_id),
        Transaction::Invoke(InvokeTransaction::V1(txn)) => compute_invoke_v1_hash(txn, chain_id),
        Transaction::Invoke(InvokeTransaction::V3(txn)) => compute_invoke_v3_hash(txn, chain_id),
        Transaction::L1Handler(txn) => compute_l1_handler_hash(txn, chain_id),
    };
    proof {
        assert(!Seq::<nat>::empty().contains(txn.reported_hash().0@));
    }
    computed
}

/// The hash of a declaration of version 0.
fn compute_declare_v0_hash(txn: &DeclareTransactionV0V1, chain_id: ChainId) -> (r: TransactionHash)
    ensures
        r.0@ == declare_v0_hash_of(*txn, chain_id.0@),
{
    let prefix = "declare";
    proof {
        reveal_strlit("declare");
        lemma_tag_fits(prefix);
    }
    compute_txn_hash(
        prefix.as_bytes(),
        TransactionVersion::zero(),
        txn.sender_address,
        None,
        HashChain::new().finalize(),
        None,
        chain_id,
        NonceOrClassHash::ClassHash(txn.class_hash),
        None,
    )
}

/// The hash of a declaration of version 1.
fn compute_declare_v1_hash(txn: &DeclareTransactionV0V1, chain_id: ChainId) -> (r: TransactionHash)
    ensures
        r.0@ == declare_v1_hash_of(*txn, chain_id.0@),
{
    let prefix = "declare";
    proof {
        reveal_strlit("declare");
        lemma_tag_fits(prefix);
    }
    compute_txn_hash(
        prefix.as_bytes(),
        TransactionVersion::one(),
        txn.sender_address,
        None,
        HashChain::single(txn.class_hash.0),
        Some(txn.max_fee),
        chain_id,
        NonceOrClassHash::Nonce(txn.nonce),
        None,
    )
}

/// The hash of a declaration of version 2.
fn compute_declare_v2_hash(txn: &DeclareTransactionV2, chain_id: ChainId) -> (r: TransactionHash)
    ensures
        r.0@ == declare_v2_hash_of(*txn, chain_id.0@),
{
    let prefix = "declare";
    proof {
        reveal_strlit("declare");
        lemma_tag_fits(prefix);
        assert(seq![txn.nonce.0@] + seq![txn.compiled_class_hash.0@] =~= seq![
            txn.nonce.0@,
            txn.compiled_class_hash.0@,
        ]);
    }
    compute_txn_hash(
        prefix.as_bytes(),
        TransactionVersion::two(),
        txn.sender_address,
        None,
        HashChain::single(txn.class_hash.0),
        Some(txn.max_fee),
        chain_id,
        NonceOrClassHash::Nonce(txn.nonce),
        Some(txn.compiled_class_hash),
    )
}

/// The hash of a declaration of version 3.
fn compute_declare_v3_hash(txn: &DeclareTransactionV3, chain_id: ChainId) -> (r: TransactionHash)
    ensures
        r.0@ == declare_v3_hash_of(*txn, chain_id.0@),
{
    let prefix = "declare";
    proof {
        reveal_strlit("declare");
        lemma_tag_fits(prefix);
    }
    let mut declare_specific_data: Vec<Felt> = Vec::new();
    declare_specific_data.push(poseidon_hash_many(txn.account_deployment_data.as_slice()));
    declare_specific_data.push(txn.class_hash.0);
    declare_specific_data.push(txn.compiled_class_hash.0);
    proof {
        assert(felt_values(declare_specific_data@) =~= seq![
            poseidon_many(felt_values(txn.account_deployment_data@)),
            txn.class_hash.0@,
            txn.compiled_class_hash.0@,
        ]);
    }
    compute_v3_txn_hash(
        prefix.as_bytes(),
        TransactionVersion::three(),
        txn.sender_address,
        chain_id,
        txn.nonce,
        declare_specific_data.as_slice(),
        txn.tip,
        txn.paymaster_data.as_slice(),
        txn.nonce_data_availability_mode,
        txn.fee_data_availability_mode,
        txn.resource_bounds,
    )
}

/// The hash of a deployment: the canonical one, or the one of the oldest
/// formula where only that gives the reported hash.
fn compute_deploy_hash(txn: &DeployTransaction, chain_id: ChainId) -> (r: TransactionHash)
    ensures
        r.0@ == resolved_hash(
            txn.transaction_hash.0@,
            deploy_hash_of(*txn, chain_id.0@),
            seq![deploy_legacy_hash_of(*txn, chain_id.0@)],
        ),
{
    let constructor_tag = "constructor";
    let prefix = "deploy";
    proof {
        reveal_strlit("deploy");
        lemma_tag_fits(prefix);
    }
    let constructor = EntryPoint(starknet_keccak(constructor_tag.as_bytes()));
    let constructor_params_hash = hash_elements(txn.constructor_calldata.as_slice());

    let h = compute_txn_hash(
        prefix.as_bytes(),
        txn.version,
        txn.contract_address,
        Some(constructor),
        constructor_params_hash,
        None,
        chain_id,
        NonceOrClassHash::Neither,
        None,
    );
    proof {
        assert(Seq::<nat>::empty() + Seq::<nat>::empty() =~= Seq::<nat>::empty());
        h.0.lemma_view_injective(txn.transaction_hash.0);
    }
    if h == txn.transaction_hash {
        h
    } else {
        let legacy = legacy_compute_txn_hash(
            prefix.as_bytes(),
            txn.contract_address,
            Some(constructor),
            constructor_params_hash,
            chain_id,
            None,
        );
        let mut fallbacks: Vec<TransactionHash> = Vec::new();
        fallbacks.push(legacy);
        proof {
            assert(hash_values(fallbacks@) =~= seq![deploy_legacy_hash_of(*txn, chain_id.0@)]);
        }
        resolve_hash(txn.transaction_hash, h, fallbacks.as_slice())
    }
}

/// The hash of a deployment of an account, of version 0 or 1.
fn compute_deploy_account_v0v1_hash(
    txn: &DeployAccountTransactionV0V1,
    chain_id: ChainId,
) -> (r: TransactionHash)
    ensures
        r.0@ == deploy_account_v0v1_hash_of(*txn, chain_id.0@),
{
    let prefix = "deploy_account";
    proof {
        reveal_strlit("deploy_account");
        lemma_tag_fits(prefix);
    }
    let mut hh = HashChain::new();
    hh.update(txn.class_hash.0);
    hh.update(txn.contract_address_salt.0);
    hh.update_all(txn.constructor_calldata.as_slice());
    proof {
        assert(hh@ =~= seq![txn.class_hash.0@, txn.contract_address_salt.0@] + felt_values(
            txn.constructor_calldata@,
        ));
    }
    let list_hash = hh.finalize();
    compute_txn_hash(
        prefix.as_bytes(),
        txn.version,
        txn.contract_address,
        None,
        list_hash,
        Some(txn.max_fee),
        chain_id,
        NonceOrClassHash::Nonce(txn.nonce),
        None,
    )
}

/// The hash of a deployment of an account, of version 3.
fn compute_deploy_account_v3_hash(
    txn: &DeployAccountTransactionV3,
    chain_id: ChainId,
) -> (r: TransactionHash)
    ensures
        r.0@ == deploy_account_v3_hash_of(*txn, chain_id.0@),
{
    let prefix = "deploy_account";
    proof {
        reveal_strlit("deploy_account");
        lemma_tag_fits(prefix);
    }
    let mut deploy_account_specific_data: Vec<Felt> = Vec::new();
    deploy_account_specific_data.push(poseidon_hash_many(txn.constructor_calldata.as_slice()));
    deploy_account_specific_data.push(txn.class_hash.0);
    deploy_account_specific_data.push(txn.contract_address_salt.0);
    proof {
        assert(felt_values(deploy_account_specific_data@) =~= seq![
            poseidon_many(felt_values(txn.constructor_calldata@)),
            txn.class_hash.0@,
            txn.contract_address_salt.0@,
        ]);
    }
    compute_v3_txn_hash(
        prefix.as_bytes(),
        TransactionVersion::three(),
        txn.sender_address,
        chain_id,
        txn.nonce,
        deploy_account_specific_data.as_slice(),
        txn.tip,
        txn.paymaster_data.as_slice(),
        txn.nonce_data_availability_mode,
        txn.fee_data_availability_mode,
        txn.resource_bounds,
    )
}

/// The hash of an invocation of version 0: the canonical one, or the one of
/// the oldest formula where only that gives the reported hash.
fn compute_invoke_v0_hash(txn: &InvokeTransactionV0, chain_id: ChainId) -> (r: TransactionHash)
    ensures
        r.0@ == resolved_hash(
            txn.transaction_hash.0@,
            invoke_v0_hash_of(*txn, chain_id.0@),
            seq![invoke_v0_legacy_hash_of(*txn, chain_id.0@)],
        ),
{
    let prefix = "invoke";
    proof {
        reveal_strlit("invoke");
        lemma_tag_fits(prefix);
    }
    let call_params_hash = hash_elements(txn.calldata.as_slice());

    let h = compute_txn_hash(
        prefix.as_bytes(),
        TransactionVersion::zero(),
        txn.sender_address,
        Some(txn.entry_point_selector),
        call_params_hash,
        Some(txn.max_fee),
        chain_id,
        NonceOrClassHash::Neither,
        None,
    );
    proof {
        assert(Seq::<nat>::empty() + Seq::<nat>::empty() =~= Seq::<nat>::empty());
        h.0.lemma_view_injective(txn.transaction_hash.0);
    }
    if h == txn.transaction_hash {
        h
    } else {
        let legacy = legacy_compute_txn_hash(
            prefix.as_bytes(),
            txn.sender_address,
            Some(txn.entry_point_selector),
            call_params_hash,
            chain_id,
            None,
        );
        let mut fallbacks: Vec<TransactionHash> = Vec::new();
        fallbacks.push(legacy);
        proof {
            assert(hash_values(fallbacks@) =~= seq![invoke_v0_legacy_hash_of(*txn, chain_id.0@)]);
        }
        resolve_hash(txn.transaction_hash, h, fallbacks.as_slice())
    }
}

/// The hash of an invocation of version 1.
fn compute_invoke_v1_hash(txn: &InvokeTransactionV1, chain_id: ChainId) -> (r: TransactionHash)
    ensures
        r.0@ == invoke_v1_hash_of(*txn, chain_id.0@),
{
    let prefix = "invoke";
    proof {
        reveal_strlit("invoke");
        lemma_tag_fits(prefix);
    }
    compute_txn_hash(
        prefix.as_bytes(),
        TransactionVersion::one(),
        txn.sender_address,
        None,
        hash_elements(txn.calldata.as_slice()),
        Some(txn.max_fee),
        chain_id,
        NonceOrClassHash::Nonce(txn.nonce),
        None,
    )
}

/// The hash of an invocation of version 3.
fn compute_invoke_v3_hash(txn: &InvokeTransactionV3, chain_id: ChainId) -> (r: TransactionHash)
    ensures
        r.0@ == invoke_v3_hash_of(*txn, chain_id.0@),
{
    let prefix = "invoke";
    proof {
        reveal_strlit("invoke");
        lemma_tag_fits(prefix);
    }
    let mut invoke_specific_data: Vec<Felt> = Vec::new();
    invoke_specific_data.push(poseidon_hash_many(txn.account_deployment_data.as_slice()));
    invoke_specific_data.push(poseidon_hash_many(txn.calldata.as_slice()));
    proof {
        assert(felt_values(invoke_specific_data@) =~= seq![
            poseidon_many(felt_values(txn.account_deployment_data@)),
            poseidon_many(felt_values(txn.calldata@)),
        ]);
    }
    compute_v3_txn_hash(
        prefix.as_bytes(),
        TransactionVersion::three(),
        txn.sender_address,
        chain_id,
        txn.nonce,
        invoke_specific_data.as_slice(),
        txn.tip,
        txn.paymaster_data.as_slice(),
        txn.nonce_data_availability_mode,
        txn.fee_data_availability_mode,
        txn.resource_bounds,
    )
}

/// The hash of an L1 handler: the canonical one, or the first of the two
/// older formulas that gives the reported hash, that with the nonce first.
fn compute_l1_handler_hash(txn: &L1HandlerTransaction, chain_id: ChainId) -> (r: TransactionHash)
    ensures
        r.0@ == resolved_hash(
            txn.transaction_hash.0@,
            l1_handler_hash_of(*txn, chain_id.0@),
            seq![
                l1_handler_legacy_hash_of(*txn, chain_id.0@),
                l1_handler_as_invoke_hash_of(*txn, chain_id.0@),
            ],
        ),
{
    let prefix = "l1_handler";
    let invoke_prefix = "invoke";
    proof {
        reveal_strlit("l1_handler");
        reveal_strlit("invoke");
        lemma_tag_fits(prefix);
        lemma_tag_fits(invoke_prefix);
    }
    let call_params_hash = hash_elements(txn.calldata.as_slice());

    let h = compute_txn_hash(
        prefix.as_bytes(),
        txn.version,
        txn.contract_address,
        Some(txn.entry_point_selector),
        call_params_hash,
        None,
        chain_id,
        NonceOrClassHash::Nonce(txn.nonce),
        None,
    );
    proof {
        assert(seq![txn.nonce.0@] + Seq::<nat>::empty() =~= seq![txn.nonce.0@]);
        h.0.lemma_view_injective(txn.transaction_hash.0);
    }
    if h == txn.transaction_hash {
        h
    } else {
        // When the network first gave L1 handlers a nonce, it hashed them
        // without a version.
        let with_nonce = legacy_compute_txn_hash(
            prefix.as_bytes(),
            txn.contract_address,
            Some(txn.entry_point_selector),
            call_params_hash,
            chain_id,
            Some(txn.nonce.0),
        );
        // The oldest L1 handlers were invocations, and kept their hashes
        // when they were given their own kind.
        let as_invoke = legacy_compute_txn_hash(
            invoke_prefix.as_bytes(),
            txn.contract_address,
            Some(txn.entry_point_selector),
            call_params_hash,
            chain_id,
            None,
        );
        let mut fallbacks: Vec<TransactionHash> = Vec::new();
        fallbacks.push(with_nonce);
        fallbacks.push(as_invoke);
        proof {
            assert(hash_values(fallbacks@) =~= seq![
                l1_handler_legacy_hash_of(*txn, chain_id.0@),
                l1_handler_as_invoke_hash_of(*txn, chain_id.0@),
            ]);
        }
        resolve_hash(txn.transaction_hash, h, fallbacks.as_slice())
    }
}

/// Picks the hash that stands for a transaction: the reported one where the
/// canonical hash or one of the older formulas' hashes is the reported one,
/// else the canonical one.
pub fn resolve_hash(
    reported: TransactionHash,
    canonical: TransactionHash,
    fallbacks: &[TransactionHash],
) -> (r: TransactionHash)
    ensures
        r.0@ == resolved_hash(reported.0@, canonical.0@, hash_values(fallbacks@)),
{
    proof {
        reported.0.lemma_view_injective(canonical.0);
    }
    if canonical == reported {
        return canonical;
    }
    let mut i: usize = 0;
    while i < fallbacks.len()
        invariant
            i <= fallbacks@.len(),
            canonical.0@ != reported.0@,
            forall|j: int| 0 <= j < i ==> hash_values(fallbacks@)[j] != reported.0@,
        decreases fallbacks@.len() - i,
    {
        proof {
            reported.0.lemma_view_injective(fallbacks@[i as int].0);
        }
        if fallbacks[i] == reported {
            proof {
                assert(hash_values(fallbacks@)[i as int] == reported.0@);
            }
            return reported;
        }
        i = i + 1;
    }
    canonical
}

/// The hash of a transaction by the oldest formula, which knows no version
/// and no fee.
fn legacy_compute_txn_hash(
    prefix: &[u8],
    address: ContractAddress,
    entry_point_selector: Option<EntryPoint>,
    list_hash: Felt,
    chain_id: ChainId,
    additional_data: Option<Felt>,
) -> (r: TransactionHash)
    requires
        prefix@.len() <= 32,
        be_value(prefix@) < modulus(),
    ensures
        r.0@ == legacy_txn_hash_of(
            prefix@,
            address.0@,
            entry_point_or_zero(entry_point_selector),
            list_hash@,
            chain_id.0@,
            optional_element(additional_data),
        ),
{
    let mut h = HashChain::new();
    h.update(prefix_element(prefix));
    h.update(address.0);
    h.update(
        match entry_point_selector {
            Some(e) => e.0,
            None => Felt::zero(),
        },
    );
    h.update(list_hash);
    h.update(chain_id.0);
    match additional_data {
        Some(felt) => {
            h.update(felt);
        },
        None => {},
    }
    proof {
        assert(h@ =~= seq![
            be_value(prefix@),
            address.0@,
            entry_point_or_zero(entry_point_selector),
            list_hash@,
            chain_id.0@,
        ] + optional_element(additional_data));
    }
    TransactionHash(h.finalize())
}

/// The field element that the bytes of a prefix denote.
fn prefix_element(prefix: &[u8]) -> (r: Felt)
    requires
        prefix@.len() <= 32,
        be_value(prefix@) < modulus(),
    ensures
        r@ == be_value(prefix@),
{
    Felt::from_be_slice(prefix).unwrap()
}

/// The hash of a transaction of version 0 to 2.
///
/// The prefix must denote a field element: at most 32 bytes, and a number
/// below the modulus.
pub fn compute_txn_hash(
    prefix: &[u8],
    version: TransactionVersion,
    address: ContractAddress,
    entry_point_selector: Option<EntryPoint>,
    list_hash: Felt,
    max_fee: Option<Fee>,
    chain_id: ChainId,
    nonce_or_class_hash: NonceOrClassHash,
    compiled_class_hash: Option<CasmHash>,
) -> (r: TransactionHash)
    requires
        prefix@.len() <= 32,
        be_value(prefix@) < modulus(),
    ensures
        r.0@ == txn_hash_of(
            prefix@,
            version.0@,
            address.0@,
            entry_point_or_zero(entry_point_selector),
            list_hash@,
            fee_or_zero(max_fee),
            chain_id.0@,
            nonce_or_class_hash.elements() + casm_elements(compiled_class_hash),
        ),
{
    let mut h = HashChain::new();
    h.update(prefix_element(prefix));
    h.update(version.0);
    h.update(address.0);
    h.update(
        match entry_point_selector {
            Some(e) => e.0,
            None => Felt::zero(),
        },
    );
    h.update(list_hash);
    h.update(
        match max_fee {
            Some(f) => f.0,
            None => Felt::zero(),
        },
    );
    h.update(chain_id.0);

    match nonce_or_class_hash {
        NonceOrClassHash::Nonce(nonce) => {
            h.update(nonce.0);
        },
        NonceOrClassHash::ClassHash(class_hash) => {
            h.update(class_hash.0);
        },
        NonceOrClassHash::Neither => {},
    }

    match compiled_class_hash {
        Some(compiled_class_hash) => {
            h.update(compiled_class_hash.0);
        },
        None => {},
    }
    proof {
        assert(h@ =~= seq![
            be_value(prefix@),
            version.0@,
            address.0@,
            entry_point_or_zero(entry_point_selector),
            list_hash@,
            fee_or_zero(max_fee),
            chain_id.0@,
        ] + (nonce_or_class_hash.elements() + casm_elements(compiled_class_hash)));
    }
    TransactionHash(h.finalize())
}

/// The hash of a transaction of version 3.
///
/// The prefix must denote a field element: at most 32 bytes, and a number
/// below the modulus.
pub fn compute_v3_txn_hash(
    prefix: &[u8],
    version: TransactionVersion,
    sender_address: ContractAddress,
    chain_id: ChainId,
    nonce: TransactionNonce,
    tx_type_specific_data: &[Felt],
    tip: Tip,
    paymaster_data: &[PaymasterDataElem],
    nonce_data_availability_mode: DataAvailabilityMode,
    fee_data_availability_mode: DataAvailabilityMode,
    resource_bounds: ResourceBounds,
) -> (r: TransactionHash)
    requires
        prefix@.len() <= 32,
        be_value(prefix@) < modulus(),
    ensures
        r.0@ == v3_txn_hash_of(
            prefix@,
            version.0@,
            sender_address.0@,
            chain_id.0@,
            nonce.0@,
            felt_values(tx_type_specific_data@),
            tip,
            felt_values(paymaster_data@),
            nonce_data_availability_mode,
            fee_data_availability_mode,
            resource_bounds,
        ),
{
    let fee_fields_hash = hash_fee_related_fields(&tip, &resource_bounds);
    let da_mode_concatenation: u64 = nonce_data_availability_mode.to_u64() * 0x1_0000_0000
        + fee_data_availability_mode.to_u64();

    let mut elements: Vec<Felt> = Vec::new();
    elements.push(prefix_element(prefix));
    elements.push(version.0);
    elements.push(sender_address.0);
    elements.push(fee_fields_hash);
    elements.push(poseidon_hash_many(paymaster_data));
    elements.push(chain_id.0);
    elements.push(nonce.0);
    elements.push(Felt::from_u64(da_mode_concatenation));
    let ghost head = felt_values(elements@);
    let mut i: usize = 0;
    while i < tx_type_specific_data.len()
        invariant
            i <= tx_type_specific_data@.len(),
            felt_values(elements@) == head + felt_values(tx_type_specific_data@).subrange(
                0,
                i as int,
            ),
        decreases tx_type_specific_data@.len() - i,
    {
        let ghost before = elements@;
        elements.push(tx_type_specific_data[i]);
        proof {
            assert(felt_values(elements@) =~= felt_values(before).push(
                tx_type_specific_data@[i as int]@,
            ));
            assert(felt_values(tx_type_specific_data@).subrange(0, i + 1) =~= felt_values(
                tx_type_specific_data@,
            ).subrange(0, i as int).push(tx_type_specific_data@[i as int]@));
            assert(felt_values(elements@) =~= head + felt_values(
                tx_type_specific_data@,
            ).subrange(0, i + 1));
        }
        i = i + 1;
    }
    proof {
        assert(felt_values(tx_type_specific_data@).subrange(0, i as int) =~= felt_values(
            tx_type_specific_data@,
        ));
        assert(head =~= seq![
            be_value(prefix@),
            version.0@,
            sender_address.0@,
            fee_fields_hash_of(tip, resource_bounds),
            poseidon_many(felt_values(paymaster_data@)),
            chain_id.0@,
            nonce.0@,
            da_mode_of(nonce_data_availability_mode, fee_data_availability_mode),
        ]);
    }
    TransactionHash(poseidon_hash_many(elements.as_slice()))
}

/// The hash of the fields of a transaction that speak of its fee.
fn hash_fee_related_fields(tip: &Tip, resource_bounds: &ResourceBounds) -> (r: Felt)
    ensures
        r@ == fee_fields_hash_of(*tip, *resource_bounds),
{
    let l1_name = "L1_GAS";
    let l2_name = "L2_GAS";
    proof {
        reveal_strlit("L1_GAS");
        reveal_strlit("L2_GAS");
        lemma_tag_fits(l1_name);
        lemma_tag_fits(l2_name);
    }
    let mut elements: Vec<Felt> = Vec::new();
    elements.push(Felt::from_u64(tip.0));
    elements.push(flattened_bounds(l1_name.as_bytes(), resource_bounds.l1_gas));
    elements.push(flattened_bounds(l2_name.as_bytes(), resource_bounds.l2_gas));
    proof {
        assert(felt_values(elements@) =~= seq![
            tip.0 as nat,
            flattened_bounds_of(tag("L1_GAS"), resource_bounds.l1_gas),
            flattened_bounds_of(tag("L2_GAS"), resource_bounds.l2_gas),
        ]);
    }
    poseidon_hash_many(elements.as_slice())
}

/// One resource bound as a single field element.
fn flattened_bounds(resource_name: &[u8], resource_bound: ResourceBound) -> (r: Felt)
    requires
        resource_name@.len() <= 7,
    ensures
        r@ == flattened_bounds_of(resource_name@, resource_bound),
{
    let name: u128 = be_u128(resource_name, 0, resource_name.len());
    proof {
        assert(resource_name@.subrange(0, resource_name@.len() as int) =~= resource_name@);
        lemma_be_value_bound(resource_name@);
        lemma_pow256_increases(resource_name@.len(), 7);
        assert(pow256(7) == 0x100_0000_0000_0000) by {
            reveal_with_fuel(pow256, 8);
        }
    }
    let hi: u128 = name * 0x1_0000_0000_0000_0000 + resource_bound.max_amount.0 as u128;
    let lo: u128 = resource_bound.max_price_per_unit.0;
    proof {
        crate::felt::lemma_u128_below_pow128(lo);
        assert(crate::felt::halves_value(hi, lo) < modulus()) by (nonlinear_arith)
            requires
                hi < crate::felt::MODULUS_HI,
                lo < pow128(),
        ;
    }
    Felt::from_halves(hi, lo).unwrap()
}

} // verus!
