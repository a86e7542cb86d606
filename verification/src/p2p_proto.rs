//! What peers send each other about transactions, and the parts that all
//! their streams share: the cursor of a request and the trailer of a
//! stream.

use crate::felt::Felt;
use vstd::prelude::*;

verus! {

/// A hash on the wire.
#[derive(Clone, Copy, Debug, PartialEq, Eq, Hash, Structural)]
pub struct Hash(pub Felt);

/// An address on the wire.
#[derive(Clone, Copy, Debug, PartialEq, Eq, Hash, Structural)]
pub struct Address(pub Felt);

/// The number and the hash of a block on the wire.
#[derive(Clone, Copy, Debug, PartialEq, Eq, Hash, Structural)]
pub struct BlockId {
    pub number: u64,
    pub hash: Hash,
}

/// The block at which a request begins.
#[derive(Clone, Copy, Debug, PartialEq, Eq, Hash, Structural)]
pub enum BlockNumberOrHash {
    Number(u64),
    Hash(Hash),
}

/// The way in which a request goes through the blocks.
#[derive(Clone, Copy, Debug, PartialEq, Eq, Hash, Structural)]
pub enum Direction {
    Forward,
    Backward,
}

/// The distance between two blocks of a request, at least one.
#[derive(Clone, Copy, Debug, PartialEq, Eq, Hash, Structural)]
pub struct Step(u64);

impl View for Step {
    type V = nat;

    closed spec fn view(&self) -> nat {
        self.0 as nat
    }
}

impl Step {
    #[verifier::type_invariant]
    spec fn at_least_one(self) -> bool {
        self.0 >= 1
    }

    /// The step that a request names: one where it names none or zero.
    pub open spec fn named(step: Option<u64>) -> nat {
        match step {
            Some(s) => if s == 0 {
                1
            } else {
                s as nat
            },
            None => 1,
        }
    }

    /// The step that a request names: one where it names none or zero.
    pub fn new(step: Option<u64>) -> (r: Step)
        ensures
            r@ == Step::named(step),
    {
        match step {
            Some(s) => if s == 0 {
                Step(1)
            } else {
                Step(s)
            },
            None => Step(1),
        }
    }

    /// The distance.
    pub fn into_inner(self) -> (r: u64)
        ensures
            r == self@,
            r >= 1,
    {
        proof {
            use_type_invariant(&self);
        }
        self.0
    }
}

impl Default for Step {
    fn default() -> (r: Step)
        ensures
            r@ == 1,
    {
        Step(1)
    }
}

/// The cursor of a request: where it begins, which way it goes, how many
/// blocks it asks for and how far they are apart.
#[derive(Clone, Copy, Debug, PartialEq, Eq, Hash, Structural)]
pub struct Iteration {
    pub start: BlockNumberOrHash,
    pub direction: Direction,
    pub limit: u64,
    pub step: Step,
}

/// Why a stream ended before it was complete.
#[derive(Clone, Copy, Debug, PartialEq, Eq, Hash, Structural)]
pub enum FinError {
    /// The peer is busy.
    Busy,
    /// The request asks for more than the peer serves at once.
    TooMuch,
    /// The peer does not have what comes next.
    Unknown,
    /// The peer has pruned what comes next.
    Pruned,
}

/// The trailer of a stream, and of each block in it.
#[derive(Clone, Copy, Debug, PartialEq, Eq, Hash, Structural)]
pub struct Fin {
    pub error: Option<FinError>,
}

impl Fin {
    /// The trailer of what was served in full.
    pub fn ok() -> (r: Fin)
        ensures
            r == (Fin { error: None }),
    {
        Fin { error: None }
    }

    /// The trailer of a stream that hit the peer's cap.
    pub fn too_much() -> (r: Fin)
        ensures
            r == (Fin { error: Some(FinError::TooMuch) }),
    {
        Fin { error: Some(FinError::TooMuch) }
    }

    /// The trailer of a stream that reached something the peer lacks.
    pub fn unknown() -> (r: Fin)
        ensures
            r == (Fin { error: Some(FinError::Unknown) }),
    {
        Fin { error: Some(FinError::Unknown) }
    }

    /// The trailer of a stream from a busy peer.
    pub fn busy() -> (r: Fin)
        ensures
            r == (Fin { error: Some(FinError::Busy) }),
    {
        Fin { error: Some(FinError::Busy) }
    }
}

/// The bound on one resource, on the wire.
#[derive(Clone, Copy, Debug, PartialEq, Eq)]
pub struct ResourceLimits {
    pub max_amount: Felt,
    pub max_price_per_unit: Felt,
}

/// The bounds on the gas of both layers, on the wire.
#[derive(Clone, Copy, Debug, PartialEq, Eq)]
pub struct ResourceBounds {
    pub l1_gas: ResourceLimits,
    pub l2_gas: ResourceLimits,
}

/// The signature of an account, on the wire.
#[derive(Clone, Debug, PartialEq, Eq)]
pub struct AccountSignature {
    pub parts: Vec<Felt>,
}

/// A declaration of version 0, on the wire.
#[derive(Clone, Debug, PartialEq, Eq)]
pub struct DeclareV0 {
    pub sender: Address,
    pub max_fee: Felt,
    pub signature: AccountSignature,
    pub class_hash: Hash,
}

/// A declaration of version 1, on the wire.
#[derive(Clone, Debug, PartialEq, Eq)]
pub struct DeclareV1 {
    pub sender: Address,
    pub max_fee: Felt,
    pub signature: AccountSignature,
    pub class_hash: Hash,
    pub nonce: Felt,
}

/// A declaration of version 2, on the wire.
#[derive(Clone, Debug, PartialEq, Eq)]
pub struct DeclareV2 {
    pub sender: Address,
    pub max_fee: Felt,
    pub signature: AccountSignature,
    pub class_hash: Hash,
    pub nonce: Felt,
    pub compiled_class_hash: Felt,
}

/// A declaration of version 3, on the wire.
#[derive(Clone, Debug, PartialEq, Eq)]
pub struct DeclareV3 {
    pub sender: Address,
    pub signature: AccountSignature,
    pub class_hash: Hash,
    pub nonce: Felt,
    pub compiled_class_hash: Felt,
    pub resource_bounds: ResourceBounds,
    pub tip: Felt,
    pub paymaster_data: Address,
    pub account_deployment_data: Address,
    pub nonce_domain: String,
    pub fee_domain: String,
}

/// A deployment of a contract, on the wire.
#[derive(Clone, Debug, PartialEq, Eq)]
pub struct Deploy {
    pub class_hash: Hash,
    pub address_salt: Felt,
    pub calldata: Vec<Felt>,
    pub address: Address,
    pub version: u32,
}

/// A deployment of an account of version 1, on the wire.
#[derive(Clone, Debug, PartialEq, Eq)]
pub struct DeployAccountV1 {
    pub max_fee: Felt,
    pub signature: AccountSignature,
    pub class_hash: Hash,
    pub nonce: Felt,
    pub address_salt: Felt,
    pub constructor_calldata: Vec<Felt>,
}

/// A deployment of an account of version 3, on the wire.
#[derive(Clone, Debug, PartialEq, Eq)]
pub struct DeployAccountV3 {
    pub signature: AccountSignature,
    pub class_hash: Hash,
    pub nonce: Felt,
    pub address_salt: Felt,
    pub calldata: Vec<Felt>,
    pub resource_bounds: ResourceBounds,
    pub tip: Felt,
    pub paymaster_data: Address,
    pub nonce_domain: String,
    pub fee_domain: String,
}

/// An invocation of version 0, on the wire.
#[derive(Clone, Debug, PartialEq, Eq)]
pub struct InvokeV0 {
    pub max_fee: Felt,
    pub signature: AccountSignature,
    pub address: Address,
    pub entry_point_selector: Felt,
    pub calldata: Vec<Felt>,
}

/// An invocation of version 1, on the wire.
#[derive(Clone, Debug, PartialEq, Eq)]
pub struct InvokeV1 {
    pub sender: Address,
    pub max_fee: Felt,
    pub signature: AccountSignature,
    pub nonce: Felt,
    pub calldata: Vec<Felt>,
}

/// An invocation of version 3, on the wire.
#[derive(Clone, Debug, PartialEq, Eq)]
pub struct InvokeV3 {
    pub sender: Address,
    pub signature: AccountSignature,
    pub calldata: Vec<Felt>,
    pub resource_bounds: ResourceBounds,
    pub tip: Felt,
    pub paymaster_data: Address,
    pub account_deployment_data: Address,
    pub nonce_domain: String,
    pub fee_domain: String,
    pub nonce: Felt,
}

/// A message from the first layer, on the wire.
#[derive(Clone, Debug, PartialEq, Eq)]
pub struct L1HandlerV0 {
    pub nonce: Felt,
    pub address: Address,
    pub entry_point_selector: Felt,
    pub calldata: Vec<Felt>,
}

/// A transaction on the wire.
#[derive(Clone, Debug, PartialEq, Eq)]
pub enum Transaction {
    DeclareV0(DeclareV0),
    DeclareV1(DeclareV1),
    DeclareV2(DeclareV2),
    DeclareV3(DeclareV3),
    Deploy(Deploy),
    DeployAccountV1(DeployAccountV1),
    DeployAccountV3(DeployAccountV3),
    InvokeV0(InvokeV0),
    InvokeV1(InvokeV1),
    InvokeV3(InvokeV3),
    L1HandlerV0(L1HandlerV0),
}

/// A request for the transactions of a run of blocks.
#[derive(Clone, Copy, Debug, PartialEq, Eq)]
pub struct TransactionsRequest {
    pub iteration: Iteration,
}

/// The transactions of one block.
#[derive(Clone, Debug, PartialEq, Eq)]
pub struct Transactions {
    pub items: Vec<Transaction>,
}

/// One message of the stream that answers a request for transactions.
#[derive(Clone, Debug, PartialEq, Eq)]
pub struct TransactionsResponse {
    /// The block that the message is about; none for the trailer of the
    /// stream.
    pub id: Option<BlockId>,
    pub kind: TransactionsResponseKind,
}

/// What a message of the stream holds.
#[derive(Clone, Debug, PartialEq, Eq)]
pub enum TransactionsResponseKind {
    Transactions(Transactions),
    Fin(Fin),
}

impl From<Fin> for TransactionsResponse {
    fn from(fin: Fin) -> (r: TransactionsResponse) {
        TransactionsResponse { id: None, kind: TransactionsResponseKind::Fin(fin) }
    }
}

impl vstd::std_specs::convert::FromSpecImpl<Fin> for TransactionsResponse {
    open spec fn obeys_from_spec() -> bool {
        true
    }

    open spec fn from_spec(fin: Fin) -> TransactionsResponse {
        TransactionsResponse { id: None, kind: TransactionsResponseKind::Fin(fin) }
    }
}

impl TransactionsResponse {
    /// The trailer that the message holds, if it holds one.
    pub fn into_fin(self) -> (r: Option<Fin>)
        ensures
            r == (match self.kind {
                TransactionsResponseKind::Fin(f) => Some(f),
                _ => None,
            }),
    {
        self.kind.into_fin()
    }
}

impl TransactionsResponseKind {
    /// The transactions that the message holds, if it holds any.
    pub fn into_transactions(self) -> (r: Option<Transactions>)
        ensures
            r == (match self {
                TransactionsResponseKind::Transactions(t) => Some(t),
                _ => None,
            }),
    {
        match self {
            TransactionsResponseKind::Transactions(t) => Some(t),
            _ => None,
        }
    }

    /// The trailer that the message holds, if it holds one.
    pub fn into_fin(self) -> (r: Option<Fin>)
        ensures
            r == (match self {
                TransactionsResponseKind::Fin(f) => Some(f),
                _ => None,
            }),
    {
        match self {
            TransactionsResponseKind::Fin(f) => Some(f),
            _ => None,
        }
    }
}

/// A transaction as the wire format frames it: the kind may be missing.
#[derive(Clone, Debug, PartialEq, Eq)]
pub struct WireTransaction {
    pub txn: Option<Transaction>,
}

/// A message of the stream as the wire format frames it.
#[derive(Clone, Debug, PartialEq, Eq)]
pub enum WireResponses {
    Transactions(Transactions),
    Fin(Fin),
}

/// Why a message could not be read.
#[derive(Clone, Debug, PartialEq, Eq)]
pub enum WireError {
    /// A field that must be there is missing: the field, and the message
    /// that lacks it.
    MissingField { field: String, message: String },
}

impl Transaction {
    /// The transaction as the wire format frames it.
    pub fn to_protobuf(self) -> (r: WireTransaction)
        ensures
            r.txn == Some(self),
    {
        WireTransaction { txn: Some(self) }
    }

    /// The transaction that a frame of the wire format holds. The name of
    /// the message is handed on in the error.
    pub fn try_from_protobuf(input: WireTransaction, field_name: &str) -> (r: Result<
        Transaction,
        WireError,
    >)
        ensures
            match input.txn {
                Some(txn) => r == Ok::<Transaction, WireError>(txn),
                None => r matches Err(WireError::MissingField { field, message }) && field@
                    == "txn"@ && message@ == field_name@,
            },
    {
        match input.txn {
            Some(txn) => Ok(txn),
            None => Err(
                WireError::MissingField {
                    field: "txn".to_string(),
                    message: field_name.to_string(),
                },
            ),
        }
    }
}

impl TransactionsResponseKind {
    /// The message as the wire format frames it.
    pub fn to_protobuf(self) -> (r: WireResponses)
        ensures
            r == (match self {
                TransactionsResponseKind::Transactions(t) => WireResponses::Transactions(t),
                TransactionsResponseKind::Fin(f) => WireResponses::Fin(f),
            }),
    {
        match self {
            TransactionsResponseKind::Transactions(t) => WireResponses::Transactions(t),
            TransactionsResponseKind::Fin(f) => WireResponses::Fin(f),
        }
    }

    /// The message that a frame of the wire format holds.
    pub fn try_from_protobuf(input: WireResponses, field_name: &str) -> (r: Result<
        TransactionsResponseKind,
        WireError,
    >)
        ensures
            r == Ok::<TransactionsResponseKind, WireError>(
                match input {
                    WireResponses::Transactions(t) => TransactionsResponseKind::Transactions(t),
                    WireResponses::Fin(f) => TransactionsResponseKind::Fin(f),
                },
            ),
    {
        match input {
            WireResponses::Transactions(t) => Ok(TransactionsResponseKind::Transactions(t)),
            WireResponses::Fin(f) => Ok(TransactionsResponseKind::Fin(f)),
        }
    }
}

} // verus!
