//! Transactions as the gateway reports them: each variant with the fields
//! that its hash is made of, and the hash it reports of itself.

use crate::common::{
    AccountDeploymentDataElem, CallParam, CasmHash, ClassHash, ConstructorParam, ContractAddress,
    ContractAddressSalt, DataAvailabilityMode, EntryPoint, Fee, PaymasterDataElem,
    ResourceBounds, Tip, TransactionHash, TransactionNonce, TransactionVersion,
};
use vstd::prelude::*;

verus! {

/// The kind of entry point that an invocation enters.
#[derive(Clone, Copy, Debug, PartialEq, Eq, Hash, Structural)]
pub enum EntryPointType {
    External,
    L1Handler,
}

/// A declaration of version 0 or 1.
#[derive(Clone, Copy, Debug, PartialEq, Eq)]
pub struct DeclareTransactionV0V1 {
    pub class_hash: ClassHash,
    pub max_fee: Fee,
    pub nonce: TransactionNonce,
    pub sender_address: ContractAddress,
    pub transaction_hash: TransactionHash,
}

/// A declaration of version 2.
#[derive(Clone, Copy, Debug, PartialEq, Eq)]
pub struct DeclareTransactionV2 {
    pub class_hash: ClassHash,
    pub max_fee: Fee,
    pub nonce: TransactionNonce,
    pub sender_address: ContractAddress,
    pub transaction_hash: TransactionHash,
    pub compiled_class_hash: CasmHash,
}

/// A declaration of version 3.
#[derive(Clone, Debug, PartialEq, Eq)]
pub struct DeclareTransactionV3 {
    pub class_hash: ClassHash,
    pub nonce: TransactionNonce,
    pub nonce_data_availability_mode: DataAvailabilityMode,
    pub fee_data_availability_mode: DataAvailabilityMode,
    pub resource_bounds: ResourceBounds,
    pub tip: Tip,
    pub paymaster_data: Vec<PaymasterDataElem>,
    pub sender_address: ContractAddress,
    pub transaction_hash: TransactionHash,
    pub compiled_class_hash: CasmHash,
    pub account_deployment_data: Vec<AccountDeploymentDataElem>,
}

/// A declaration of any version.
#[derive(Clone, Debug, PartialEq, Eq)]
pub enum DeclareTransaction {
    V0(DeclareTransactionV0V1),
    V1(DeclareTransactionV0V1),
    V2(DeclareTransactionV2),
    V3(DeclareTransactionV3),
}

/// A deployment of a contract.
#[derive(Clone, Debug, PartialEq, Eq)]
pub struct DeployTransaction {
    pub contract_address: ContractAddress,
    pub contract_address_salt: ContractAddressSalt,
    pub class_hash: ClassHash,
    pub constructor_calldata: Vec<ConstructorParam>,
    pub transaction_hash: TransactionHash,
    pub version: TransactionVersion,
}

/// A deployment of an account, of version 0 or 1.
#[derive(Clone, Debug, PartialEq, Eq)]
pub struct DeployAccountTransactionV0V1 {
    pub contract_address: ContractAddress,
    pub transaction_hash: TransactionHash,
    pub max_fee: Fee,
    pub version: TransactionVersion,
    pub nonce: TransactionNonce,
    pub contract_address_salt: ContractAddressSalt,
    pub constructor_calldata: Vec<CallParam>,
    pub class_hash: ClassHash,
}

/// A deployment of an account, of version 3.
#[derive(Clone, Debug, PartialEq, Eq)]
pub struct DeployAccountTransactionV3 {
    pub nonce: TransactionNonce,
    pub nonce_data_availability_mode: DataAvailabilityMode,
    pub fee_data_availability_mode: DataAvailabilityMode,
    pub resource_bounds: ResourceBounds,
    pub tip: Tip,
    pub paymaster_data: Vec<PaymasterDataElem>,
    pub sender_address: ContractAddress,
    pub transaction_hash: TransactionHash,
    pub version: TransactionVersion,
    pub contract_address_salt: ContractAddressSalt,
    pub constructor_calldata: Vec<CallParam>,
    pub class_hash: ClassHash,
}

/// A deployment of an account, of any version.
#[derive(Clone, Debug, PartialEq, Eq)]
pub enum DeployAccountTransaction {
    V0V1(DeployAccountTransactionV0V1),
    V3(DeployAccountTransactionV3),
}

/// An invocation of version 0.
#[derive(Clone, Debug, PartialEq, Eq)]
pub struct InvokeTransactionV0 {
    pub calldata: Vec<CallParam>,
    pub sender_address: ContractAddress,
    pub entry_point_selector: EntryPoint,
    pub entry_point_type: Option<EntryPointType>,
    pub max_fee: Fee,
    pub transaction_hash: TransactionHash,
}

/// An invocation of version 1.
#[derive(Clone, Debug, PartialEq, Eq)]
pub struct InvokeTransactionV1 {
    pub calldata: Vec<CallParam>,
    pub sender_address: ContractAddress,
    pub max_fee: Fee,
    pub nonce: TransactionNonce,
    pub transaction_hash: TransactionHash,
}

/// An invocation of version 3.
#[derive(Clone, Debug, PartialEq, Eq)]
pub struct InvokeTransactionV3 {
    pub nonce: TransactionNonce,
    pub nonce_data_availability_mode: DataAvailabilityMode,
    pub fee_data_availability_mode: DataAvailabilityMode,
    pub resource_bounds: ResourceBounds,
    pub tip: Tip,
    pub paymaster_data: Vec<PaymasterDataElem>,
    pub sender_address: ContractAddress,
    pub transaction_hash: TransactionHash,
    pub calldata: Vec<CallParam>,
    pub account_deployment_data: Vec<AccountDeploymentDataElem>,
}

/// An invocation of any version.
#[derive(Clone, Debug, PartialEq, Eq)]
pub enum InvokeTransaction {
    V0(InvokeTransactionV0),
    V1(InvokeTransactionV1),
    V3(InvokeTransactionV3),
}

/// A message from the first layer that a contract handles.
#[derive(Clone, Debug, PartialEq, Eq)]
pub struct L1HandlerTransaction {
    pub contract_address: ContractAddress,
    pub entry_point_selector: EntryPoint,
    pub nonce: TransactionNonce,
    pub calldata: Vec<CallParam>,
    pub transaction_hash: TransactionHash,
    pub version: TransactionVersion,
}

/// A transaction of any kind and version.
#[derive(Clone, Debug, PartialEq, Eq)]
pub enum Transaction {
    Declare(DeclareTransaction),
    Deploy(DeployTransaction),
    DeployAccount(DeployAccountTransaction),
    Invoke(InvokeTransaction),
    L1Handler(L1HandlerTransaction),
}

impl Transaction {
    /// The hash that the transaction reports of itself.
    pub open spec fn reported_hash(self) -> TransactionHash {
        match self {
            Transaction::Declare(DeclareTransaction::V0(t)) => t.transaction_hash,
            Transaction::Declare(DeclareTransaction::V1(t)) => t.transaction_hash,
            Transaction::Declare(DeclareTransaction::V2(t)) => t.transaction_hash,
            Transaction::Declare(DeclareTransaction::V3(t)) => t.transaction_hash,
            Transaction::Deploy(t) => t.transaction_hash,
            Transaction::DeployAccount(DeployAccountTransaction::V0V1(t)) => t.transaction_hash,
            Transaction::DeployAccount(DeployAccountTransaction::V3(t)) => t.transaction_hash,
            Transaction::Invoke(InvokeTransaction::V0(t)) => t.transaction_hash,
            Transaction::Invoke(InvokeTransaction::V1(t)) => t.transaction_hash,
            Transaction::Invoke(InvokeTransaction::V3(t)) => t.transaction_hash,
            Transaction::L1Handler(t) => t.transaction_hash,
        }
    }

    /// The hash that the transaction reports of itself.
    pub fn hash(&self) -> (r: TransactionHash)
        ensures
            r == self.reported_hash(),
    {
        match self {
            Transaction::Declare(DeclareTransaction::V0(t)) => t.transaction_hash,
            Transaction::Declare(DeclareTransaction::V1(t)) => t.transaction_hash,
            Transaction::Declare(DeclareTransaction::V2(t)) => t.transaction_hash,
            Transaction::Declare(DeclareTransaction::V3(t)) => t.transaction_hash,
            Transaction::Deploy(t) => t.transaction_hash,
            Transaction::DeployAccount(DeployAccountTransaction::V0V1(t)) => t.transaction_hash,
            Transaction::DeployAccount(DeployAccountTransaction::V3(t)) => t.transaction_hash,
            Transaction::Invoke(InvokeTransaction::V0(t)) => t.transaction_hash,
            Transaction::Invoke(InvokeTransaction::V1(t)) => t.transaction_hash,
            Transaction::Invoke(InvokeTransaction::V3(t)) => t.transaction_hash,
            Transaction::L1Handler(t) => t.transaction_hash,
        }
    }
}

/// What [`for_legacy_l1_handlers`] makes of a transaction.
pub open spec fn as_l1_handler(tx: Transaction) -> Transaction {
    match tx {
        Transaction::Invoke(InvokeTransaction::V0(t)) => if t.entry_point_type == Some(
            EntryPointType::L1Handler,
        ) {
            Transaction::L1Handler(
                L1HandlerTransaction {
                    contract_address: t.sender_address,
                    entry_point_selector: t.entry_point_selector,
                    nonce: TransactionNonce(crate::felt::Felt::from_u64_spec(0)),
                    calldata: t.calldata,
                    transaction_hash: t.transaction_hash,
                    version: TransactionVersion(crate::felt::Felt::from_u64_spec(0)),
                },
            )
        } else {
            tx
        },
        _ => tx,
    }
}

/// Turns an invocation of version 0 that enters an L1 handler into the L1
/// handler transaction it stands for, with nonce and version zero, and
/// leaves every other transaction as it is. The oldest messages from the
/// first layer were served as such invocations.
pub fn for_legacy_l1_handlers(tx: Transaction) -> (r: Transaction)
    ensures
        r == as_l1_handler(tx),
{
    match tx {
        Transaction::Invoke(InvokeTransaction::V0(t)) => {
            let is_handler = match t.entry_point_type {
                Some(EntryPointType::L1Handler) => true,
                _ => false,
            };
            if is_handler {
                Transaction::L1Handler(
                    L1HandlerTransaction {
                        contract_address: t.sender_address,
                        entry_point_selector: t.entry_point_selector,
                        nonce: TransactionNonce(crate::felt::Felt::zero()),
                        calldata: t.calldata,
                        transaction_hash: t.transaction_hash,
                        version: TransactionVersion(crate::felt::Felt::zero()),
                    },
                )
            } else {
                Transaction::Invoke(InvokeTransaction::V0(t))
            }
        },
        other => other,
    }
}

} // verus!
