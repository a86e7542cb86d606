//! Block headers and the builder that makes them.

use crate::common::{
    state_commitment_of, BlockCommitmentSignature, BlockHash, BlockNumber, BlockTimestamp,
    ClassCommitment, EventCommitment, GasPrice, SequencerAddress, StarknetVersion,
    StateCommitment, StateUpdate, StorageCommitment, TransactionCommitment, I64_MAX,
};
use vstd::prelude::*;

verus! {

/// The header of a block.
#[derive(Clone, Copy, Debug, PartialEq, Eq)]
pub struct BlockHeader {
    pub hash: BlockHash,
    pub parent_hash: BlockHash,
    pub number: BlockNumber,
    pub timestamp: BlockTimestamp,
    pub eth_l1_gas_price: GasPrice,
    pub strk_l1_gas_price: GasPrice,
    pub sequencer_address: SequencerAddress,
    pub starknet_version: StarknetVersion,
    pub class_commitment: ClassCommitment,
    pub event_commitment: EventCommitment,
    pub state_commitment: StateCommitment,
    pub storage_commitment: StorageCommitment,
    pub transaction_commitment: TransactionCommitment,
    pub transaction_count: usize,
    pub event_count: usize,
}

/// A block header with the signature over its commitment.
#[derive(Clone, Copy, Debug, PartialEq, Eq)]
pub struct SignedBlockHeader {
    pub header: BlockHeader,
    pub signature: BlockCommitmentSignature,
}

impl SignedBlockHeader {
    /// What it is for the signature to be right for the header. The scheme
    /// is not settled yet: every signature is right.
    pub open spec fn signature_holds(self) -> bool {
        true
    }

    /// Whether the signature is right for the header.
    pub fn verify_signature(&self) -> (r: bool)
        ensures
            r == self.signature_holds(),
    {
        true
    }
}

impl Default for SignedBlockHeader {
    fn default() -> (r: SignedBlockHeader)
        ensures
            r.header.is_blank(),
            r.signature.r.0@ == 0,
            r.signature.s.0@ == 0,
    {
        SignedBlockHeader {
            header: BlockHeader::default(),
            signature: BlockCommitmentSignature::default(),
        }
    }
}

/// Makes a [`BlockHeader`] field by field. Its view is the header as it
/// stands.
pub struct BlockHeaderBuilder(BlockHeader);

impl View for BlockHeaderBuilder {
    type V = BlockHeader;

    closed spec fn view(&self) -> BlockHeader {
        self.0
    }
}

impl BlockHeader {
    /// Whether every field of the header is zero.
    pub open spec fn is_blank(self) -> bool {
        &&& self.parent_hash.0@ == 0
        &&& self.number@ == 0
        &&& self.is_blank_but_link()
    }

    /// Whether every field of the header but the number and the parent hash,
    /// which link it to the block before, is zero.
    pub open spec fn is_blank_but_link(self) -> bool {
        &&& self.hash.0@ == 0
        &&& self.timestamp@ == 0
        &&& self.eth_l1_gas_price.0 == 0
        &&& self.strk_l1_gas_price.0 == 0
        &&& self.sequencer_address.0@ == 0
        &&& self.starknet_version == (StarknetVersion {
            major: 0,
            minor: 0,
            patch: 0,
            pre_release: false,
        })
        &&& self.class_commitment.0@ == 0
        &&& self.event_commitment.0@ == 0
        &&& self.state_commitment.0@ == 0
        &&& self.storage_commitment.0@ == 0
        &&& self.transaction_commitment.0@ == 0
        &&& self.transaction_count == 0
        &&& self.event_count == 0
    }

    /// Whether the state commitment is the one that the storage and class
    /// commitments give under the header's version.
    pub open spec fn state_commitment_holds(self) -> bool {
        self.state_commitment.0@ == state_commitment_of(
            self.storage_commitment.0@,
            self.class_commitment.0@,
            self.starknet_version,
        )
    }

    /// A builder with every field zero.
    pub fn builder() -> (r: BlockHeaderBuilder)
        ensures
            r@.is_blank(),
    {
        BlockHeaderBuilder(BlockHeader::default())
    }

    /// A builder for the next block: every field zero but the number, which
    /// is this header's plus one, and the parent hash, which is this
    /// header's hash.
    pub fn child_builder(&self) -> (r: BlockHeaderBuilder)
        requires
            self.number@ < I64_MAX,
        ensures
            r@.number@ == self.number@ + 1,
            r@.parent_hash == self.hash,
            r@.is_blank_but_link(),
    {
        let number = BlockNumber::new_or_panic(self.number.get() + 1);
        BlockHeader::builder().with_number(number).with_parent_hash(self.hash)
    }

    /// A state update for this block: every field zero but the block hash
    /// and the state commitment, which are this header's.
    pub fn init_state_update(&self) -> (r: StateUpdate)
        ensures
            r.block_hash == self.hash,
            r.state_commitment == self.state_commitment,
            r.parent_state_commitment.0@ == 0,
    {
        StateUpdate::default().with_block_hash(self.hash).with_state_commitment(
            self.state_commitment,
        )
    }

    /// What it is for the hash to be the one that the header's fields
    /// give. The rule is not settled yet: every hash is right.
    pub open spec fn hash_holds(self) -> bool {
        true
    }

    /// Whether the hash is the one that the header's fields give.
    pub fn verify_hash(&self) -> (r: bool)
        ensures
            r == self.hash_holds(),
    {
        true
    }
}

impl Default for BlockHeader {
    fn default() -> (r: BlockHeader)
        ensures
            r.is_blank(),
    {
        BlockHeader {
            hash: BlockHash::zero(),
            parent_hash: BlockHash::zero(),
            number: BlockNumber::genesis(),
            timestamp: BlockTimestamp::default(),
            eth_l1_gas_price: GasPrice::zero(),
            strk_l1_gas_price: GasPrice::zero(),
            sequencer_address: SequencerAddress::zero(),
            starknet_version: StarknetVersion::default(),
            class_commitment: ClassCommitment::zero(),
            event_commitment: EventCommitment::zero(),
            state_commitment: StateCommitment::zero(),
            storage_commitment: StorageCommitment::zero(),
            transaction_commitment: TransactionCommitment::zero(),
            transaction_count: 0,
            event_count: 0,
        }
    }
}

impl BlockHeaderBuilder {
    /// Sets the number.
    pub fn with_number(self, number: BlockNumber) -> (r: BlockHeaderBuilder)
        ensures
            r@ == (BlockHeader { number, ..self@ }),
    {
        BlockHeaderBuilder(BlockHeader { number, ..self.0 })
    }

    /// Sets the hash of the parent.
    pub fn with_parent_hash(self, parent_hash: BlockHash) -> (r: BlockHeaderBuilder)
        ensures
            r@ == (BlockHeader { parent_hash, ..self@ }),
    {
        BlockHeaderBuilder(BlockHeader { parent_hash, ..self.0 })
    }

    /// Sets the state commitment.
    pub fn with_state_commitment(self, state_commitment: StateCommitment) -> (r:
        BlockHeaderBuilder)
        ensures
            r@ == (BlockHeader { state_commitment, ..self@ }),
    {
        BlockHeaderBuilder(BlockHeader { state_commitment, ..self.0 })
    }

    /// Sets the state commitment to the one that the storage and class
    /// commitments give under the version, as they stand in the builder.
    pub fn with_calculated_state_commitment(self) -> (r: BlockHeaderBuilder)
        ensures
            r@.state_commitment_holds(),
            r@ == (BlockHeader { state_commitment: r@.state_commitment, ..self@ }),
    {
        let state_commitment = StateCommitment::calculate(
            self.0.storage_commitment,
            self.0.class_commitment,
            self.0.starknet_version,
        );
        BlockHeaderBuilder(BlockHeader { state_commitment, ..self.0 })
    }

    /// Sets the time.
    pub fn with_timestamp(self, timestamp: BlockTimestamp) -> (r: BlockHeaderBuilder)
        ensures
            r@ == (BlockHeader { timestamp, ..self@ }),
    {
        BlockHeaderBuilder(BlockHeader { timestamp, ..self.0 })
    }

    /// Sets the price of gas on the first layer in its own currency.
    pub fn with_eth_l1_gas_price(self, eth_l1_gas_price: GasPrice) -> (r: BlockHeaderBuilder)
        ensures
            r@ == (BlockHeader { eth_l1_gas_price, ..self@ }),
    {
        BlockHeaderBuilder(BlockHeader { eth_l1_gas_price, ..self.0 })
    }

    /// Sets the price of gas on the first layer in the network's currency.
    pub fn with_strk_l1_gas_price(self, strk_l1_gas_price: GasPrice) -> (r: BlockHeaderBuilder)
        ensures
            r@ == (BlockHeader { strk_l1_gas_price, ..self@ }),
    {
        BlockHeaderBuilder(BlockHeader { strk_l1_gas_price, ..self.0 })
    }

    /// Sets the address of the sequencer.
    pub fn with_sequencer_address(self, sequencer_address: SequencerAddress) -> (r:
        BlockHeaderBuilder)
        ensures
            r@ == (BlockHeader { sequencer_address, ..self@ }),
    {
        BlockHeaderBuilder(BlockHeader { sequencer_address, ..self.0 })
    }

    /// Sets the commitment to the transactions.
    pub fn with_transaction_commitment(self, transaction_commitment: TransactionCommitment) -> (r:
        BlockHeaderBuilder)
        ensures
            r@ == (BlockHeader { transaction_commitment, ..self@ }),
    {
        BlockHeaderBuilder(BlockHeader { transaction_commitment, ..self.0 })
    }

    /// Sets the commitment to the events.
    pub fn with_event_commitment(self, event_commitment: EventCommitment) -> (r:
        BlockHeaderBuilder)
        ensures
            r@ == (BlockHeader { event_commitment, ..self@ }),
    {
        BlockHeaderBuilder(BlockHeader { event_commitment, ..self.0 })
    }

    /// Sets the storage commitment.
    pub fn with_storage_commitment(self, storage_commitment: StorageCommitment) -> (r:
        BlockHeaderBuilder)
        ensures
            r@ == (BlockHeader { storage_commitment, ..self@ }),
    {
        BlockHeaderBuilder(BlockHeader { storage_commitment, ..self.0 })
    }

    /// Sets the class commitment.
    pub fn with_class_commitment(self, class_commitment: ClassCommitment) -> (r:
        BlockHeaderBuilder)
        ensures
            r@ == (BlockHeader { class_commitment, ..self@ }),
    {
        BlockHeaderBuilder(BlockHeader { class_commitment, ..self.0 })
    }

    /// Sets the version of the network.
    pub fn with_starknet_version(self, starknet_version: StarknetVersion) -> (r:
        BlockHeaderBuilder)
        ensures
            r@ == (BlockHeader { starknet_version, ..self@ }),
    {
        BlockHeaderBuilder(BlockHeader { starknet_version, ..self.0 })
    }

    /// Sets the number of transactions.
    pub fn with_transaction_count(self, transaction_count: usize) -> (r: BlockHeaderBuilder)
        ensures
            r@ == (BlockHeader { transaction_count, ..self@ }),
    {
        BlockHeaderBuilder(BlockHeader { transaction_count, ..self.0 })
    }

    /// Sets the number of events.
    pub fn with_event_count(self, event_count: usize) -> (r: BlockHeaderBuilder)
        ensures
            r@ == (BlockHeader { event_count, ..self@ }),
    {
        BlockHeaderBuilder(BlockHeader { event_count, ..self.0 })
    }

    /// The header as it stands, with the given hash.
    pub fn finalize_with_hash(self, hash: BlockHash) -> (r: BlockHeader)
        ensures
            r == (BlockHeader { hash, ..self@ }),
    {
        BlockHeader { hash, ..self.0 }
    }
}

} // verus!
