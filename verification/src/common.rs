//! The plain values that blocks, transactions and tries are made of.
//!
//! Most of them are field elements under a name of their own, so that a block
//! hash is not taken for a class hash.

use crate::felt::Felt;
use crate::hash::{pedersen, pedersen_hash};
use vstd::prelude::*;

verus! {

/// The hash of a block.
#[derive(Clone, Copy, Debug, PartialEq, Eq, Hash, Structural)]
pub struct BlockHash(pub Felt);

impl BlockHash {
    /// The zero value.
    pub fn zero() -> (r: BlockHash)
        ensures
            r.0@ == 0,
    {
        BlockHash(Felt::zero())
    }
}

impl Default for BlockHash {
    fn default() -> (r: BlockHash)
        ensures
            r.0@ == 0,
    {
        BlockHash(Felt::zero())
    }
}

/// The address of the sequencer that made a block.
#[derive(Clone, Copy, Debug, PartialEq, Eq, Hash, Structural)]
pub struct SequencerAddress(pub Felt);

impl SequencerAddress {
    /// The zero value.
    pub fn zero() -> (r: SequencerAddress)
        ensures
            r.0@ == 0,
    {
        SequencerAddress(Felt::zero())
    }
}

impl Default for SequencerAddress {
    fn default() -> (r: SequencerAddress)
        ensures
            r.0@ == 0,
    {
        SequencerAddress(Felt::zero())
    }
}

/// The root of the class trie.
#[derive(Clone, Copy, Debug, PartialEq, Eq, Hash, Structural)]
pub struct ClassCommitment(pub Felt);

impl ClassCommitment {
    /// The zero value.
    pub fn zero() -> (r: ClassCommitment)
        ensures
            r.0@ == 0,
    {
        ClassCommitment(Felt::zero())
    }
}

impl Default for ClassCommitment {
    fn default() -> (r: ClassCommitment)
        ensures
            r.0@ == 0,
    {
        ClassCommitment(Felt::zero())
    }
}

/// The commitment to the events of a block.
#[derive(Clone, Copy, Debug, PartialEq, Eq, Hash, Structural)]
pub struct EventCommitment(pub Felt);

impl EventCommitment {
    /// The zero value.
    pub fn zero() -> (r: EventCommitment)
        ensures
            r.0@ == 0,
    {
        EventCommitment(Felt::zero())
    }
}

impl Default for EventCommitment {
    fn default() -> (r: EventCommitment)
        ensures
            r.0@ == 0,
    {
        EventCommitment(Felt::zero())
    }
}

/// The commitment to the whole state after a block.
#[derive(Clone, Copy, Debug, PartialEq, Eq, Hash, Structural)]
pub struct StateCommitment(pub Felt);

impl StateCommitment {
    /// The zero value.
    pub fn zero() -> (r: StateCommitment)
        ensures
            r.0@ == 0,
    {
        StateCommitment(Felt::zero())
    }
}

impl Default for StateCommitment {
    fn default() -> (r: StateCommitment)
        ensures
            r.0@ == 0,
    {
        StateCommitment(Felt::zero())
    }
}

/// The root of the global state trie.
#[derive(Clone, Copy, Debug, PartialEq, Eq, Hash, Structural)]
pub struct StorageCommitment(pub Felt);

impl StorageCommitment {
    /// The zero value.
    pub fn zero() -> (r: StorageCommitment)
        ensures
            r.0@ == 0,
    {
        StorageCommitment(Felt::zero())
    }
}

impl Default for StorageCommitment {
    fn default() -> (r: StorageCommitment)
        ensures
            r.0@ == 0,
    {
        StorageCommitment(Felt::zero())
    }
}

/// The commitment to the transactions of a block.
#[derive(Clone, Copy, Debug, PartialEq, Eq, Hash, Structural)]
pub struct TransactionCommitment(pub Felt);

impl TransactionCommitment {
    /// The zero value.
    pub fn zero() -> (r: TransactionCommitment)
        ensures
            r.0@ == 0,
    {
        TransactionCommitment(Felt::zero())
    }
}

impl Default for TransactionCommitment {
    fn default() -> (r: TransactionCommitment)
        ensures
            r.0@ == 0,
    {
        TransactionCommitment(Felt::zero())
    }
}

/// The hash of a transaction.
#[derive(Clone, Copy, Debug, PartialEq, Eq, Hash, Structural)]
pub struct TransactionHash(pub Felt);

impl TransactionHash {
    /// The zero value.
    pub fn zero() -> (r: TransactionHash)
        ensures
            r.0@ == 0,
    {
        TransactionHash(Felt::zero())
    }
}

impl Default for TransactionHash {
    fn default() -> (r: TransactionHash)
        ensures
            r.0@ == 0,
    {
        TransactionHash(Felt::zero())
    }
}

/// The identifier of a network.
#[derive(Clone, Copy, Debug, PartialEq, Eq, Hash, Structural)]
pub struct ChainId(pub Felt);

impl ChainId {
    /// The zero value.
    pub fn zero() -> (r: ChainId)
        ensures
            r.0@ == 0,
    {
        ChainId(Felt::zero())
    }
}

impl Default for ChainId {
    fn default() -> (r: ChainId)
        ensures
            r.0@ == 0,
    {
        ChainId(Felt::zero())
    }
}

/// The address of a contract.
#[derive(Clone, Copy, Debug, PartialEq, Eq, Hash, Structural)]
pub struct ContractAddress(pub Felt);

impl ContractAddress {
    /// The zero value.
    pub fn zero() -> (r: ContractAddress)
        ensures
            r.0@ == 0,
    {
        ContractAddress(Felt::zero())
    }
}

impl Default for ContractAddress {
    fn default() -> (r: ContractAddress)
        ensures
            r.0@ == 0,
    {
        ContractAddress(Felt::zero())
    }
}

/// The hash of a contract class.
#[derive(Clone, Copy, Debug, PartialEq, Eq, Hash, Structural)]
pub struct ClassHash(pub Felt);

impl ClassHash {
    /// The zero value.
    pub fn zero() -> (r: ClassHash)
        ensures
            r.0@ == 0,
    {
        ClassHash(Felt::zero())
    }
}

impl Default for ClassHash {
    fn default() -> (r: ClassHash)
        ensures
            r.0@ == 0,
    {
        ClassHash(Felt::zero())
    }
}

/// The hash of a compiled class.
#[derive(Clone, Copy, Debug, PartialEq, Eq, Hash, Structural)]
pub struct CasmHash(pub Felt);

impl CasmHash {
    /// The zero value.
    pub fn zero() -> (r: CasmHash)
        ensures
            r.0@ == 0,
    {
        CasmHash(Felt::zero())
    }
}

impl Default for CasmHash {
    fn default() -> (r: CasmHash)
        ensures
            r.0@ == 0,
    {
        CasmHash(Felt::zero())
    }
}

/// The selector of an entry point.
#[derive(Clone, Copy, Debug, PartialEq, Eq, Hash, Structural)]
pub struct EntryPoint(pub Felt);

impl EntryPoint {
    /// The zero value.
    pub fn zero() -> (r: EntryPoint)
        ensures
            r.0@ == 0,
    {
        EntryPoint(Felt::zero())
    }
}

impl Default for EntryPoint {
    fn default() -> (r: EntryPoint)
        ensures
            r.0@ == 0,
    {
        EntryPoint(Felt::zero())
    }
}

/// The largest fee a transaction may cost.
#[derive(Clone, Copy, Debug, PartialEq, Eq, Hash, Structural)]
pub struct Fee(pub Felt);

impl Fee {
    /// The zero value.
    pub fn zero() -> (r: Fee)
        ensures
            r.0@ == 0,
    {
        Fee(Felt::zero())
    }
}

impl Default for Fee {
    fn default() -> (r: Fee)
        ensures
            r.0@ == 0,
    {
        Fee(Felt::zero())
    }
}

/// The nonce of a transaction.
#[derive(Clone, Copy, Debug, PartialEq, Eq, Hash, Structural)]
pub struct TransactionNonce(pub Felt);

impl TransactionNonce {
    /// The zero value.
    pub fn zero() -> (r: TransactionNonce)
        ensures
            r.0@ == 0,
    {
        TransactionNonce(Felt::zero())
    }
}

impl Default for TransactionNonce {
    fn default() -> (r: TransactionNonce)
        ensures
            r.0@ == 0,
    {
        TransactionNonce(Felt::zero())
    }
}

/// The version of a transaction.
#[derive(Clone, Copy, Debug, PartialEq, Eq, Hash, Structural)]
pub struct TransactionVersion(pub Felt);

impl TransactionVersion {
    /// The zero value.
    pub fn zero() -> (r: TransactionVersion)
        ensures
            r.0@ == 0,
    {
        TransactionVersion(Felt::zero())
    }
}

impl Default for TransactionVersion {
    fn default() -> (r: TransactionVersion)
        ensures
            r.0@ == 0,
    {
        TransactionVersion(Felt::zero())
    }
}

/// The salt of a contract's address.
#[derive(Clone, Copy, Debug, PartialEq, Eq, Hash, Structural)]
pub struct ContractAddressSalt(pub Felt);

impl ContractAddressSalt {
    /// The zero value.
    pub fn zero() -> (r: ContractAddressSalt)
        ensures
            r.0@ == 0,
    {
        ContractAddressSalt(Felt::zero())
    }
}

impl Default for ContractAddressSalt {
    fn default() -> (r: ContractAddressSalt)
        ensures
            r.0@ == 0,
    {
        ContractAddressSalt(Felt::zero())
    }
}

/// The address of a storage cell of a contract.
#[derive(Clone, Copy, Debug, PartialEq, Eq, Hash, Structural)]
pub struct StorageAddress(pub Felt);

impl StorageAddress {
    /// The zero value.
    pub fn zero() -> (r: StorageAddress)
        ensures
            r.0@ == 0,
    {
        StorageAddress(Felt::zero())
    }
}

impl Default for StorageAddress {
    fn default() -> (r: StorageAddress)
        ensures
            r.0@ == 0,
    {
        StorageAddress(Felt::zero())
    }
}

/// The value of a storage cell of a contract.
#[derive(Clone, Copy, Debug, PartialEq, Eq, Hash, Structural)]
pub struct StorageValue(pub Felt);

impl StorageValue {
    /// The zero value.
    pub fn zero() -> (r: StorageValue)
        ensures
            r.0@ == 0,
    {
        StorageValue(Felt::zero())
    }
}

impl Default for StorageValue {
    fn default() -> (r: StorageValue)
        ensures
            r.0@ == 0,
    {
        StorageValue(Felt::zero())
    }
}

/// The hash of a contract's state, the leaf of the global state trie.
#[derive(Clone, Copy, Debug, PartialEq, Eq, Hash, Structural)]
pub struct ContractStateHash(pub Felt);

impl ContractStateHash {
    /// The zero value.
    pub fn zero() -> (r: ContractStateHash)
        ensures
            r.0@ == 0,
    {
        ContractStateHash(Felt::zero())
    }
}

impl Default for ContractStateHash {
    fn default() -> (r: ContractStateHash)
        ensures
            r.0@ == 0,
    {
        ContractStateHash(Felt::zero())
    }
}

/// The root of the storage trie of a contract.
#[derive(Clone, Copy, Debug, PartialEq, Eq, Hash, Structural)]
pub struct ContractRoot(pub Felt);

impl ContractRoot {
    /// The zero value.
    pub fn zero() -> (r: ContractRoot)
        ensures
            r.0@ == 0,
    {
        ContractRoot(Felt::zero())
    }
}

impl Default for ContractRoot {
    fn default() -> (r: ContractRoot)
        ensures
            r.0@ == 0,
    {
        ContractRoot(Felt::zero())
    }
}

/// The nonce of a contract.
#[derive(Clone, Copy, Debug, PartialEq, Eq, Hash, Structural)]
pub struct ContractNonce(pub Felt);

impl ContractNonce {
    /// The zero value.
    pub fn zero() -> (r: ContractNonce)
        ensures
            r.0@ == 0,
    {
        ContractNonce(Felt::zero())
    }
}

impl Default for ContractNonce {
    fn default() -> (r: ContractNonce)
        ensures
            r.0@ == 0,
    {
        ContractNonce(Felt::zero())
    }
}

/// One half of the signature over a block's commitment.
#[derive(Clone, Copy, Debug, PartialEq, Eq, Hash, Structural)]
pub struct BlockCommitmentSignatureElem(pub Felt);

impl BlockCommitmentSignatureElem {
    /// The zero value.
    pub fn zero() -> (r: BlockCommitmentSignatureElem)
        ensures
            r.0@ == 0,
    {
        BlockCommitmentSignatureElem(Felt::zero())
    }
}

impl Default for BlockCommitmentSignatureElem {
    fn default() -> (r: BlockCommitmentSignatureElem)
        ensures
            r.0@ == 0,
    {
        BlockCommitmentSignatureElem(Felt::zero())
    }
}

/// An argument of a call.
pub type CallParam = Felt;

/// An argument of a constructor.
pub type ConstructorParam = Felt;

/// An element of the data that a transaction hands to its paymaster.
pub type PaymasterDataElem = Felt;

/// An element of the data with which a transaction deploys its account.
pub type AccountDeploymentDataElem = Felt;

/// The largest block number and timestamp: what a signed 64-bit column holds.
pub const I64_MAX: u64 = 0x7fff_ffff_ffff_ffff;

impl ChainId {
    /// The main network: the ASCII string `SN_MAIN`.
    pub fn mainnet() -> (r: ChainId)
        ensures
            r.0@ == 0x534e_5f4d_4149_4e,
    {
        ChainId(Felt::from_u64(0x534e_5f4d_4149_4e))
    }

    /// The Goerli test network: the ASCII string `SN_GOERLI`.
    pub fn goerli_testnet() -> (r: ChainId)
        ensures
            r.0@ == 0x53_4e5f_474f_4552_4c49,
    {
        ChainId(Felt::from_u128(0x53_4e5f_474f_4552_4c49))
    }
}

impl TransactionVersion {
    /// Version one.
    pub fn one() -> (r: TransactionVersion)
        ensures
            r.0@ == 1,
    {
        TransactionVersion(Felt::from_u64(1))
    }

    /// Version two.
    pub fn two() -> (r: TransactionVersion)
        ensures
            r.0@ == 2,
    {
        TransactionVersion(Felt::from_u64(2))
    }

    /// Version three.
    pub fn three() -> (r: TransactionVersion)
        ensures
            r.0@ == 3,
    {
        TransactionVersion(Felt::from_u64(3))
    }
}

/// The height of a block, counted from zero and at most [`I64_MAX`].
#[derive(Clone, Copy, Debug, PartialEq, Eq, Hash, Structural)]
pub struct BlockNumber(u64);

impl View for BlockNumber {
    type V = nat;

    closed spec fn view(&self) -> nat {
        self.0 as nat
    }
}

impl BlockNumber {
    #[verifier::type_invariant]
    spec fn in_range(self) -> bool {
        self.0 <= I64_MAX
    }

    /// Two block numbers are one exactly when they denote one height.
    pub proof fn lemma_view_injective(self, other: BlockNumber)
        ensures
            (self@ == other@) <==> (self == other),
    {
    }

    /// The number of the first block.
    pub fn genesis() -> (r: BlockNumber)
        ensures
            r@ == 0,
    {
        BlockNumber(0)
    }

    /// The largest block number.
    pub fn max() -> (r: BlockNumber)
        ensures
            r@ == I64_MAX,
    {
        BlockNumber(I64_MAX)
    }

    /// The block number of a height, if the height is in range.
    pub fn new(height: u64) -> (r: Option<BlockNumber>)
        ensures
            r is Some <==> height <= I64_MAX,
            r matches Some(n) ==> n@ == height,
    {
        if height <= I64_MAX {
            Some(BlockNumber(height))
        } else {
            None
        }
    }

    /// The block number of a height that is in range.
    pub fn new_or_panic(height: u64) -> (r: BlockNumber)
        requires
            height <= I64_MAX,
        ensures
            r@ == height,
    {
        BlockNumber(height)
    }

    /// The height.
    pub fn get(&self) -> (r: u64)
        ensures
            r == self@,
            r <= I64_MAX,
    {
        proof {
            use_type_invariant(self);
        }
        self.0
    }

    /// The number of the block before, if there is one.
    pub fn parent(&self) -> (r: Option<BlockNumber>)
        ensures
            r is Some <==> self@ > 0,
            r matches Some(n) ==> n@ == self@ - 1,
    {
        proof {
            use_type_invariant(self);
        }
        if self.0 > 0 {
            Some(BlockNumber(self.0 - 1))
        } else {
            None
        }
    }

    /// The number `count` blocks later, if it is in range.
    pub fn checked_add(&self, count: u64) -> (r: Option<BlockNumber>)
        ensures
            r is Some <==> self@ + count <= I64_MAX,
            r matches Some(n) ==> n@ == self@ + count,
    {
        proof {
            use_type_invariant(self);
        }
        if count <= I64_MAX - self.0 {
            Some(BlockNumber(self.0 + count))
        } else {
            None
        }
    }

    /// The number `count` blocks earlier, if there is one.
    pub fn checked_sub(&self, count: u64) -> (r: Option<BlockNumber>)
        ensures
            r is Some <==> count <= self@,
            r matches Some(n) ==> n@ == self@ - count,
    {
        proof {
            use_type_invariant(self);
        }
        if count <= self.0 {
            Some(BlockNumber(self.0 - count))
        } else {
            None
        }
    }
}

impl Default for BlockNumber {
    fn default() -> (r: BlockNumber)
        ensures
            r@ == 0,
    {
        BlockNumber(0)
    }
}

/// The time of a block in seconds, at most [`I64_MAX`].
#[derive(Clone, Copy, Debug, PartialEq, Eq, Hash, Structural)]
pub struct BlockTimestamp(u64);

impl View for BlockTimestamp {
    type V = nat;

    closed spec fn view(&self) -> nat {
        self.0 as nat
    }
}

impl BlockTimestamp {
    #[verifier::type_invariant]
    spec fn in_range(self) -> bool {
        self.0 <= I64_MAX
    }

    /// Two timestamps are one exactly when they denote one time.
    pub proof fn lemma_view_injective(self, other: BlockTimestamp)
        ensures
            (self@ == other@) <==> (self == other),
    {
    }

    /// The timestamp of a time, if the time is in range.
    pub fn new(seconds: u64) -> (r: Option<BlockTimestamp>)
        ensures
            r is Some <==> seconds <= I64_MAX,
            r matches Some(t) ==> t@ == seconds,
    {
        if seconds <= I64_MAX {
            Some(BlockTimestamp(seconds))
        } else {
            None
        }
    }

    /// The timestamp of a time that is in range.
    pub fn new_or_panic(seconds: u64) -> (r: BlockTimestamp)
        requires
            seconds <= I64_MAX,
        ensures
            r@ == seconds,
    {
        BlockTimestamp(seconds)
    }

    /// The time in seconds.
    pub fn get(&self) -> (r: u64)
        ensures
            r == self@,
            r <= I64_MAX,
    {
        proof {
            use_type_invariant(self);
        }
        self.0
    }
}

impl Default for BlockTimestamp {
    fn default() -> (r: BlockTimestamp)
        ensures
            r@ == 0,
    {
        BlockTimestamp(0)
    }
}

/// The price of gas on the first layer.
#[derive(Clone, Copy, Debug, PartialEq, Eq, Hash, Structural)]
pub struct GasPrice(pub u128);

impl GasPrice {
    /// The price zero.
    pub fn zero() -> (r: GasPrice)
        ensures
            r.0 == 0,
    {
        GasPrice(0)
    }
}

impl Default for GasPrice {
    fn default() -> (r: GasPrice)
        ensures
            r.0 == 0,
    {
        GasPrice(0)
    }
}

/// The tip that a transaction offers.
#[derive(Clone, Copy, Debug, PartialEq, Eq, Hash, Structural)]
pub struct Tip(pub u64);

/// The largest amount of a resource that a transaction may use.
#[derive(Clone, Copy, Debug, PartialEq, Eq, Hash, Structural)]
pub struct ResourceAmount(pub u64);

/// The largest price that a transaction pays for one unit of a resource.
#[derive(Clone, Copy, Debug, PartialEq, Eq, Hash, Structural)]
pub struct ResourcePricePerUnit(pub u128);

/// The bound on one resource.
#[derive(Clone, Copy, Debug, PartialEq, Eq, Hash, Structural)]
pub struct ResourceBound {
    pub max_amount: ResourceAmount,
    pub max_price_per_unit: ResourcePricePerUnit,
}

/// The bounds on the gas of both layers.
#[derive(Clone, Copy, Debug, PartialEq, Eq, Hash, Structural)]
pub struct ResourceBounds {
    pub l1_gas: ResourceBound,
    pub l2_gas: ResourceBound,
}

/// Where the data of a transaction is made available.
#[derive(Clone, Copy, Debug, PartialEq, Eq, Hash, Structural)]
pub enum DataAvailabilityMode {
    L1,
    L2,
}

impl DataAvailabilityMode {
    /// The number of the mode: zero for the first layer, one for the second.
    pub open spec fn number(self) -> nat {
        match self {
            DataAvailabilityMode::L1 => 0,
            DataAvailabilityMode::L2 => 1,
        }
    }

    /// The number of the mode.
    pub fn to_u64(self) -> (r: u64)
        ensures
            r == self.number(),
    {
        match self {
            DataAvailabilityMode::L1 => 0,
            DataAvailabilityMode::L2 => 1,
        }
    }
}

/// The version of the network that made a block. A block from before
/// versions were recorded has version 0.0.0. Of a pre-release tag only its
/// presence is kept.
#[derive(Clone, Copy, Debug, PartialEq, Eq, Hash, Structural)]
pub struct StarknetVersion {
    pub major: u64,
    pub minor: u64,
    pub patch: u64,
    pub pre_release: bool,
}

impl StarknetVersion {
    /// The release `major.minor.patch`.
    pub fn new(major: u64, minor: u64, patch: u64) -> (r: StarknetVersion)
        ensures
            r == (StarknetVersion { major, minor, patch, pre_release: false }),
    {
        StarknetVersion { major, minor, patch, pre_release: false }
    }

    /// Whether this version comes before the release `major.minor.patch`:
    /// its numbers come first in the order of the three, or they are the same
    /// and this is a pre-release.
    pub open spec fn precedes_release(self, major: u64, minor: u64, patch: u64) -> bool {
        ||| self.major < major
        ||| (self.major == major && self.minor < minor)
        ||| (self.major == major && self.minor == minor && self.patch < patch)
        ||| (self.major == major && self.minor == minor && self.patch == patch && self.pre_release)
    }

    /// Whether this version comes before the release `major.minor.patch`.
    pub fn is_before_release(&self, major: u64, minor: u64, patch: u64) -> (r: bool)
        ensures
            r == self.precedes_release(major, minor, patch),
    {
        if self.major != major {
            self.major < major
        } else if self.minor != minor {
            self.minor < minor
        } else if self.patch != patch {
            self.patch < patch
        } else {
            self.pre_release
        }
    }
}

/// The three numbers of a version text and whether it has a pre-release
/// tag, as `semver` reads them; none where it does not take the text for a
/// version.
pub uninterp spec fn semver_parts(text: Seq<char>) -> Option<(u64, u64, u64, bool)>;

/// Calls `semver::Version::parse`. Where it takes the text for a version,
/// the contract names the three numbers and whether the pre-release tag
/// is there; else it names nothing.
#[verifier::external_body]
fn parse_semver(text: &str) -> (r: Option<(u64, u64, u64, bool)>)
    ensures
        r == semver_parts(text@),
{
    match semver::Version::parse(text) {
        Ok(v) => Some((v.major, v.minor, v.patch, !v.pre.is_empty())),
        Err(_) => None,
    }
}

impl StarknetVersion {
    /// The version that the parts of a version text make.
    pub open spec fn of_parts(parts: Option<(u64, u64, u64, bool)>) -> Option<StarknetVersion> {
        match parts {
            Some((major, minor, patch, pre_release)) => Some(
                StarknetVersion { major, minor, patch, pre_release },
            ),
            None => None,
        }
    }

    /// The version that the parts of a version text make.
    pub fn from_parts(parts: Option<(u64, u64, u64, bool)>) -> (r: Option<StarknetVersion>)
        ensures
            r == StarknetVersion::of_parts(parts),
    {
        match parts {
            Some((major, minor, patch, pre_release)) => Some(
                StarknetVersion { major, minor, patch, pre_release },
            ),
            None => None,
        }
    }

    /// The version that a text names: 0.0.0 for the empty text, which
    /// blocks from before versions were recorded have, and else what
    /// `semver` reads from it, if it reads a version.
    pub fn parse(text: &str) -> (r: Option<StarknetVersion>)
        ensures
            r == (if text@.len() == 0 {
                Some(StarknetVersion { major: 0, minor: 0, patch: 0, pre_release: false })
            } else {
                StarknetVersion::of_parts(semver_parts(text@))
            }),
    {
        if text.unicode_len() == 0 {
            Some(StarknetVersion::default())
        } else {
            StarknetVersion::from_parts(parse_semver(text))
        }
    }
}

impl Default for StarknetVersion {
    fn default() -> (r: StarknetVersion)
        ensures
            r == (StarknetVersion { major: 0, minor: 0, patch: 0, pre_release: false }),
    {
        StarknetVersion { major: 0, minor: 0, patch: 0, pre_release: false }
    }
}

/// The state commitment that storage and class commitment give under a
/// version: from version 0.11.0 on the Pedersen hash of the two, before that
/// the storage commitment alone.
pub open spec fn state_commitment_of(storage: nat, class: nat, version: StarknetVersion) -> nat {
    if version.precedes_release(0, 11, 0) {
        storage
    } else {
        pedersen(storage, class)
    }
}

impl StateCommitment {
    /// The state commitment that storage and class commitment give under a
    /// version.
    pub fn calculate(
        storage_commitment: StorageCommitment,
        class_commitment: ClassCommitment,
        version: StarknetVersion,
    ) -> (r: StateCommitment)
        ensures
            r.0@ == state_commitment_of(storage_commitment.0@, class_commitment.0@, version),
    {
        if version.is_before_release(0, 11, 0) {
            StateCommitment(storage_commitment.0)
        } else {
            StateCommitment(pedersen_hash(storage_commitment.0, class_commitment.0))
        }
    }
}

/// The signature of the sequencer over the commitment of a block.
#[derive(Clone, Copy, Debug, PartialEq, Eq, Hash, Structural)]
pub struct BlockCommitmentSignature {
    pub r: BlockCommitmentSignatureElem,
    pub s: BlockCommitmentSignatureElem,
}

impl Default for BlockCommitmentSignature {
    fn default() -> (r: BlockCommitmentSignature)
        ensures
            r.r.0@ == 0,
            r.s.0@ == 0,
    {
        BlockCommitmentSignature {
            r: BlockCommitmentSignatureElem::zero(),
            s: BlockCommitmentSignatureElem::zero(),
        }
    }
}

/// The way to name a stored block.
#[derive(Clone, Copy, Debug, PartialEq, Eq, Hash, Structural)]
pub enum BlockId {
    Number(BlockNumber),
    Hash(BlockHash),
    Latest,
}

/// The head of a state update: the block it belongs to and the state
/// commitments before and after it.
#[derive(Clone, Copy, Debug, PartialEq, Eq, Hash, Structural)]
pub struct StateUpdate {
    pub block_hash: BlockHash,
    pub parent_state_commitment: StateCommitment,
    pub state_commitment: StateCommitment,
}

impl StateUpdate {
    /// The same update for another block.
    pub fn with_block_hash(self, block_hash: BlockHash) -> (r: StateUpdate)
        ensures
            r == (StateUpdate { block_hash, ..self }),
    {
        StateUpdate { block_hash, ..self }
    }

    /// The same update with another state commitment after it.
    pub fn with_state_commitment(self, state_commitment: StateCommitment) -> (r: StateUpdate)
        ensures
            r == (StateUpdate { state_commitment, ..self }),
    {
        StateUpdate { state_commitment, ..self }
    }

    /// The same update with another state commitment before it.
    pub fn with_parent_state_commitment(
        self,
        parent_state_commitment: StateCommitment,
    ) -> (r: StateUpdate)
        ensures
            r == (StateUpdate { parent_state_commitment, ..self }),
    {
        StateUpdate { parent_state_commitment, ..self }
    }
}

impl Default for StateUpdate {
    fn default() -> (r: StateUpdate)
        ensures
            r.block_hash.0@ == 0,
            r.parent_state_commitment.0@ == 0,
            r.state_commitment.0@ == 0,
    {
        StateUpdate {
            block_hash: BlockHash::zero(),
            parent_state_commitment: StateCommitment::zero(),
            state_commitment: StateCommitment::zero(),
        }
    }
}

} // verus!
