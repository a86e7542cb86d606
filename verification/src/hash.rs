//! The hash functions of the network: Pedersen, Poseidon and the truncated
//! Keccak, and the Pedersen hash chain built on the first.
//!
//! The three primitives are computed by the `pathfinder_crypto` and `sha3`
//! crates. Their results are named here by functions without a body, so that
//! everything built on them is stated exactly.

use crate::felt::{be_value, lemma_be_value_bound, lemma_be_value_split, modulus, pow256, Felt};
use sha3::{Digest, Keccak256};
use vstd::prelude::*;

verus! {

/// The Pedersen hash of two field elements, as `pathfinder_crypto` computes it.
pub uninterp spec fn pedersen(a: nat, b: nat) -> nat;

/// The Poseidon hash of a string of field elements, as `pathfinder_crypto`
/// computes it.
pub uninterp spec fn poseidon_many(elements: Seq<nat>) -> nat;

/// The Keccak-256 digest of a string of bytes, as `sha3` computes it.
pub uninterp spec fn keccak256(data: Seq<u8>) -> Seq<u8>;

/// The numbers that a string of field elements denotes.
pub open spec fn felt_values(elements: Seq<Felt>) -> Seq<nat> {
    elements.map_values(|f: Felt| f@)
}

/// Calls `pathfinder_crypto::hash::pedersen_hash`. The contract gives the
/// result its name and claims nothing else of it.
#[verifier::external_body]
pub(crate) fn pedersen_hash(a: Felt, b: Felt) -> (r: Felt)
    ensures
        r@ == pedersen(a@, b@),
{
    let a = pathfinder_crypto::Felt::from(a.to_be_bytes());
    let b = pathfinder_crypto::Felt::from(b.to_be_bytes());
    let hash = pathfinder_crypto::hash::pedersen_hash(a, b);
    Felt::from_be_bytes(hash.to_be_bytes()).unwrap()
}

/// Calls `pathfinder_crypto::hash::poseidon_hash_many` on the elements in
/// their given order. The contract gives the result its name and claims
/// nothing else of it.
#[verifier::external_body]
pub(crate) fn poseidon_hash_many(elements: &[Felt]) -> (r: Felt)
    ensures
        r@ == poseidon_many(felt_values(elements@)),
{
    let msgs: Vec<pathfinder_crypto::MontFelt> = elements
        .iter()
        .map(|e| pathfinder_crypto::Felt::from(e.to_be_bytes()).into())
        .collect();
    let hash = pathfinder_crypto::Felt::from(pathfinder_crypto::hash::poseidon_hash_many(&msgs));
    Felt::from_be_bytes(hash.to_be_bytes()).unwrap()
}

/// Calls `sha3::Keccak256` on the bytes. The contract gives the 32-byte
/// digest its name and claims nothing else of it.
#[verifier::external_body]
pub(crate) fn keccak256_digest(data: &[u8]) -> (r: [u8; 32])
    ensures
        r@ == keccak256(data@),
{
    let mut hasher = Keccak256::default();
    hasher.update(data);
    <[u8; 32]>::from(hasher.finalize())
}

/// A 32-byte digest with its six top bits cleared.
pub open spec fn truncated(digest: Seq<u8>) -> Seq<u8> {
    digest.update(0, digest[0] & 0x03u8)
}

/// The network's Keccak of a string of bytes: the number that the 250 low
/// bits of its Keccak-256 digest denote.
pub open spec fn starknet_keccak_spec(data: Seq<u8>) -> nat {
    be_value(truncated(keccak256(data)))
}

/// The field element that the 250 low bits of a 32-byte digest denote.
pub fn truncated_keccak(digest: [u8; 32]) -> (r: Felt)
    ensures
        r@ == be_value(truncated(digest@)),
{
    let mut bytes = digest;
    let first: u8 = bytes[0];
    let top: u8 = first & 0x03u8;
    bytes[0] = top;
    proof {
        assert(top <= 3) by (bit_vector)
            requires
                top == first & 0x03u8,
        ;
        assert(bytes@ =~= truncated(digest@));
        lemma_be_value_split(bytes@, 1);
        lemma_be_value_bound(bytes@.subrange(1, 32));
        let head = bytes@.subrange(0, 1);
        assert(head.drop_last() =~= Seq::<u8>::empty());
        assert(be_value(head) == be_value(head.drop_last()) * 256 + top as nat);
        lemma_pow256_31();
        assert(be_value(bytes@) < modulus()) by (nonlinear_arith)
            requires
                be_value(bytes@) == top * pow256(31) + be_value(bytes@.subrange(1, 32)),
                be_value(bytes@.subrange(1, 32)) < pow256(31),
                top <= 3,
                4 * pow256(31) < modulus(),
        ;
    }
    Felt::from_be_bytes(bytes).unwrap()
}

proof fn lemma_pow256_31()
    ensures
        4 * pow256(31) < modulus(),
{
    reveal_with_fuel(pow256, 32);
}

/// The network's Keccak of a string of bytes, as a field element.
pub fn starknet_keccak(data: &[u8]) -> (r: Felt)
    ensures
        r@ == starknet_keccak_spec(data@),
{
    truncated_keccak(keccak256_digest(data))
}

/// The accumulator of a hash chain that has absorbed `elements`: zero, then
/// the Pedersen hash of accumulator and element, one element after another.
pub open spec fn chain_accumulator(elements: Seq<nat>) -> nat
    decreases elements.len(),
{
    if elements.len() == 0 {
        0
    } else {
        pedersen(chain_accumulator(elements.drop_last()), elements.last())
    }
}

/// The hash of a string of elements: the Pedersen hash of the accumulator
/// and the number of elements.
pub open spec fn hash_on_elements(elements: Seq<nat>) -> nat {
    pedersen(chain_accumulator(elements), elements.len())
}

/// A Pedersen hash chain. Its view is the string of elements absorbed so far.
/// It counts them in 128 bits, which no number of slices can fill.
pub struct HashChain {
    hash: Felt,
    count: u128,
    absorbed: Ghost<Seq<nat>>,
}

impl View for HashChain {
    type V = Seq<nat>;

    closed spec fn view(&self) -> Seq<nat> {
        self.absorbed@
    }
}

impl HashChain {
    #[verifier::type_invariant]
    spec fn consistent(self) -> bool {
        &&& self.hash@ == chain_accumulator(self.absorbed@)
        &&& self.count == self.absorbed@.len()
    }

    /// A chain that has absorbed nothing.
    pub fn new() -> (r: HashChain)
        ensures
            r@ == Seq::<nat>::empty(),
    {
        HashChain { hash: Felt::zero(), count: 0, absorbed: Ghost(Seq::empty()) }
    }

    /// Absorbs one element.
    pub fn update(&mut self, value: Felt)
        requires
            old(self)@.len() < u128::MAX,
        ensures
            final(self)@ == old(self)@.push(value@),
    {
        proof {
            use_type_invariant(&*self);
            assert(self.absorbed@.push(value@).drop_last() =~= self.absorbed@);
        }
        let hash = pedersen_hash(self.hash, value);
        let count = self.count + 1;
        let ghost absorbed = self.absorbed@.push(value@);
        *self = HashChain { hash, count, absorbed: Ghost(absorbed) };
    }

    /// Absorbs one element and hands the chain back.
    pub fn chain_update(self, value: Felt) -> (r: HashChain)
        requires
            self@.len() < u128::MAX,
        ensures
            r@ == self@.push(value@),
    {
        let mut chain = self;
        chain.update(value);
        chain
    }

    /// Absorbs every element of a slice, in order. The chain must have room
    /// for a slice of any length.
    pub fn update_all(&mut self, values: &[Felt])
        requires
            old(self)@.len() <= u128::MAX - usize::MAX,
        ensures
            final(self)@ == old(self)@ + felt_values(values@),
    {
        let count: usize = values.len();
        let mut i: usize = 0;
        while i < values.len()
            invariant
                i <= values@.len(),
                count == values@.len(),
                old(self)@.len() <= u128::MAX - usize::MAX,
                self@ == old(self)@ + felt_values(values@).subrange(0, i as int),
            decreases values@.len() - i,
        {
            self.update(values[i]);
            proof {
                assert(felt_values(values@).subrange(0, i + 1) =~= felt_values(values@).subrange(
                    0,
                    i as int,
                ).push(values@[i as int]@));
            }
            i = i + 1;
        }
        proof {
            assert(felt_values(values@).subrange(0, i as int) =~= felt_values(values@));
        }
    }

    /// The hash of what was absorbed.
    pub fn finalize(self) -> (r: Felt)
        ensures
            r@ == hash_on_elements(self@),
    {
        proof {
            use_type_invariant(&self);
        }
        pedersen_hash(self.hash, Felt::from_u128(self.count))
    }

    /// The hash of a chain that absorbed one element.
    pub fn single(value: Felt) -> (r: Felt)
        ensures
            r@ == hash_on_elements(seq![value@]),
    {
        let chain = HashChain::new().chain_update(value);
        proof {
            assert(Seq::<nat>::empty().push(value@) =~= seq![value@]);
        }
        chain.finalize()
    }
}

impl Default for HashChain {
    fn default() -> (r: HashChain)
        ensures
            r@ == Seq::<nat>::empty(),
    {
        HashChain::new()
    }
}

/// The hash of a slice of elements through a fresh hash chain.
pub fn hash_elements(values: &[Felt]) -> (r: Felt)
    ensures
        r@ == hash_on_elements(felt_values(values@)),
{
    let mut chain = HashChain::new();
    chain.update_all(values);
    proof {
        assert(Seq::<nat>::empty() + felt_values(values@) =~= felt_values(values@));
    }
    chain.finalize()
}

} // verus!
