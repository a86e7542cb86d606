//! Elements of the StarkNet prime field.
//!
//! A [`Felt`] is a number below the modulus `2^251 + 17 * 2^192 + 1`. Its view
//! is that number. The 251 low bits of an element, most significant first,
//! are the key under which the commitment tries file it.

use vstd::arithmetic::div_mod::lemma_fundamental_div_mod_converse;
use vstd::arithmetic::power2::{lemma2_to64, lemma_pow2_adds, lemma_pow2_pos, lemma_pow2_unfold, pow2};
use vstd::prelude::*;

verus! {

/// The upper 128 bits of the field modulus `2^251 + 17 * 2^192 + 1`.
pub const MODULUS_HI: u128 = 0x0800_0000_0000_0011_0000_0000_0000_0000;

/// The lower 128 bits of the field modulus.
pub const MODULUS_LO: u128 = 1;

/// The number of bits in a trie key.
pub const KEY_BITS: usize = 251;

/// `2^64`.
pub open spec fn pow64() -> nat {
    0x1_0000_0000_0000_0000
}

/// `2^128`.
pub open spec fn pow128() -> nat {
    pow64() * pow64()
}

/// `2^251`, the number of distinct trie keys.
pub open spec fn pow251() -> nat {
    0x0800_0000_0000_0000_0000_0000_0000_0000 * pow128()
}

/// The field modulus `2^251 + 17 * 2^192 + 1`.
pub open spec fn modulus() -> nat {
    0x0800_0000_0000_0011_0000_0000_0000_0000 * pow128() + 1
}

/// The number that two 128-bit halves denote.
pub open spec fn halves_value(hi: u128, lo: u128) -> nat {
    hi as nat * pow128() + lo as nat
}

/// `256^k`.
pub open spec fn pow256(k: nat) -> nat
    decreases k,
{
    if k == 0 {
        1
    } else {
        256 * pow256((k - 1) as nat)
    }
}

/// The number that a string of bytes denotes, most significant byte first.
pub open spec fn be_value(bytes: Seq<u8>) -> nat
    decreases bytes.len(),
{
    if bytes.len() == 0 {
        0
    } else {
        be_value(bytes.drop_last()) * 256 + bytes.last() as nat
    }
}

/// One for a set bit, zero for a clear one.
pub open spec fn bit_value(b: bool) -> nat {
    if b {
        1
    } else {
        0
    }
}

/// The number that a string of bits denotes, most significant bit first.
pub open spec fn bits_value(bits: Seq<bool>) -> nat
    decreases bits.len(),
{
    if bits.len() == 0 {
        0
    } else {
        bits_value(bits.drop_last()) * 2 + bit_value(bits.last())
    }
}

/// The `n` low bits of a number, most significant first.
pub open spec fn low_bits(v: nat, n: nat) -> Seq<bool>
    decreases n,
{
    if n == 0 {
        Seq::empty()
    } else {
        low_bits(v / 2, (n - 1) as nat).push(v % 2 == 1)
    }
}

/// The trie key of a number: its 251 low bits, most significant first.
pub open spec fn key_bits(v: nat) -> Seq<bool> {
    low_bits(v, KEY_BITS as nat)
}

/// The `n` low bits of a number are `n` bits, and denote what the number
/// is modulo `2^n`.
pub proof fn lemma_low_bits(v: nat, n: nat)
    ensures
        low_bits(v, n).len() == n,
        bits_value(low_bits(v, n)) == v % pow2(n),
    decreases n,
{
    lemma2_to64();
    if n > 0 {
        let front = low_bits(v / 2, (n - 1) as nat);
        lemma_low_bits(v / 2, (n - 1) as nat);
        let bits = low_bits(v, n);
        assert(bits.drop_last() =~= front);
        lemma_pow2_unfold(n);
        lemma_pow2_pos((n - 1) as nat);
        let p = pow2((n - 1) as nat);
        let q = (v / 2) / p;
        let r = (v / 2) % p;
        vstd::arithmetic::div_mod::lemma_fundamental_div_mod((v / 2) as int, p as int);
        assert(v == (2 * p) * q + (2 * r + v % 2)) by (nonlinear_arith)
            requires
                v / 2 == p * q + r,
                v == 2 * (v / 2) + v % 2,
        ;
        lemma_fundamental_div_mod_converse(
            v as int,
            (2 * p) as int,
            q as int,
            (2 * r + v % 2) as int,
        );
    }
}

/// A bit put in front of a string adds its weight to the string's number.
pub proof fn lemma_bits_prepend(b: bool, bits: Seq<bool>)
    ensures
        bits_value(seq![b] + bits) == bit_value(b) * pow2(bits.len()) + bits_value(bits),
    decreases bits.len(),
{
    lemma2_to64();
    if bits.len() == 0 {
        assert(seq![b] + bits =~= seq![b]);
        assert(seq![b].drop_last() =~= Seq::<bool>::empty());
        assert(bits_value(seq![b]) == bits_value(seq![b].drop_last()) * 2 + bit_value(b));
    } else {
        let whole = seq![b] + bits;
        assert(whole.drop_last() =~= seq![b] + bits.drop_last());
        assert(whole.last() == bits.last());
        lemma_bits_prepend(b, bits.drop_last());
        lemma_pow2_unfold(bits.len());
        let p = pow2((bits.len() - 1) as nat);
        let x = bits_value(bits.drop_last());
        assert((bit_value(b) * p + x) * 2 == bit_value(b) * (2 * p) + x * 2) by (nonlinear_arith);
    }
}

/// A string of `n` bits denotes a number below `2^n`.
pub proof fn lemma_bits_value_bound(bits: Seq<bool>)
    ensures
        bits_value(bits) < pow2(bits.len()),
    decreases bits.len(),
{
    lemma2_to64();
    if bits.len() > 0 {
        lemma_bits_value_bound(bits.drop_last());
        lemma_pow2_unfold(bits.len());
    }
}

/// Two strings of one length that denote one number are one string.
pub proof fn lemma_bits_value_injective(a: Seq<bool>, b: Seq<bool>)
    requires
        a.len() == b.len(),
        bits_value(a) == bits_value(b),
    ensures
        a == b,
    decreases a.len(),
{
    if a.len() > 0 {
        let x = bits_value(a.drop_last());
        let y = bits_value(b.drop_last());
        assert(x * 2 + bit_value(a.last()) == y * 2 + bit_value(b.last()));
        assert(x == y);
        lemma_bits_value_injective(a.drop_last(), b.drop_last());
        assert(a =~= a.drop_last().push(a.last()));
        assert(b =~= b.drop_last().push(b.last()));
    } else {
        assert(a =~= b);
    }
}

/// Two numbers below `2^251` with one trie key are one number.
pub proof fn lemma_key_bits_injective(a: nat, b: nat)
    requires
        a < pow251(),
        b < pow251(),
        key_bits(a) == key_bits(b),
    ensures
        a == b,
{
    lemma_low_bits(a, KEY_BITS as nat);
    lemma_low_bits(b, KEY_BITS as nat);
    lemma_pow2_values();
    vstd::arithmetic::div_mod::lemma_small_mod(a, pow251());
    vstd::arithmetic::div_mod::lemma_small_mod(b, pow251());
}

/// `2^128` and `2^251` as powers of two.
pub proof fn lemma_pow2_values()
    ensures
        pow2(127) * 2 == pow128(),
        pow2(128) == pow128(),
        pow2(251) == pow251(),
        pow251() < modulus(),
{
    lemma2_to64();
    lemma_pow2_adds(64, 64);
    lemma_pow2_adds(64, 63);
    lemma_pow2_adds(64, 59);
    lemma_pow2_adds(128, 123);
    lemma_pow2_unfold(128);
    assert(pow2(59) == 0x0800_0000_0000_0000) by {
        lemma_pow2_adds(32, 27);
    }
    assert(pow2(123) == 0x0800_0000_0000_0000_0000_0000_0000_0000) by {
        lemma_pow2_adds(59, 64);
    }
    assert(pow2(128) == 0x1_0000_0000_0000_0000 * 0x1_0000_0000_0000_0000);
    assert(pow2(251) == pow2(128) * pow2(123));
    assert(pow2(128) * pow2(123) == 0x0800_0000_0000_0000_0000_0000_0000_0000 * pow128())
        by (nonlinear_arith)
        requires
            pow2(123) == 0x0800_0000_0000_0000_0000_0000_0000_0000,
            pow2(128) == pow128(),
    ;
}

/// `256^k` grows with `k` and is never zero.
pub proof fn lemma_pow256_increases(a: nat, b: nat)
    requires
        a <= b,
    ensures
        pow256(a) <= pow256(b),
        pow256(a) > 0,
    decreases b,
{
    if a < b {
        lemma_pow256_increases(a, (b - 1) as nat);
    } else if a > 0 {
        lemma_pow256_increases((a - 1) as nat, (a - 1) as nat);
    }
}

proof fn lemma_pow256_16()
    ensures
        pow256(15) * 256 == pow128(),
        pow256(16) == pow128(),
{
    reveal_with_fuel(pow256, 17);
}

/// A string of bytes denotes a number below `256^n`.
pub proof fn lemma_be_value_bound(bytes: Seq<u8>)
    ensures
        be_value(bytes) < pow256(bytes.len()),
    decreases bytes.len(),
{
    if bytes.len() > 0 {
        lemma_be_value_bound(bytes.drop_last());
    }
}

/// The number of a string is that of its head, shifted, plus that of its tail.
pub proof fn lemma_be_value_split(bytes: Seq<u8>, k: int)
    requires
        0 <= k <= bytes.len(),
    ensures
        be_value(bytes) == be_value(bytes.subrange(0, k)) * pow256((bytes.len() - k) as nat)
            + be_value(bytes.subrange(k, bytes.len() as int)),
    decreases bytes.len() - k,
{
    let n = bytes.len() as int;
    if k == n {
        assert(bytes.subrange(0, k) =~= bytes);
        assert(bytes.subrange(k, n) =~= Seq::<u8>::empty());
        assert(be_value(bytes) * 1 == be_value(bytes)) by (nonlinear_arith);
    } else {
        let front = bytes.drop_last();
        lemma_be_value_split(front, k);
        assert(front.subrange(0, k) =~= bytes.subrange(0, k));
        assert(bytes.subrange(k, n).drop_last() =~= front.subrange(k, n - 1));
        assert(bytes.subrange(k, n).last() == bytes.last());
        let h = be_value(bytes.subrange(0, k));
        let t = be_value(front.subrange(k, n - 1));
        let p = pow256((n - 1 - k) as nat);
        assert((h * p + t) * 256 == h * (256 * p) + t * 256) by (nonlinear_arith);
        assert(be_value(front) == h * p + t);
        assert(be_value(bytes) == be_value(front) * 256 + bytes.last() as nat);
        assert(be_value(bytes.subrange(k, n)) == t * 256 + bytes.last() as nat);
        assert(pow256((n - k) as nat) == 256 * p);
    }
}

/// `2^128` is one more than the largest 128-bit number.
pub proof fn lemma_pow128_value()
    ensures
        pow128() == u128::MAX + 1,
{
    assert(pow64() * pow64() == u128::MAX + 1) by (nonlinear_arith);
}

/// The sum of two numbers in halves, with the carry from the lower
/// halves.
proof fn lemma_halves_sum(h1: int, l1: int, h2: int, l2: int, carry: int, k: int)
    by (nonlinear_arith)
    ensures
        (h1 + h2 + carry) * k + (l1 + l2 - carry * k) == (h1 * k + l1) + (h2 * k + l2),
        carry == 0 ==> carry * k == 0,
        carry == 1 ==> carry * k == k,
{
}

/// The difference of two numbers in halves, with the borrow from the
/// lower halves.
proof fn lemma_halves_difference(hi: int, m: int, borrow: int, k: int)
    by (nonlinear_arith)
    ensures
        (hi - m - borrow) * k + borrow * k + m * k == hi * k,
        borrow == 0 ==> borrow * k == 0,
        borrow == 1 ==> borrow * k == k,
{
}

/// A 128-bit number is below `2^128`.
pub proof fn lemma_u128_below_pow128(x: u128)
    ensures
        x < pow128(),
{
    assert(pow64() * pow64() > u128::MAX) by (nonlinear_arith);
}

/// A string of at most 31 bytes denotes a number below the modulus.
pub proof fn lemma_short_string_fits(bytes: Seq<u8>)
    requires
        bytes.len() <= 31,
    ensures
        be_value(bytes) < modulus(),
{
    lemma_be_value_bound(bytes);
    lemma_pow256_increases(bytes.len(), 31);
    assert(pow256(31) < modulus()) by {
        reveal_with_fuel(pow256, 32);
    }
}

/// A byte put in front of a string adds its weight to the string's number.
pub proof fn lemma_be_value_prepend(b: u8, bytes: Seq<u8>)
    ensures
        be_value(seq![b] + bytes) == b as nat * pow256(bytes.len()) + be_value(bytes),
{
    let whole = seq![b] + bytes;
    lemma_be_value_split(whole, 1);
    assert(whole.subrange(0, 1) =~= seq![b]);
    assert(whole.subrange(1, whole.len() as int) =~= bytes);
    assert(seq![b].drop_last() =~= Seq::<u8>::empty());
    assert(be_value(seq![b]) == be_value(seq![b].drop_last()) * 256 + b as nat);
}

/// The error of a conversion whose input is not below the field modulus.
#[derive(Clone, Copy, Debug, PartialEq, Eq, Structural)]
pub struct OverflowError;

/// A field element: a number below the modulus, held as two 128-bit halves.
#[derive(Clone, Copy, Debug, PartialEq, Eq, Hash, Structural)]
pub struct Felt {
    hi: u128,
    lo: u128,
}

impl View for Felt {
    type V = nat;

    closed spec fn view(&self) -> nat {
        halves_value(self.hi, self.lo)
    }
}

impl Felt {
    #[verifier::type_invariant]
    spec fn below_modulus(self) -> bool {
        halves_value(self.hi, self.lo) < modulus()
    }

    /// Two elements are one element exactly when they denote one number.
    pub proof fn lemma_view_injective(self, other: Felt)
        ensures
            (self@ == other@) <==> (self == other),
    {
        if self@ == other@ {
            assert(self.hi == other.hi) by (nonlinear_arith)
                requires
                    self.hi * pow128() + self.lo == other.hi * pow128() + other.lo,
                    self.lo < pow128(),
                    other.lo < pow128(),
            ;
        }
    }

    /// The element that a 64-bit number denotes.
    pub closed spec fn from_u64_spec(u: u64) -> Felt {
        Felt { hi: 0, lo: u as u128 }
    }

    /// The element of a 64-bit number denotes that number.
    pub proof fn lemma_from_u64_spec(u: u64)
        ensures
            Felt::from_u64_spec(u)@ == u,
    {
    }

    /// The element that denotes a number below the modulus.
    pub closed spec fn of_nat(v: nat) -> Felt {
        Felt { hi: (v / pow128()) as u128, lo: (v % pow128()) as u128 }
    }

    /// An element is the element of the number that it denotes.
    pub proof fn lemma_of_nat(self)
        ensures
            self == Felt::of_nat(self@),
    {
        lemma_u128_below_pow128(self.lo);
        lemma_u128_below_pow128(self.hi);
        lemma_fundamental_div_mod_converse(
            self@ as int,
            pow128() as int,
            self.hi as int,
            self.lo as int,
        );
    }

    /// The element zero.
    pub fn zero() -> (r: Felt)
        ensures
            r@ == 0,
            r == Felt::from_u64_spec(0),
    {
        Felt { hi: 0, lo: 0 }
    }

    /// The element one.
    pub fn one() -> (r: Felt)
        ensures
            r@ == 1,
    {
        Felt { hi: 0, lo: 1 }
    }

    /// The element that a 64-bit number denotes.
    pub fn from_u64(u: u64) -> (r: Felt)
        ensures
            r@ == u,
            r == Felt::from_u64_spec(u),
    {
        Felt { hi: 0, lo: u as u128 }
    }

    /// The element that a 128-bit number denotes.
    pub fn from_u128(u: u128) -> (r: Felt)
        ensures
            r@ == u,
    {
        Felt { hi: 0, lo: u }
    }

    /// The element that two halves denote, when it lies below the modulus.
    pub fn from_halves(hi: u128, lo: u128) -> (r: Option<Felt>)
        ensures
            r is Some <==> halves_value(hi, lo) < modulus(),
            r matches Some(f) ==> f@ == halves_value(hi, lo),
    {
        if hi < MODULUS_HI || (hi == MODULUS_HI && lo < MODULUS_LO) {
            assert(halves_value(hi, lo) < modulus()) by (nonlinear_arith)
                requires
                    hi < MODULUS_HI || (hi == MODULUS_HI && lo < MODULUS_LO),
                    lo < pow128(),
            ;
            Some(Felt { hi, lo })
        } else {
            assert(halves_value(hi, lo) >= modulus()) by (nonlinear_arith)
                requires
                    !(hi < MODULUS_HI || (hi == MODULUS_HI && lo < MODULUS_LO)),
            ;
            None
        }
    }

    /// The two 128-bit halves of the element, upper half first.
    pub fn halves(&self) -> (r: (u128, u128))
        ensures
            halves_value(r.0, r.1) == self@,
    {
        (self.hi, self.lo)
    }

    /// Whether the element is zero.
    pub fn is_zero(&self) -> (r: bool)
        ensures
            r == (self@ == 0),
    {
        assert(self.hi == 0 && self.lo == 0 <==> halves_value(self.hi, self.lo) == 0)
            by (nonlinear_arith);
        self.hi == 0 && self.lo == 0
    }

    /// Whether the element does not fit a trie key, that is, is `2^251` or more.
    pub fn has_more_than_251_bits(&self) -> (r: bool)
        ensures
            r == (self@ >= pow251()),
    {
        assert(self.hi >= 0x0800_0000_0000_0000_0000_0000_0000_0000u128 <==> halves_value(
            self.hi,
            self.lo,
        ) >= pow251()) by (nonlinear_arith)
            requires
                self.lo < pow128(),
        ;
        self.hi >= 0x0800_0000_0000_0000_0000_0000_0000_0000u128
    }

    /// The element that up to 32 bytes denote, most significant byte first.
    /// Fails when there are more bytes or the number is not below the modulus.
    pub fn from_be_slice(bytes: &[u8]) -> (r: Result<Felt, OverflowError>)
        ensures
            r is Ok <==> bytes@.len() <= 32 && be_value(bytes@) < modulus(),
            r matches Ok(f) ==> f@ == be_value(bytes@),
    {
        let n = bytes.len();
        if n > 32 {
            proof {
                lemma_be_value_split(bytes@, 32);
                lemma_pow256_increases(0, (n - 32) as nat);
            }
            return Err(OverflowError);
        }
        let split: usize = if n > 16 {
            n - 16
        } else {
            0
        };
        let hi = be_u128(bytes, 0, split);
        let lo = be_u128(bytes, split, n);
        proof {
            lemma_be_value_split(bytes@, split as int);
            lemma_pow256_16();
            if n <= 16 {
                assert(bytes@.subrange(0, 0) =~= Seq::<u8>::empty());
            }
            assert(be_value(bytes@) == halves_value(hi, lo)) by (nonlinear_arith)
                requires
                    be_value(bytes@) == hi * pow256((n - split) as nat) + lo,
                    hi == 0 || pow256((n - split) as nat) == pow128(),
            ;
        }
        match Felt::from_halves(hi, lo) {
            Some(f) => Ok(f),
            None => Err(OverflowError),
        }
    }

    /// The element that a string of up to 251 bits denotes, most significant
    /// bit first.
    pub fn from_bits(bits: &[bool]) -> (r: Felt)
        requires
            bits@.len() <= KEY_BITS,
        ensures
            r@ == bits_value(bits@),
    {
        let mut hi: u128 = 0;
        let mut lo: u128 = 0;
        let mut i: usize = 0;
        proof {
            assert(bits@.subrange(0, 0) =~= Seq::<bool>::empty());
            lemma2_to64();
        }
        while i < bits.len()
            invariant
                i <= bits@.len() <= KEY_BITS,
                halves_value(hi, lo) == bits_value(bits@.subrange(0, i as int)),
                halves_value(hi, lo) < pow2(i as nat),
            decreases bits@.len() - i,
        {
            let carry: u128 = if lo >= 0x8000_0000_0000_0000_0000_0000_0000_0000u128 {
                1
            } else {
                0
            };
            let b: u128 = if bits[i] {
                1
            } else {
                0
            };
            proof {
                lemma_pow2_values();
                lemma_pow2_unfold((i + 1) as nat);
                if i < 250 {
                    vstd::arithmetic::power2::lemma_pow2_strictly_increases(i as nat, 250);
                }
                lemma_pow2_unfold(251);
                assert(hi < 0x0400_0000_0000_0000_0000_0000_0000_0000u128) by (nonlinear_arith)
                    requires
                        hi * pow128() + lo < pow2(i as nat),
                        pow2(i as nat) <= pow2(250),
                        pow2(250) * 2 == 0x0800_0000_0000_0000_0000_0000_0000_0000 * pow128(),
                ;
                let next = bits@.subrange(0, i + 1);
                assert(next.drop_last() =~= bits@.subrange(0, i as int));
                assert(next.last() == bits@[i as int]);
            }
            let low: u128 = lo - carry * 0x8000_0000_0000_0000_0000_0000_0000_0000u128;
            let new_hi: u128 = hi * 2 + carry;
            let new_lo: u128 = low * 2 + b;
            assert(halves_value(new_hi, new_lo) == halves_value(hi, lo) * 2 + b)
                by (nonlinear_arith)
                requires
                    new_hi == hi * 2 + carry,
                    new_lo == (lo - carry * 0x8000_0000_0000_0000_0000_0000_0000_0000) * 2 + b,
                    pow128() == 0x8000_0000_0000_0000_0000_0000_0000_0000 * 2,
            ;
            hi = new_hi;
            lo = new_lo;
            i = i + 1;
        }
        proof {
            assert(bits@.subrange(0, i as int) =~= bits@);
            lemma_pow2_values();
            if i < 251 {
                vstd::arithmetic::power2::lemma_pow2_strictly_increases(i as nat, 251);
            }
        }
        Felt { hi, lo }
    }

    /// The trie key of the element: its 251 low bits, most significant first.
    pub fn to_bits(&self) -> (r: Vec<bool>)
        ensures
            r@.len() == KEY_BITS,
            bits_value(r@) == self@ % pow251(),
            r@ == key_bits(self@),
    {
        let mut bits: Vec<bool> = Vec::new();
        let mut k: usize = 0;
        while k < KEY_BITS
            invariant
                k <= KEY_BITS,
                bits@.len() == k,
            decreases KEY_BITS - k,
        {
            bits.push(false);
            k = k + 1;
        }
        let mut hi: u128 = self.hi;
        let mut lo: u128 = self.lo;
        let mut j: usize = 0;
        proof {
            lemma2_to64();
            assert(bits@.subrange(251, 251) =~= Seq::<bool>::empty());
            assert(halves_value(hi, lo) * 1 == halves_value(hi, lo)) by (nonlinear_arith);
        }
        while j < KEY_BITS
            invariant
                j <= KEY_BITS,
                bits@.len() == KEY_BITS,
                self@ == halves_value(hi, lo) * pow2(j as nat) + bits_value(
                    bits@.subrange(251 - j, 251),
                ),
            decreases KEY_BITS - j,
        {
            let ghost before = bits@.subrange(251 - j, 251);
            let low_bit: u128 = lo % 2;
            let carry: u128 = hi % 2;
            let new_lo: u128 = lo / 2 + carry * 0x8000_0000_0000_0000_0000_0000_0000_0000u128;
            let new_hi: u128 = hi / 2;
            bits.set(250 - j, low_bit == 1);
            proof {
                let after = bits@.subrange(250 - j, 251);
                assert(after =~= seq![low_bit == 1] + before);
                lemma_bits_prepend(low_bit == 1, before);
                lemma_pow2_unfold((j + 1) as nat);
                assert(halves_value(hi, lo) == halves_value(new_hi, new_lo) * 2 + low_bit)
                    by (nonlinear_arith)
                    requires
                        new_hi == hi / 2,
                        carry == hi % 2,
                        low_bit == lo % 2,
                        new_lo == lo / 2 + carry * 0x8000_0000_0000_0000_0000_0000_0000_0000,
                        pow128() == 0x8000_0000_0000_0000_0000_0000_0000_0000 * 2,
                ;
                let c = halves_value(new_hi, new_lo);
                let p = pow2(j as nat);
                assert((c * 2 + low_bit) * p == c * (2 * p) + low_bit * p) by (nonlinear_arith);
            }
            hi = new_hi;
            lo = new_lo;
            j = j + 1;
        }
        proof {
            assert(bits@.subrange(0, 251) =~= bits@);
            lemma_bits_value_bound(bits@);
            lemma_pow2_values();
            lemma_fundamental_div_mod_converse(
                self@ as int,
                pow251() as int,
                halves_value(hi, lo) as int,
                bits_value(bits@) as int,
            );
            lemma_low_bits(self@, KEY_BITS as nat);
            lemma_bits_value_injective(bits@, key_bits(self@));
        }
        bits
    }

    /// The 32 bytes of the element, most significant byte first.
    pub fn to_be_bytes(&self) -> (r: [u8; 32])
        ensures
            be_value(r@) == self@,
    {
        let mut out: [u8; 32] = [0u8; 32];
        let mut hi: u128 = self.hi;
        let mut lo: u128 = self.lo;
        let mut j: usize = 0;
        proof {
            assert(out@.subrange(16, 16) =~= Seq::<u8>::empty());
            assert(out@.subrange(32, 32) =~= Seq::<u8>::empty());
            assert(hi * 1 == hi && lo * 1 == lo) by (nonlinear_arith);
        }
        while j < 16
            invariant
                j <= 16,
                self.hi == hi * pow256(j as nat) + be_value(out@.subrange(16 - j, 16)),
                self.lo == lo * pow256(j as nat) + be_value(out@.subrange(32 - j, 32)),
            decreases 16 - j,
        {
            let ghost hi_before = out@.subrange(16 - j, 16);
            let ghost lo_before = out@.subrange(32 - j, 32);
            let hi_byte: u8 = (hi % 256) as u8;
            let lo_byte: u8 = (lo % 256) as u8;
            out[15 - j] = hi_byte;
            out[31 - j] = lo_byte;
            proof {
                assert(out@.subrange(15 - j, 16) =~= seq![hi_byte] + hi_before);
                assert(out@.subrange(31 - j, 32) =~= seq![lo_byte] + lo_before);
                lemma_be_value_prepend(hi_byte, hi_before);
                lemma_be_value_prepend(lo_byte, lo_before);
                let p = pow256(j as nat);
                let h = hi / 256;
                let l = lo / 256;
                assert((h * 256 + hi_byte) * p == h * (256 * p) + hi_byte * p) by (nonlinear_arith);
                assert((l * 256 + lo_byte) * p == l * (256 * p) + lo_byte * p) by (nonlinear_arith);
            }
            hi = hi / 256;
            lo = lo / 256;
            j = j + 1;
        }
        proof {
            lemma_pow256_16();
            lemma_be_value_bound(out@.subrange(0, 16));
            lemma_be_value_bound(out@.subrange(16, 32));
            assert(hi == 0 && lo == 0) by (nonlinear_arith)
                requires
                    self.hi == hi * pow128() + be_value(out@.subrange(0, 16)),
                    self.lo == lo * pow128() + be_value(out@.subrange(16, 32)),
                    self.hi < pow128(),
                    self.lo < pow128(),
            ;
            lemma_be_value_split(out@, 16);
        }
        out
    }

    /// The element that 32 bytes denote, most significant byte first. Fails
    /// when the number is not below the modulus.
    pub fn from_be_bytes(bytes: [u8; 32]) -> (r: Result<Felt, OverflowError>)
        ensures
            r is Ok <==> be_value(bytes@) < modulus(),
            r matches Ok(f) ==> f@ == be_value(bytes@),
    {
        Felt::from_be_slice(bytes.as_slice())
    }

    /// The sum of two elements in the field.
    pub fn add(self, rhs: Felt) -> (r: Felt)
        ensures
            r@ == (self@ + rhs@) % modulus(),
    {
        proof {
            use_type_invariant(&self);
            use_type_invariant(&rhs);
            assert(self.hi <= MODULUS_HI && rhs.hi <= MODULUS_HI) by (nonlinear_arith)
                requires
                    self.hi * pow128() + self.lo < MODULUS_HI * pow128() + 1,
                    rhs.hi * pow128() + rhs.lo < MODULUS_HI * pow128() + 1,
            ;
        }
        let room: u128 = u128::MAX - self.lo;
        let (lo, carry): (u128, u128) = if rhs.lo > room {
            (rhs.lo - room - 1, 1)
        } else {
            (self.lo + rhs.lo, 0)
        };
        let hi: u128 = self.hi + rhs.hi + carry;
        proof {
            lemma_pow128_value();
            lemma_halves_sum(
                self.hi as int,
                self.lo as int,
                rhs.hi as int,
                rhs.lo as int,
                carry as int,
                pow128() as int,
            );
        }
        assert(halves_value(hi, lo) == self@ + rhs@);
        if hi > MODULUS_HI || (hi == MODULUS_HI && lo >= MODULUS_LO) {
            // Not below the modulus: take it off once.
            let (new_hi, new_lo): (u128, u128) = if lo >= 1 {
                (hi - MODULUS_HI, lo - 1)
            } else {
                (hi - MODULUS_HI - 1, u128::MAX)
            };
            proof {
                lemma_halves_difference(
                    hi as int,
                    MODULUS_HI as int,
                    if lo >= 1 {
                        0
                    } else {
                        1
                    },
                    pow128() as int,
                );
                assert(halves_value(new_hi, new_lo) + modulus() == halves_value(hi, lo));
                lemma_fundamental_div_mod_converse(
                    (self@ + rhs@) as int,
                    modulus() as int,
                    1,
                    halves_value(new_hi, new_lo) as int,
                );
            }
            Felt { hi: new_hi, lo: new_lo }
        } else {
            proof {
                assert(halves_value(hi, lo) < modulus()) by (nonlinear_arith)
                    requires
                        hi < MODULUS_HI || (hi == MODULUS_HI && lo < MODULUS_LO),
                        lo < pow128(),
                ;
                lemma_fundamental_div_mod_converse(
                    (self@ + rhs@) as int,
                    modulus() as int,
                    0,
                    halves_value(hi, lo) as int,
                );
            }
            Felt { hi, lo }
        }
    }
}

impl Default for Felt {
    fn default() -> (r: Felt)
        ensures
            r@ == 0,
    {
        Felt::zero()
    }
}

/// The number that the bytes from `from` up to `to` denote.
pub(crate) fn be_u128(bytes: &[u8], from: usize, to: usize) -> (r: u128)
    requires
        from <= to <= bytes@.len(),
        to - from <= 16,
    ensures
        r == be_value(bytes@.subrange(from as int, to as int)),
{
    let mut acc: u128 = 0;
    let mut i: usize = from;
    proof {
        assert(bytes@.subrange(from as int, from as int) =~= Seq::<u8>::empty());
    }
    while i < to
        invariant
            from <= i <= to <= bytes@.len(),
            to - from <= 16,
            acc == be_value(bytes@.subrange(from as int, i as int)),
            acc < pow256((i - from) as nat),
        decreases to - i,
    {
        proof {
            lemma_pow256_increases((i - from) as nat, 15);
            lemma_pow256_16();
            let next = bytes@.subrange(from as int, i + 1);
            assert(next.drop_last() =~= bytes@.subrange(from as int, i as int));
            assert(next.last() == bytes@[i as int]);
        }
        acc = acc * 256 + bytes[i] as u128;
        i = i + 1;
    }
    acc
}

} // verus!
