use stark_node::felt::{Felt, OverflowError, MODULUS_HI, MODULUS_LO};

fn theirs(f: Felt) -> pathfinder_crypto::Felt {
    pathfinder_crypto::Felt::from_be_bytes(f.to_be_bytes()).unwrap()
}

fn modulus_bytes() -> [u8; 32] {
    let mut bytes = [0u8; 32];
    bytes[..16].copy_from_slice(&MODULUS_HI.to_be_bytes());
    bytes[16..].copy_from_slice(&MODULUS_LO.to_be_bytes());
    bytes
}

#[test]
fn the_modulus_is_the_first_number_that_overflows() {
    let modulus = modulus_bytes();
    assert_eq!(Felt::from_be_bytes(modulus), Err(OverflowError));
    assert_eq!(
        pathfinder_crypto::Felt::from_be_bytes(modulus),
        Err(pathfinder_crypto::OverflowError)
    );
    let mut below = modulus;
    below[31] = 0;
    let largest = Felt::from_be_bytes(below).unwrap();
    assert_eq!(largest.halves(), (MODULUS_HI, 0));
    assert_eq!(largest.to_be_bytes(), below);
    assert_eq!(Felt::from_halves(MODULUS_HI, 0), Some(largest));
    assert_eq!(Felt::from_halves(MODULUS_HI, 1), None);
    assert_eq!(Felt::from_halves(MODULUS_HI + 1, 0), None);
    assert_eq!(Felt::from_be_bytes([0xff; 32]), Err(OverflowError));
}

#[test]
fn slices_are_read_with_the_most_significant_byte_first() {
    assert_eq!(Felt::from_be_slice(&[]), Ok(Felt::zero()));
    assert_eq!(Felt::from_be_slice(&[1, 2]), Ok(Felt::from_u64(258)));
    assert_eq!(Felt::from_be_slice(&[0; 33]), Err(OverflowError));
    let mut seventeen = [0u8; 17];
    seventeen[0] = 1;
    assert_eq!(Felt::from_be_slice(&seventeen).unwrap().halves(), (1, 0));
    assert_eq!(Felt::from_u128(u128::MAX).halves(), (0, u128::MAX));
    assert_eq!(Felt::from_u64(7).to_be_bytes()[31], 7);
    assert_eq!(Felt::one(), Felt::from_u64(1));
    assert_eq!(Felt::default(), Felt::zero());
    assert!(Felt::zero().is_zero());
    assert!(!Felt::one().is_zero());
}

#[test]
fn addition_wraps_at_the_modulus() {
    let largest = Felt::from_halves(MODULUS_HI, 0).unwrap();
    assert_eq!(largest.add(Felt::one()), Felt::zero());
    assert_eq!(largest.add(Felt::from_u64(5)), Felt::from_u64(4));
    assert_eq!(largest.add(largest), Felt::from_halves(MODULUS_HI - 1, u128::MAX).unwrap());
    let carry = Felt::from_u128(u128::MAX);
    assert_eq!(carry.add(Felt::one()).halves(), (1, 0));
    assert_eq!(carry.add(carry).halves(), (1, u128::MAX - 1));
    // The same as the crypto crate adds.
    let samples = [
        Felt::zero(),
        Felt::one(),
        carry,
        largest,
        Felt::from_halves(1 << 100, 12345).unwrap(),
        Felt::from_halves(MODULUS_HI - 1, u128::MAX).unwrap(),
    ];
    for a in samples {
        for b in samples {
            let expected = theirs(a) + theirs(b);
            assert_eq!(a.add(b).to_be_bytes(), expected.to_be_bytes());
        }
    }
}

#[test]
fn keys_are_the_251_low_bits() {
    let largest = Felt::from_halves(MODULUS_HI, 0).unwrap();
    assert!(largest.has_more_than_251_bits());
    assert!(!Felt::from_halves(MODULUS_HI - (17 << 64) - 1, u128::MAX)
        .unwrap()
        .has_more_than_251_bits());
    // The largest element is 2^251 + 17 * 2^192: its key is 17 * 2^192.
    let bits = largest.to_bits();
    assert_eq!(bits.len(), 251);
    assert_eq!(Felt::from_bits(&bits).halves(), (17 << 64, 0));
    let theirs_bits: Vec<bool> = theirs(largest).view_bits().iter().map(|b| *b).collect();
    assert_eq!(bits, theirs_bits);
    for sample in [0u64, 1, 2, 255, 256, u64::MAX] {
        let f = Felt::from_u64(sample);
        assert_eq!(Felt::from_bits(&f.to_bits()), f);
    }
    assert_eq!(Felt::from_bits(&[]), Felt::zero());
    assert_eq!(Felt::from_bits(&[true, false, true]), Felt::from_u64(5));
    assert_eq!(Felt::from_bits(&vec![true; 251]).halves(), ((1 << 123) - 1, u128::MAX));
}
