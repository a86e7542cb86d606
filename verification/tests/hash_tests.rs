use stark_node::felt::Felt;
use stark_node::hash::{hash_elements, starknet_keccak, HashChain};

fn felt(hex: &str) -> Felt {
    let digits = hex.trim_start_matches("0x");
    let padded = format!("{:0>64}", digits);
    let mut bytes = [0u8; 32];
    for i in 0..32 {
        bytes[i] = u8::from_str_radix(&padded[2 * i..2 * i + 2], 16).unwrap();
    }
    Felt::from_be_bytes(bytes).unwrap()
}

#[test]
fn empty_chain_is_pedersen_of_zeros() {
    let expected = felt("0x49ee3eba8c1600700ee1b87eb599f16716b0b1022947733551fde4050ca6804");
    assert_eq!(HashChain::new().finalize(), expected);
    assert_eq!(HashChain::default().finalize(), expected);
    assert_ne!(expected, Felt::zero());
}

#[test]
fn chain_of_four_elements() {
    let mut chain = HashChain::new();
    chain.update(felt("0x1"));
    chain.update(felt("0x2"));
    chain.update(felt("0x3"));
    chain.update(felt("0x4"));
    let expected = felt("0x66bd4335902683054d08a0572747ea78ebd9e531536fb43125424ca9f902084");
    assert_eq!(chain.finalize(), expected);
    let values = vec![Felt::from_u64(1), Felt::from_u64(2), Felt::from_u64(3), Felt::from_u64(4)];
    assert_eq!(hash_elements(&values), expected);
}

#[test]
fn chain_agrees_with_the_crypto_crate() {
    let mut ours = HashChain::new();
    let mut theirs = pathfinder_crypto::hash::HashChain::default();
    for i in 0..5u64 {
        ours.update(Felt::from_u64(i * 77 + 3));
        theirs.update(pathfinder_crypto::Felt::from_u64(i * 77 + 3));
    }
    assert_eq!(ours.finalize().to_be_bytes(), theirs.finalize().to_be_bytes());
}

#[test]
fn keccak_of_constructor_is_the_selector() {
    let expected = felt("0x28ffe4ff0f226a9107253e17a904099aa4f63a02a5621de0576e5aa71bc5194");
    assert_eq!(starknet_keccak(b"constructor"), expected);
}
