use pfft_miner::status::{
    mint_request_amount, status_from_chain, supply_exhausted, target_for_bits, wallet_cap_reached,
};
use pfft_miner::uint::be32_from_u128;

#[test]
fn target_without_difficulty_is_all_ones() {
    assert_eq!(target_for_bits(0), [0xffu8; 32]);
}

#[test]
fn target_for_one_hex_zero() {
    let t = target_for_bits(4);
    assert_eq!(t[0], 0x0f);
    assert!(t[1..].iter().all(|&b| b == 0xff));
}

#[test]
fn target_for_whole_bytes_and_odd_bits() {
    let t = target_for_bits(8);
    assert_eq!(t[0], 0);
    assert!(t[1..].iter().all(|&b| b == 0xff));
    let t = target_for_bits(13);
    assert_eq!(t[0], 0);
    assert_eq!(t[1], 0x07);
    assert!(t[2..].iter().all(|&b| b == 0xff));
    let t = target_for_bits(255);
    assert!(t[..31].iter().all(|&b| b == 0));
    assert_eq!(t[31], 1);
}

#[test]
fn target_is_zero_once_all_bits_are_shifted_out() {
    assert_eq!(target_for_bits(256), [0u8; 32]);
    assert_eq!(target_for_bits(1000), [0u8; 32]);
    assert_eq!(target_for_bits(u64::MAX), [0u8; 32]);
}

#[test]
fn status_carries_the_chain_values() {
    let s = status_from_chain(
        6,
        be32_from_u128(1),
        be32_from_u128(2),
        be32_from_u128(3),
        be32_from_u128(4),
        be32_from_u128(5),
    );
    assert_eq!(s.hex_zeros, 6);
    assert_eq!(s.difficulty_bits, 24);
    assert_eq!(s.total_minted, be32_from_u128(1));
    assert_eq!(s.max_supply, be32_from_u128(2));
    assert_eq!(s.next_mint, be32_from_u128(3));
    assert_eq!(s.wallet_minted, be32_from_u128(4));
    assert_eq!(s.wallet_bal, be32_from_u128(5));
    let mut expected = [0xffu8; 32];
    expected[0] = 0;
    expected[1] = 0;
    expected[2] = 0;
    assert_eq!(s.target, expected);
}

#[test]
fn supply_is_exhausted_at_the_maximum() {
    let below = status_from_chain(1, be32_from_u128(99), be32_from_u128(100), [0; 32], [0; 32], [0; 32]);
    let at = status_from_chain(1, be32_from_u128(100), be32_from_u128(100), [0; 32], [0; 32], [0; 32]);
    let above = status_from_chain(1, be32_from_u128(101), be32_from_u128(100), [0; 32], [0; 32], [0; 32]);
    assert!(!supply_exhausted(&below));
    assert!(supply_exhausted(&at));
    assert!(supply_exhausted(&above));
}

#[test]
fn wallet_cap_is_ten_thousand_tokens() {
    let cap: u128 = 10_000 * 10u128.pow(18);
    let under = status_from_chain(1, [0; 32], [0xff; 32], [0; 32], be32_from_u128(cap - 1), [0; 32]);
    let at = status_from_chain(1, [0; 32], [0xff; 32], [0; 32], be32_from_u128(cap), [0; 32]);
    assert!(!wallet_cap_reached(&under));
    assert!(wallet_cap_reached(&at));
    let mut huge = [0u8; 32];
    huge[0] = 1;
    let over = status_from_chain(1, [0; 32], [0xff; 32], [0; 32], huge, [0; 32]);
    assert!(wallet_cap_reached(&over));
}

#[test]
fn mint_request_is_one_thousand_tokens() {
    assert_eq!(mint_request_amount(), be32_from_u128(1_000 * 10u128.pow(18)));
}
