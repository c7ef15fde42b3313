use pfft_miner::uint::{be32_from_u128, be32_le};

fn be(x: u128) -> [u8; 32] {
    let mut out = [0u8; 32];
    out[16..].copy_from_slice(&x.to_be_bytes());
    out
}

#[test]
fn be32_from_u128_is_big_endian() {
    assert_eq!(be32_from_u128(0), [0u8; 32]);
    assert_eq!(be32_from_u128(1), be(1));
    assert_eq!(be32_from_u128(0x0102), be(0x0102));
    assert_eq!(be32_from_u128(u128::MAX), be(u128::MAX));
    let cap = be32_from_u128(10_000_000_000_000_000_000_000);
    assert_eq!(cap, be(10_000_000_000_000_000_000_000));
    assert_eq!(cap[22..], [0x02, 0x1e, 0x19, 0xe0, 0xc9, 0xba, 0xb2, 0x40, 0x00, 0x00]);
}

#[test]
fn be32_le_orders_numbers() {
    assert!(be32_le(&be(5), &be(5)));
    assert!(be32_le(&be(4), &be(5)));
    assert!(!be32_le(&be(6), &be(5)));
    assert!(be32_le(&be(0xff), &be(0x100)));
    assert!(!be32_le(&be(0x100), &be(0xff)));
    let mut big = [0u8; 32];
    big[0] = 1;
    assert!(be32_le(&be(u128::MAX), &big));
    assert!(!be32_le(&big, &be(u128::MAX)));
    assert!(be32_le(&[0u8; 32], &[0u8; 32]));
    assert!(be32_le(&[0xffu8; 32], &[0xffu8; 32]));
}

#[test]
fn be32_le_agrees_with_array_order() {
    let samples: [[u8; 32]; 5] = [[0u8; 32], be(1), be(u128::MAX), [0x7fu8; 32], [0xffu8; 32]];
    for a in samples.iter() {
        for b in samples.iter() {
            assert_eq!(be32_le(a, b), a <= b);
        }
    }
}
