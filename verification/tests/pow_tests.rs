use pfft_miner::pow::{
    chunk_base, effective_threads, hash_le_target, hash_range, pow_hash, progress_due,
    search_chunk, set_nonce, solution_for, BENCH_CHUNK, CPU_CHUNK,
};
use pfft_miner::status::target_for_bits;

fn unhex(s: &str) -> [u8; 32] {
    let mut out = [0u8; 32];
    for i in 0..32 {
        out[i] = u8::from_str_radix(&s[2 * i..2 * i + 2], 16).unwrap();
    }
    out
}

fn counting_challenge() -> [u8; 32] {
    let mut c = [0u8; 32];
    for i in 0..32 {
        c[i] = i as u8;
    }
    c
}

#[test]
fn hash_of_zero_challenge_and_zero_nonce() {
    // keccak256 of 64 zero bytes
    let h = pow_hash(&[0u8; 32], 0);
    assert_eq!(h, unhex("ad3228b676f7d3cd4284a5443f17f1962b36e491b30a40b2405849e597ba5fb5"));
}

#[test]
fn hash_of_counting_challenge() {
    let c = counting_challenge();
    assert_eq!(pow_hash(&c, 0), unhex("77355d4a862f94a7e5925b3054d446d88c8a9e46b64e69aa8a47fe70cffe75b8"));
    assert_eq!(pow_hash(&c, 8), unhex("098fe8221666238674f8920baa33f3fd9be3dee6047869f2eb050cd497215193"));
    assert_eq!(pow_hash(&c, 39), unhex("432cfe00200d6ae61c53c17c9ae28cb6a25381bd694defa85fa9c50a34c14ee8"));
}

#[test]
fn set_nonce_writes_big_endian_tail() {
    let mut buf = [7u8; 64];
    set_nonce(&mut buf, 0x0102_0304_0506_0708);
    assert!(buf[..56].iter().all(|&b| b == 7));
    assert_eq!(buf[56..], [1, 2, 3, 4, 5, 6, 7, 8]);
    set_nonce(&mut buf, u64::MAX);
    assert_eq!(buf[56..], [0xff; 8]);
    set_nonce(&mut buf, 0);
    assert_eq!(buf[56..], [0; 8]);
}

#[test]
fn hash_le_target_compares_as_numbers() {
    let t = target_for_bits(4);
    assert!(hash_le_target(&unhex("098fe8221666238674f8920baa33f3fd9be3dee6047869f2eb050cd497215193"), &t));
    assert!(!hash_le_target(&unhex("12315eace5194eb93c362dc2cff9d6e74fd33ab7bee31f3a5d908e63a48d5ef1"), &t));
    assert!(hash_le_target(&t, &t));
    assert!(hash_le_target(&[0u8; 32], &[0u8; 32]));
}

#[test]
fn search_finds_first_nonce_with_a_leading_zero_digit() {
    let c = counting_challenge();
    let t = target_for_bits(4);
    assert_eq!(search_chunk(&c, &t, 0, 20), Some(8));
    assert_eq!(search_chunk(&c, &t, 8, 1), Some(8));
    assert_eq!(search_chunk(&c, &t, 9, 5), None);
    assert_eq!(search_chunk(&c, &t, 0, 8), None);
}

#[test]
fn search_with_easiest_target_takes_the_first_nonce() {
    let c = counting_challenge();
    assert_eq!(search_chunk(&c, &[0xff; 32], 17, 3), Some(17));
}

#[test]
fn search_with_zero_target_finds_nothing() {
    let c = counting_challenge();
    assert_eq!(search_chunk(&c, &[0u8; 32], 0, 40), None);
}

#[test]
fn search_range_that_wraps_is_empty() {
    let c = counting_challenge();
    assert_eq!(search_chunk(&c, &[0xff; 32], u64::MAX - 1, 5), None);
    assert_eq!(search_chunk(&c, &[0xff; 32], 5, 0), None);
    assert_eq!(search_chunk(&c, &[0xff; 32], u64::MAX - 1, 1), Some(u64::MAX - 1));
}

#[test]
fn hash_range_counts_the_nonces() {
    let c = counting_challenge();
    assert_eq!(hash_range(&c, 0, 10), 10);
    assert_eq!(hash_range(&c, 100, 0), 0);
    assert_eq!(hash_range(&c, u64::MAX - 1, 5), 0);
    assert_eq!(hash_range(&c, u64::MAX - 3, 3), 3);
}

#[test]
fn chunk_bases_wrap() {
    assert_eq!(chunk_base(0, CPU_CHUNK), 0);
    assert_eq!(chunk_base(3, CPU_CHUNK), 3 * 1_048_576);
    assert_eq!(chunk_base(7, BENCH_CHUNK), 7 * 65_536);
    assert_eq!(chunk_base(1 << 44, CPU_CHUNK), 0);
    assert_eq!(chunk_base((1 << 44) + 1, CPU_CHUNK), CPU_CHUNK);
}

#[test]
fn progress_is_due_once_per_period() {
    assert!(progress_due(0, 1));
    assert!(!progress_due(CPU_CHUNK, 1));
    assert!(progress_due(5 * CPU_CHUNK, 1));
    assert!(!progress_due(5 * CPU_CHUNK, 2));
    assert!(progress_due(10 * CPU_CHUNK, 2));
    assert!(progress_due(10 * CPU_CHUNK + CPU_CHUNK - 1, 2));
}

#[test]
fn threads_default_to_the_cpus() {
    assert_eq!(effective_threads(3), 3);
    assert!(effective_threads(0) >= 1);
}

#[test]
fn solution_recomputes_the_hash() {
    let c = counting_challenge();
    let r = solution_for(&c, 8);
    assert_eq!(r.nonce, 8);
    assert_eq!(r.hash, unhex("098fe8221666238674f8920baa33f3fd9be3dee6047869f2eb050cd497215193"));
    assert_eq!(r.hash_hex(), "098fe8221666238674f8920baa33f3fd9be3dee6047869f2eb050cd497215193");
}

#[test]
fn more_difficulty_gives_lower_targets() {
    let mut prev = target_for_bits(0);
    for bits in 1..=260u64 {
        let t = target_for_bits(bits);
        assert!(t <= prev);
        prev = t;
    }
}

#[test]
fn leading_zero_digits_decide_the_target() {
    let c = counting_challenge();
    let t = target_for_bits(4);
    for nonce in 0..40u64 {
        let h = pow_hash(&c, nonce);
        assert_eq!(hash_le_target(&h, &t), h[0] >> 4 == 0);
    }
}
