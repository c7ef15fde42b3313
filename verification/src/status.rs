//! The token contract's state as the miner sees it, and the difficulty
//! target that follows from it.
//!
//! The contract announces its difficulty as a count of leading zero hex
//! digits. The target is `(2^256 - 1) >> (4 * hex_zeros)`: a hash meets it
//! exactly when its first `hex_zeros` hex digits are zero.
use vstd::arithmetic::div_mod::*;
use vstd::arithmetic::power2::*;
use vstd::prelude::*;

use crate::uint::{
    be32_from_u128,
    be32_le,
    be_bytes,
    be_value,
    lemma_be_bytes_of_value,
    lemma_be_value_concat,
    lemma_be_value_ones,
    lemma_be_value_single,
    lemma_be_value_zeros,
};

verus! {

/// The largest 256-bit number shifted right by `bits`, as `U256::MAX >> bits` computes it
/// (zero once every bit has been shifted out).
pub open spec fn u256_max_shr(bits: nat) -> nat {
    if bits >= 256 {
        0
    } else {
        (pow2(256) - 1) as nat / pow2(bits)
    }
}

/// How much a wallet may mint in all: 10,000 tokens of 18 decimals, in base units.
pub open spec fn wallet_cap_wei() -> nat {
    10_000_000_000_000_000_000_000
}

/// The amount named when the contract is asked what the next mint pays: 1,000 tokens
/// of 18 decimals, in base units.
pub open spec fn mint_request_wei() -> nat {
    1_000_000_000_000_000_000_000
}

/// The contract state that one round of mining depends on. Amounts are 256-bit
/// big-endian numbers in the token's base unit.
pub struct ContractStatus {
    pub hex_zeros: u64,
    pub difficulty_bits: u64,
    pub total_minted: [u8; 32],
    pub max_supply: [u8; 32],
    pub next_mint: [u8; 32],
    pub wallet_minted: [u8; 32],
    pub wallet_bal: [u8; 32],
    pub target: [u8; 32],
}

/// Below 256 bits, the shifted maximum is `2^(256 - bits) - 1`: all ones after `bits` zero bits.
pub proof fn lemma_max_shr_value(bits: nat)
    requires
        bits < 256,
    ensures
        u256_max_shr(bits) + 1 == pow2((256 - bits) as nat),
{
    let e = pow2((256 - bits) as nat);
    let p = pow2(bits);
    lemma_pow2_adds(bits, (256 - bits) as nat);
    lemma_pow2_pos(bits);
    lemma_pow2_pos((256 - bits) as nat);
    assert(p * e == pow2(256));
    assert((e - 1) * p + (p - 1) == p * e - 1) by (nonlinear_arith);
    lemma_fundamental_div_mod_converse((pow2(256) - 1) as int, p as int, (e - 1) as int, (p - 1) as int);
}

/// The byte `0xff >> r` is `2^(8 - r) - 1`.
proof fn lemma_top_byte(r: u8)
    requires
        r < 8,
    ensures
        (0xffu8 >> r) as nat + 1 == pow2((8 - r) as nat),
{
    lemma2_to64();
    if r == 0 {
        assert(0xffu8 >> 0u8 == 255u8) by (bit_vector);
    } else if r == 1 {
        assert(0xffu8 >> 1u8 == 127u8) by (bit_vector);
    } else if r == 2 {
        assert(0xffu8 >> 2u8 == 63u8) by (bit_vector);
    } else if r == 3 {
        assert(0xffu8 >> 3u8 == 31u8) by (bit_vector);
    } else if r == 4 {
        assert(0xffu8 >> 4u8 == 15u8) by (bit_vector);
    } else if r == 5 {
        assert(0xffu8 >> 5u8 == 7u8) by (bit_vector);
    } else if r == 6 {
        assert(0xffu8 >> 6u8 == 3u8) by (bit_vector);
    } else {
        assert(0xffu8 >> 7u8 == 1u8) by (bit_vector);
    }
}

/// The 256-bit big-endian number `(2^256 - 1) >> bits`.
pub fn target_for_bits(bits: u64) -> (t: [u8; 32])
    ensures
        be_value(t@) == u256_max_shr(bits as nat),
        t@ == be_bytes(u256_max_shr(bits as nat), 32),
{
    if bits >= 256 {
        let z = [0u8; 32];
        proof {
            lemma_be_value_zeros(z@);
            lemma_be_bytes_of_value(z@);
        }
        return z;
    }
    let q: usize = (bits / 8) as usize;
    let r: u8 = (bits % 8) as u8;
    let mut out = [0xffu8; 32];
    let mut i: usize = 0;
    while i < q
        invariant
            0 <= i <= q,
            q < 32,
            out@.len() == 32,
            forall|j: int| 0 <= j < i ==> out@[j] == 0,
            forall|j: int| i <= j < 32 ==> out@[j] == 0xff,
        decreases q - i,
    {
        out[i] = 0;
        i = i + 1;
    }
    let m: u8 = 0xffu8 >> r;
    out[q] = m;
    proof {
        let s = out@;
        let zeros = s.subrange(0, q as int);
        let ones = s.subrange(q + 1, 32);
        let k = (31 - q) as nat;
        assert(s =~= zeros + (seq![m] + ones));
        lemma_be_value_zeros(zeros);
        lemma_be_value_ones(ones);
        lemma_be_value_single(m);
        lemma_be_value_concat(seq![m], ones);
        lemma_be_value_concat(zeros, seq![m] + ones);
        lemma_top_byte(r);
        let pk = pow2(8 * k);
        let pm = pow2((8 - r) as nat);
        assert(be_value(seq![m] + ones) == m * pk + (pk - 1));
        assert(m * pk + (pk - 1) == (m + 1) * pk - 1) by (nonlinear_arith);
        lemma_pow2_adds((8 - r) as nat, 8 * k);
        assert((8 - r) as nat + 8 * k == (256 - bits) as nat);
        lemma_max_shr_value(bits as nat);
        lemma_be_bytes_of_value(s);
    }
    out
}

/// The contract state of one round, from the values read from the chain. The
/// difficulty in bits is four per hex digit, and the target is the largest number
/// shifted right by that many bits.
pub fn status_from_chain(
    hex_zeros: u64,
    total_minted: [u8; 32],
    max_supply: [u8; 32],
    next_mint: [u8; 32],
    wallet_minted: [u8; 32],
    wallet_bal: [u8; 32],
) -> (s: ContractStatus)
    requires
        hex_zeros <= u64::MAX / 4,
    ensures
        s.hex_zeros == hex_zeros,
        s.difficulty_bits == hex_zeros * 4,
        s.total_minted == total_minted,
        s.max_supply == max_supply,
        s.next_mint == next_mint,
        s.wallet_minted == wallet_minted,
        s.wallet_bal == wallet_bal,
        be_value(s.target@) == u256_max_shr((hex_zeros * 4) as nat),
        s.target@ == be_bytes(u256_max_shr((hex_zeros * 4) as nat), 32),
{
    let difficulty_bits = hex_zeros * 4;
    let target = target_for_bits(difficulty_bits);
    ContractStatus {
        hex_zeros,
        difficulty_bits,
        total_minted,
        max_supply,
        next_mint,
        wallet_minted,
        wallet_bal,
        target,
    }
}

/// Whether everything that can be minted has been minted.
pub fn supply_exhausted(s: &ContractStatus) -> (r: bool)
    ensures
        r == (be_value(s.total_minted@) >= be_value(s.max_supply@)),
{
    be32_le(&s.max_supply, &s.total_minted)
}

/// Whether the wallet has minted its whole allowance of 10,000 tokens.
pub fn wallet_cap_reached(s: &ContractStatus) -> (r: bool)
    ensures
        r == (be_value(s.wallet_minted@) >= wallet_cap_wei()),
{
    let cap = be32_from_u128(10_000_000_000_000_000_000_000u128);
    be32_le(&cap, &s.wallet_minted)
}

/// The 256-bit big-endian amount named when the contract is asked what the next mint pays.
pub fn mint_request_amount() -> (a: [u8; 32])
    ensures
        be_value(a@) == mint_request_wei(),
        a@ == be_bytes(mint_request_wei(), 32),
{
    be32_from_u128(1_000_000_000_000_000_000_000u128)
}

/// A 256-bit hash meets the target for `bits` bits of difficulty exactly when its
/// value is below `2^(256 - bits)`, that is when its first `bits` bits are zero.
/// With every bit shifted out, only the zero hash meets it.
pub proof fn lemma_meets_target_iff_leading_zeros(hash: Seq<u8>, bits: nat)
    requires
        hash.len() == 32,
    ensures
        bits < 256 ==> (be_value(hash) <= u256_max_shr(bits) <==> be_value(hash) < pow2(
            (256 - bits) as nat,
        )),
        bits >= 256 ==> (be_value(hash) <= u256_max_shr(bits) <==> be_value(hash) == 0),
{
    if bits < 256 {
        lemma_max_shr_value(bits);
    }
}

/// More difficulty never raises the target.
pub proof fn lemma_target_monotone(bits1: nat, bits2: nat)
    requires
        bits1 <= bits2,
    ensures
        u256_max_shr(bits2) <= u256_max_shr(bits1),
{
    if bits2 < 256 {
        lemma_max_shr_value(bits1);
        lemma_max_shr_value(bits2);
        if bits1 < bits2 {
            lemma_pow2_strictly_increases((256 - bits2) as nat, (256 - bits1) as nat);
        }
    }
}

/// Every target fits in 256 bits, and with no difficulty it is the largest 256-bit number.
pub proof fn lemma_target_range(bits: nat)
    ensures
        u256_max_shr(bits) < pow2(256),
        u256_max_shr(0) + 1 == pow2(256),
{
    lemma_max_shr_value(0);
    lemma_target_monotone(0, bits);
}

} // verus!
