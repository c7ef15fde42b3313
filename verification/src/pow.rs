//! The proof-of-work puzzle: find a nonce such that
//! `keccak256(challenge[32] ++ nonce_be[32]) <= target`, both sides read as
//! 256-bit big-endian numbers.
//!
//! The search itself is split in chunks of consecutive nonces; the functions
//! here search one chunk and recompute the hash of a winning nonce, and the
//! caller hands chunks out to threads.
use tiny_keccak::{Hasher, Keccak};
use vstd::arithmetic::div_mod::*;
use vstd::arithmetic::power2::*;
use vstd::prelude::*;

use crate::hexfmt::{hex_encode, hex_lower};
use crate::uint::{
    be32_le,
    be_bytes,
    be_value,
    lemma_be_bytes,
    lemma_be_bytes_of_value,
    lemma_be_value_bound,
    lemma_be_value_concat,
    lemma_be_value_zeros,
    lemma_write_low_byte,
    lex_le,
};

verus! {

/// Nonces per task of the CPU search.
pub const CPU_CHUNK: u64 = 1_048_576;

/// Nonces per task of the CPU benchmark.
pub const BENCH_CHUNK: u64 = 65_536;

/// The Keccak-256 digest (Keccak padding, as Ethereum uses it, not SHA3-256) of a byte string.
pub uninterp spec fn keccak256(data: Seq<u8>) -> Seq<u8>;

/// `tiny_keccak::Keccak::v256`, fed the whole buffer with `update` and read out with
/// `finalize` into 32 bytes: the Keccak-256 digest of the buffer. Nothing is stated of
/// the digest beyond its being a function of the buffer.
#[verifier::external_body]
fn keccak256_64(buf: &[u8; 64]) -> (out: [u8; 32])
    ensures
        out@ == keccak256(buf@),
{
    let mut k = Keccak::v256();
    k.update(buf);
    let mut out = [0u8; 32];
    k.finalize(&mut out);
    out
}

/// The 64 bytes that are hashed for `nonce`: the challenge, then the nonce as a
/// 256-bit big-endian number.
pub open spec fn pow_preimage(challenge: Seq<u8>, nonce: u64) -> Seq<u8> {
    challenge + be_bytes(nonce as nat, 32)
}

/// The hash of `nonce` under `challenge`.
pub open spec fn pow_digest(challenge: Seq<u8>, nonce: u64) -> Seq<u8> {
    keccak256(pow_preimage(challenge, nonce))
}

/// Whether `nonce` solves the puzzle: its hash, as a number, is at most the target.
pub open spec fn meets_target(challenge: Seq<u8>, target: Seq<u8>, nonce: u64) -> bool {
    be_value(pow_digest(challenge, nonce)) <= be_value(target)
}

/// The end of the range of nonces `base..base.wrapping_add(count)`.
pub open spec fn chunk_end(base: u64, count: u64) -> nat {
    ((base + count) % 0x1_0000_0000_0000_0000) as nat
}

/// The 24 zero bytes and the 8-byte big-endian nonce that the buffer holds after the
/// challenge are the nonce as a 256-bit big-endian number.
pub proof fn lemma_nonce_word(nonce: u64)
    ensures
        Seq::new(24, |i: int| 0u8) + be_bytes(nonce as nat, 8) == be_bytes(nonce as nat, 32),
        be_value(be_bytes(nonce as nat, 32)) == nonce,
{
    let z = Seq::new(24, |i: int| 0u8);
    let w = be_bytes(nonce as nat, 8);
    let s = z + w;
    lemma_be_bytes(nonce as nat, 8);
    lemma_be_value_zeros(z);
    lemma_be_value_concat(z, w);
    lemma2_to64_rest();
    assert(8 * 8nat == 64);
    lemma_small_mod(nonce as nat, pow2(64));
    assert(be_value(s) == nonce);
    lemma_be_bytes_of_value(s);
    lemma_be_bytes(nonce as nat, 32);
    lemma_pow2_strictly_increases(64, 256);
    assert(8 * 32nat == 256);
    lemma_small_mod(nonce as nat, pow2(256));
}

/// Writes `nonce` as a big-endian 64-bit number into bytes 56..64 of the buffer.
pub fn set_nonce(buf: &mut [u8; 64], nonce: u64)
    ensures
        final(buf)@ == old(buf)@.subrange(0, 56) + be_bytes(nonce as nat, 8),
{
    let ghost orig = buf@;
    let mut v: u64 = nonce;
    let mut j: usize = 0;
    proof {
        lemma2_to64();
        assert(buf@.subrange(64, 64) =~= Seq::<u8>::empty());
        assert(be_value(buf@.subrange(64, 64)) == 0);
        assert(pow2(8 * 0nat) == 1);
        assert(v * pow2(8 * 0nat) == nonce);
    }
    while j < 8
        invariant
            0 <= j <= 8,
            buf@.len() == 64,
            orig.len() == 64,
            buf@.subrange(0, 56) == orig.subrange(0, 56),
            be_value(buf@.subrange(64 - j, 64)) + v * pow2(8 * j as nat) == nonce,
        decreases 8 - j,
    {
        let k: usize = 63 - j;
        let byte: u8 = (v % 256) as u8;
        let ghost old_buf = buf@;
        let ghost old_v = v;
        buf[k] = byte;
        v = v / 256;
        proof {
            let tail = old_buf.subrange(64 - j, 64);
            assert(buf@.subrange(63 - j, 64) =~= seq![byte] + tail);
            assert(buf@.subrange(0, 56) =~= old_buf.subrange(0, 56));
            lemma_write_low_byte(tail, old_v as nat, nonce as nat);
            assert(8 * (j + 1) as nat == 8 * (tail.len() + 1));
        }
        j = j + 1;
    }
    proof {
        let w = buf@.subrange(56, 64);
        lemma_be_value_bound(w);
        assert(8 * 8nat == 64);
        lemma2_to64_rest();
        if v > 0 {
            assert(v * pow2(64) >= pow2(64)) by (nonlinear_arith)
                requires
                    v >= 1,
            ;
        }
        lemma_be_bytes_of_value(w);
        assert(buf@ =~= buf@.subrange(0, 56) + w);
    }
}

/// A fresh 64-byte buffer: the challenge followed by 32 zero bytes.
fn pow_buffer(challenge: &[u8; 32]) -> (buf: [u8; 64])
    ensures
        buf@.subrange(0, 56) == challenge@ + Seq::new(24, |i: int| 0u8),
{
    let mut buf = [0u8; 64];
    let mut i: usize = 0;
    while i < 32
        invariant
            0 <= i <= 32,
            buf@.len() == 64,
            challenge@.len() == 32,
            forall|j: int| 0 <= j < i ==> buf@[j] == challenge@[j],
            forall|j: int| 32 <= j < 64 ==> buf@[j] == 0,
        decreases 32 - i,
    {
        buf[i] = challenge[i];
        i = i + 1;
    }
    assert(buf@.subrange(0, 56) =~= challenge@ + Seq::new(24, |i: int| 0u8));
    buf
}

/// Hashing the buffer after the nonce is written hashes the preimage of that nonce.
proof fn lemma_buffer_is_preimage(challenge: Seq<u8>, buf: Seq<u8>, nonce: u64)
    requires
        challenge.len() == 32,
        buf == (challenge + Seq::new(24, |i: int| 0u8)) + be_bytes(nonce as nat, 8),
    ensures
        buf == pow_preimage(challenge, nonce),
{
    lemma_nonce_word(nonce);
    assert(buf =~= challenge + (Seq::new(24, |i: int| 0u8) + be_bytes(nonce as nat, 8)));
}

/// Whether a hash, read as a 256-bit big-endian number, is at most the target. This is
/// the order of `<=` on the two byte arrays.
pub fn hash_le_target(hash: &[u8; 32], target: &[u8; 32]) -> (r: bool)
    ensures
        r == (be_value(hash@) <= be_value(target@)),
        r == lex_le(hash@, target@),
{
    be32_le(hash, target)
}

/// The hash of `nonce` under `challenge`.
pub fn pow_hash(challenge: &[u8; 32], nonce: u64) -> (h: [u8; 32])
    ensures
        h@ == pow_digest(challenge@, nonce),
{
    let mut buf = pow_buffer(challenge);
    set_nonce(&mut buf, nonce);
    proof {
        lemma_buffer_is_preimage(challenge@, buf@, nonce);
    }
    keccak256_64(&buf)
}

/// Searches the nonces `base..base.wrapping_add(count)` in order, and returns the first
/// one whose hash meets the target, if any does. The range is empty where the end wraps
/// below `base`.
pub fn search_chunk(challenge: &[u8; 32], target: &[u8; 32], base: u64, count: u64) -> (r: Option<u64>)
    ensures
        match r {
            Some(n) => {
                &&& base <= n < chunk_end(base, count)
                &&& meets_target(challenge@, target@, n)
                &&& forall|m: u64| base <= m < n ==> !meets_target(challenge@, target@, m)
            },
            None => forall|m: u64| base <= m < chunk_end(base, count) ==> !meets_target(challenge@, target@, m),
        },
{
    let end = base.wrapping_add(count);
    assert(end == chunk_end(base, count));
    let mut buf = pow_buffer(challenge);
    let ghost head = buf@.subrange(0, 56);
    let mut nonce: u64 = base;
    while nonce < end
        invariant
            base <= nonce,
            end == chunk_end(base, count),
            nonce <= end || end < base,
            buf@.len() == 64,
            challenge@.len() == 32,
            head == challenge@ + Seq::new(24, |i: int| 0u8),
            buf@.subrange(0, 56) == head,
            forall|m: u64| base <= m < nonce ==> !meets_target(challenge@, target@, m),
        decreases end - nonce,
    {
        set_nonce(&mut buf, nonce);
        proof {
            assert(buf@.subrange(0, 56) =~= head);
            lemma_buffer_is_preimage(challenge@, buf@, nonce);
        }
        let hash = keccak256_64(&buf);
        if hash_le_target(&hash, target) {
            return Some(nonce);
        }
        nonce = nonce + 1;
    }
    None
}

/// Hashes the nonces `base..base.wrapping_add(count)` and returns how many were hashed;
/// the hashes are thrown away (this measures speed).
pub fn hash_range(challenge: &[u8; 32], base: u64, count: u64) -> (n: u64)
    ensures
        n == (if chunk_end(base, count) >= base { chunk_end(base, count) - base } else { 0 }),
{
    let end = base.wrapping_add(count);
    assert(end == chunk_end(base, count));
    let mut buf = pow_buffer(challenge);
    let mut nonce: u64 = base;
    let mut hashed: u64 = 0;
    while nonce < end
        invariant
            base <= nonce,
            nonce <= end || end < base,
            end == chunk_end(base, count),
            end < base ==> nonce == base,
            buf@.len() == 64,
            hashed == nonce - base,
        decreases end - nonce,
    {
        set_nonce(&mut buf, nonce);
        let _ = keccak256_64(&buf);
        nonce = nonce + 1;
        hashed = hashed + 1;
    }
    hashed
}

/// The first nonce of the task `chunk_id` when tasks cover `chunk` nonces each:
/// `chunk_id * chunk`, wrapping at 2^64.
pub fn chunk_base(chunk_id: u64, chunk: u64) -> (b: u64)
    ensures
        b == (chunk_id * chunk) % 0x1_0000_0000_0000_0000,
{
    chunk_id.wrapping_mul(chunk)
}

/// Whether the CPU search reports its progress after `total` hashes: once per
/// `5 * CPU_CHUNK * n_threads` hashes, in the chunk that crosses the mark.
pub fn progress_due(total: u64, n_threads: u64) -> (r: bool)
    requires
        n_threads >= 1,
        5 * CPU_CHUNK * n_threads <= u64::MAX,
    ensures
        r == (total as int % (5 * CPU_CHUNK * n_threads) < CPU_CHUNK),
{
    let period = 5 * CPU_CHUNK * n_threads;
    assert(period >= 1) by (nonlinear_arith)
        requires
            period == 5 * CPU_CHUNK * n_threads,
            CPU_CHUNK == 1_048_576,
            n_threads >= 1,
    ;
    total % period < CPU_CHUNK
}

/// `num_cpus::get`: the number of logical CPUs this process may use. Its
/// documentation promises at least one; the count itself depends on the machine.
#[verifier::external_body]
fn logical_cpus() -> (n: usize)
    ensures
        n >= 1,
{
    num_cpus::get()
}

/// The number of CPU threads to search with: the number asked for, or every logical
/// CPU when zero is asked for.
pub fn effective_threads(threads: usize) -> (n: usize)
    ensures
        threads != 0 ==> n == threads,
        n >= 1,
{
    if threads == 0 {
        logical_cpus()
    } else {
        threads
    }
}

/// A solution found by the search: the nonce and its hash.
pub struct PowResult {
    pub nonce: u64,
    pub hash: [u8; 32],
}

impl PowResult {
    /// The hash as lowercase hex.
    pub fn hash_hex(&self) -> (text: String)
        ensures
            text@ == hex_lower(self.hash@),
    {
        hex_encode(&self.hash)
    }
}

/// The result for a winning nonce, with its hash computed afresh.
pub fn solution_for(challenge: &[u8; 32], nonce: u64) -> (r: PowResult)
    ensures
        r.nonce == nonce,
        r.hash@ == pow_digest(challenge@, nonce),
{
    let hash = pow_hash(challenge, nonce);
    PowResult { nonce, hash }
}

} // verus!
