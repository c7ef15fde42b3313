//! The decisions of the GPU search, apart from the device itself.
//!
//! The device kernel compares hashes with the target word by word, so the
//! target is handed to it as four big-endian 64-bit words. Between batches the
//! host reads the kernel's result slot and either stops with the nonce found
//! or moves the window of nonces on by one batch.
use vstd::arithmetic::power2::*;
use vstd::prelude::*;

use crate::uint::{be_value, lemma_be_value_bound, lemma_be_value_concat};

verus! {

/// The target as four 64-bit words, most significant first: word `i` is the
/// big-endian number in bytes `8 * i .. 8 * i + 8`.
pub fn target_words(target: &[u8; 32]) -> (w: [u64; 4])
    ensures
        forall|i: int| 0 <= i < 4 ==> w@[i] == be_value(target@.subrange(8 * i, 8 * i + 8)),
        w@ == split_words(target@),
{
    let mut w = [0u64; 4];
    let mut i: usize = 0;
    while i < 4
        invariant
            0 <= i <= 4,
            w@.len() == 4,
            target@.len() == 32,
            forall|j: int| 0 <= j < i ==> w@[j] == be_value(target@.subrange(8 * j, 8 * j + 8)),
        decreases 4 - i,
    {
        let mut acc: u64 = 0;
        let mut k: usize = 0;
        proof {
            assert(target@.subrange(8 * i, 8 * i + 0) =~= Seq::<u8>::empty());
            assert(be_value(Seq::<u8>::empty()) == 0);
        }
        while k < 8
            invariant
                0 <= k <= 8,
                i < 4,
                target@.len() == 32,
                acc == be_value(target@.subrange(8 * i, 8 * i + k)),
            decreases 8 - k,
        {
            let b = target[8 * i + k];
            proof {
                let s = target@.subrange(8 * i, 8 * i + k);
                lemma_be_value_bound(s);
                lemma_pow2_strictly_increases(8 * k as nat, 64);
                assert(8 * k as nat <= 56);
                if 8 * (k as nat) < 56 {
                    lemma_pow2_strictly_increases(8 * k as nat, 56);
                }
                lemma2_to64_rest();
                assert(acc * 256 + b < 0x1_0000_0000_0000_0000) by (nonlinear_arith)
                    requires
                        acc < pow2(8 * k as nat),
                        pow2(8 * k as nat) <= pow2(56),
                        pow2(56) == 0x100000000000000,
                        b < 256,
                ;
                let s2 = target@.subrange(8 * i, 8 * i + k + 1);
                assert(s2.drop_last() =~= s);
                assert(s2.last() == b);
            }
            acc = acc * 256 + b as u64;
            k = k + 1;
        }
        w[i] = acc;
        i = i + 1;
    }
    assert(w@ =~= split_words(target@));
    w
}

/// Four base-2^64 digits, most significant first, summed by Horner's rule and by powers.
proof fn lemma_four_word_sum(a: int, b: int, c: int, d: int)
    ensures
        ((a * pow2(64) + b) * pow2(64) + c) * pow2(64) + d == a * pow2(192) + b * pow2(128) + c
            * pow2(64) + d,
{
    lemma_pow2_adds(64, 64);
    lemma_pow2_adds(128, 64);
    let p64 = pow2(64);
    assert(((a * p64 + b) * p64 + c) * p64 + d == a * pow2(192) + b * pow2(128) + c * p64 + d)
        by (nonlinear_arith)
        requires
            pow2(128) == p64 * p64,
            pow2(192) == pow2(128) * p64,
    ;
}

/// The four words together denote the target: word 0 is worth `2^192`, word 3 is worth one.
pub proof fn lemma_target_words_value(t: Seq<u8>)
    requires
        t.len() == 32,
    ensures
        be_value(t) == be_value(t.subrange(0, 8)) * pow2(192) + be_value(t.subrange(8, 16)) * pow2(
            128,
        ) + be_value(t.subrange(16, 24)) * pow2(64) + be_value(t.subrange(24, 32)),
{
    let a = t.subrange(0, 8);
    let b = t.subrange(8, 16);
    let c = t.subrange(16, 24);
    let d = t.subrange(24, 32);
    assert(t =~= ((a + b) + c) + d);
    lemma_be_value_concat(a, b);
    lemma_be_value_concat(a + b, c);
    lemma_be_value_concat((a + b) + c, d);
    assert(8 * 8nat == 64);
    lemma_four_word_sum(be_value(a) as int, be_value(b) as int, be_value(c) as int, be_value(d) as int);
}

/// The number that a sequence of 64-bit words denotes, most significant word first.
pub open spec fn words_value(w: Seq<u64>) -> nat
    decreases w.len(),
{
    if w.len() == 0 {
        0
    } else {
        words_value(w.drop_last()) * pow2(64) + w.last() as nat
    }
}

/// The device kernel's comparison of a hash with the target: word by word from the most
/// significant, deciding at the first word that differs, and true where all are equal.
pub open spec fn words_le(a: Seq<u64>, b: Seq<u64>) -> bool
    decreases a.len(),
{
    if a.len() == 0 {
        true
    } else if b.len() == 0 {
        false
    } else if a[0] < b[0] {
        true
    } else if a[0] > b[0] {
        false
    } else {
        words_le(a.drop_first(), b.drop_first())
    }
}

/// The four big-endian words of a 32-byte string, as `target_words` computes them and as
/// the kernel assembles them from a hash.
pub open spec fn split_words(s: Seq<u8>) -> Seq<u64> {
    seq![
        be_value(s.subrange(0, 8)) as u64,
        be_value(s.subrange(8, 16)) as u64,
        be_value(s.subrange(16, 24)) as u64,
        be_value(s.subrange(24, 32)) as u64,
    ]
}

proof fn lemma_words_value_bound(w: Seq<u64>)
    ensures
        words_value(w) < pow2(64 * w.len()),
    decreases w.len(),
{
    if w.len() == 0 {
        lemma2_to64();
    } else {
        let t = w.drop_last();
        lemma_words_value_bound(t);
        let p = pow2(64 * t.len());
        let b = pow2(64);
        lemma_pow2_adds(64 * t.len(), 64);
        assert(64 * w.len() == 64 * t.len() + 64);
        lemma2_to64_rest();
        let v = words_value(t);
        assert(v * b + w.last() < p * b) by (nonlinear_arith)
            requires
                v < p,
                w.last() < b,
        ;
    }
}

proof fn lemma_words_value_front(w: Seq<u64>)
    requires
        w.len() > 0,
    ensures
        words_value(w) == w[0] * pow2(64 * (w.len() - 1) as nat) + words_value(w.drop_first()),
    decreases w.len(),
{
    if w.len() == 1 {
        assert(w.drop_last() =~= Seq::<u64>::empty());
        assert(w.drop_first() =~= Seq::<u64>::empty());
        assert(words_value(Seq::<u64>::empty()) == 0);
        lemma2_to64();
    } else {
        let t = w.drop_last();
        lemma_words_value_front(t);
        assert(t.drop_first() =~= w.drop_first().drop_last());
        assert(w.drop_first().last() == w.last());
        let n = (w.len() - 2) as nat;
        let p = pow2(64 * n);
        let b = pow2(64);
        lemma_pow2_adds(64 * n, 64);
        assert(64 * (w.len() - 1) as nat == 64 * n + 64);
        let r = words_value(t.drop_first());
        let x = w[0] as int;
        assert((x * p + r) * b + w.last() == x * (p * b) + (r * b + w.last()))
            by (nonlinear_arith);
    }
}

/// The kernel's word-by-word comparison orders word sequences as the numbers they denote.
pub proof fn lemma_words_le_is_numeric(a: Seq<u64>, b: Seq<u64>)
    requires
        a.len() == b.len(),
    ensures
        words_le(a, b) <==> words_value(a) <= words_value(b),
    decreases a.len(),
{
    if a.len() > 0 {
        let n = (a.len() - 1) as nat;
        let ra = a.drop_first();
        let rb = b.drop_first();
        lemma_words_value_front(a);
        lemma_words_value_front(b);
        lemma_words_value_bound(ra);
        lemma_words_value_bound(rb);
        lemma_words_le_is_numeric(ra, rb);
        let p = pow2(64 * n);
        let va = words_value(ra);
        let vb = words_value(rb);
        let x = a[0] as int;
        let y = b[0] as int;
        if x < y {
            assert(x * p + va < y * p + vb) by (nonlinear_arith)
                requires
                    x + 1 <= y,
                    va < p,
                    vb >= 0,
            ;
        } else if x > y {
            assert(y * p + vb < x * p + va) by (nonlinear_arith)
                requires
                    y + 1 <= x,
                    vb < p,
                    va >= 0,
            ;
        }
    }
}

/// The four words of a 32-byte string denote the same number as its bytes.
pub proof fn lemma_split_words_value(s: Seq<u8>)
    requires
        s.len() == 32,
    ensures
        words_value(split_words(s)) == be_value(s),
{
    let w = split_words(s);
    lemma_target_words_value(s);
    lemma2_to64_rest();
    assert(8 * 8nat == 64);
    lemma_be_value_bound(s.subrange(0, 8));
    lemma_be_value_bound(s.subrange(8, 16));
    lemma_be_value_bound(s.subrange(16, 24));
    lemma_be_value_bound(s.subrange(24, 32));
    let w1 = w.drop_last();
    let w2 = w1.drop_last();
    let w3 = w2.drop_last();
    assert(w3.drop_last() =~= Seq::<u64>::empty());
    assert(words_value(Seq::<u64>::empty()) == 0);
    let p64 = pow2(64);
    assert(w[0] as nat == be_value(s.subrange(0, 8)));
    assert(w[1] as nat == be_value(s.subrange(8, 16)));
    assert(w[2] as nat == be_value(s.subrange(16, 24)));
    assert(w[3] as nat == be_value(s.subrange(24, 32)));
    assert(words_value(w3) == 0 * p64 + w[0]);
    assert(words_value(w2) == words_value(w3) * p64 + w[1]);
    assert(words_value(w1) == words_value(w2) * p64 + w[2]);
    assert(words_value(w) == words_value(w1) * p64 + w[3]);
    lemma_four_word_sum(w[0] as int, w[1] as int, w[2] as int, w[3] as int);
}

/// A hash passes the kernel's comparison with the target's words exactly when its value is
/// at most the target's: the device accepts the same nonces as the CPU search.
pub proof fn lemma_kernel_compare_is_numeric(hash: Seq<u8>, target: Seq<u8>)
    requires
        hash.len() == 32,
        target.len() == 32,
    ensures
        words_le(split_words(hash), split_words(target)) <==> be_value(hash) <= be_value(target),
{
    lemma_split_words_value(hash);
    lemma_split_words_value(target);
    lemma_words_le_is_numeric(split_words(hash), split_words(target));
}

/// The host's view of a GPU search: where the next batch starts, how many nonces have
/// been dispatched so far, and how many each batch covers.
pub struct GpuSearch {
    pub nonce_base: u64,
    pub total: u64,
    pub batch_size: u64,
}

/// What the host does after a batch has run.
pub enum GpuStep {
    /// The kernel reported this nonce; the search is over.
    Found { nonce: u64 },
    /// Nothing found; dispatch the next batch from this nonce.
    Continue { nonce_base: u64 },
}

impl GpuSearch {
    /// A search that starts at nonce zero.
    pub fn new(batch_size: u64) -> (s: Self)
        ensures
            s.nonce_base == 0,
            s.total == 0,
            s.batch_size == batch_size,
    {
        GpuSearch { nonce_base: 0, total: 0, batch_size }
    }

    /// Takes the kernel's result slot after a batch (`flag` is 1 where a nonce was found,
    /// and `found_nonce` is that nonce). Every batch adds its size to the count of nonces
    /// dispatched; without a find, the window moves on by one batch, wrapping at 2^64.
    pub fn after_batch(&mut self, flag: u64, found_nonce: u64) -> (step: GpuStep)
        requires
            old(self).total + old(self).batch_size <= u64::MAX,
        ensures
            final(self).total == old(self).total + old(self).batch_size,
            final(self).batch_size == old(self).batch_size,
            flag == 1 ==> step == (GpuStep::Found { nonce: found_nonce }),
            flag == 1 ==> final(self).nonce_base == old(self).nonce_base,
            flag != 1 ==> final(self).nonce_base == (old(self).nonce_base + old(self).batch_size)
                % 0x1_0000_0000_0000_0000,
            flag != 1 ==> step == (GpuStep::Continue { nonce_base: final(self).nonce_base }),
    {
        self.total = self.total + self.batch_size;
        if flag == 1 {
            GpuStep::Found { nonce: found_nonce }
        } else {
            self.nonce_base = self.nonce_base.wrapping_add(self.batch_size);
            GpuStep::Continue { nonce_base: self.nonce_base }
        }
    }
}

} // verus!
