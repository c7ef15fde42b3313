//! Unsigned integers held as big-endian byte strings.
//!
//! Hashes, difficulty targets and token amounts are all 256-bit unsigned
//! integers written most significant byte first. This module gives such a
//! byte string its value (`be_value`), the encoding of a number into bytes
//! (`be_bytes`), and proves that the lexicographic order on equal-length
//! byte strings is the numeric order of their values.
use vstd::arithmetic::div_mod::*;
use vstd::arithmetic::mul::*;
use vstd::arithmetic::power2::*;
use vstd::prelude::*;

verus! {

/// The number that a big-endian byte string denotes.
pub open spec fn be_value(s: Seq<u8>) -> nat
    decreases s.len(),
{
    if s.len() == 0 {
        0
    } else {
        be_value(s.drop_last()) * 256 + s.last() as nat
    }
}

/// The `n`-byte big-endian encoding of `x` (of `x` modulo `256^n` where `x` does not fit).
pub open spec fn be_bytes(x: nat, n: nat) -> Seq<u8>
    decreases n,
{
    if n == 0 {
        Seq::empty()
    } else {
        be_bytes(x / 256, (n - 1) as nat).push((x % 256) as u8)
    }
}

/// Lexicographic order on byte strings, the order of `<=` on byte arrays and slices.
pub open spec fn lex_le(a: Seq<u8>, b: Seq<u8>) -> bool
    decreases a.len(),
{
    if a.len() == 0 {
        true
    } else if b.len() == 0 {
        false
    } else if a[0] < b[0] {
        true
    } else if a[0] > b[0] {
        false
    } else {
        lex_le(a.drop_first(), b.drop_first())
    }
}

/// `256^(n+1) == 256^n * 256`, written with powers of two.
pub proof fn lemma_pow256_step(n: nat)
    ensures
        pow2(8 * (n + 1)) == pow2(8 * n) * 256,
        pow2(8 * n) > 0,
{
    lemma_pow2_adds(8 * n, 8);
    lemma2_to64();
    lemma_pow2_pos(8 * n);
    assert(8 * (n + 1) == 8 * n + 8);
}

/// A string of `n` bytes denotes a number below `256^n`.
pub proof fn lemma_be_value_bound(s: Seq<u8>)
    ensures
        be_value(s) < pow2(8 * s.len()),
    decreases s.len(),
{
    if s.len() == 0 {
        lemma2_to64();
    } else {
        let t = s.drop_last();
        lemma_be_value_bound(t);
        lemma_pow256_step(t.len());
        let p = pow2(8 * t.len());
        let v = be_value(t);
        assert(v * 256 + s.last() < p * 256) by (nonlinear_arith)
            requires
                v < p,
                s.last() < 256,
        ;
        assert(8 * s.len() == 8 * (t.len() + 1));
    }
}

/// The value of a single byte is the byte.
pub proof fn lemma_be_value_single(b: u8)
    ensures
        be_value(seq![b]) == b,
{
    assert(seq![b].drop_last() =~= Seq::<u8>::empty());
    assert(be_value(Seq::<u8>::empty()) == 0);
    assert(seq![b].last() == b);
}

/// The value of a concatenation: the front string is shifted by the length of the back one.
pub proof fn lemma_be_value_concat(a: Seq<u8>, b: Seq<u8>)
    ensures
        be_value(a + b) == be_value(a) * pow2(8 * b.len()) + be_value(b),
    decreases b.len(),
{
    if b.len() == 0 {
        assert(a + b =~= a);
        lemma2_to64();
        assert(pow2(8 * b.len()) == 1);
        assert(be_value(b) == 0);
    } else {
        let b0 = b.drop_last();
        lemma_be_value_concat(a, b0);
        assert((a + b).drop_last() =~= a + b0);
        assert((a + b).last() == b.last());
        lemma_pow256_step(b0.len());
        let p = pow2(8 * b0.len());
        let va = be_value(a);
        let vb0 = be_value(b0);
        assert((va * p + vb0) * 256 + b.last() == va * (p * 256) + (vb0 * 256 + b.last()))
            by (nonlinear_arith);
        assert(8 * b.len() == 8 * (b0.len() + 1));
    }
}

/// Splitting off the most significant byte.
pub proof fn lemma_be_value_front(s: Seq<u8>)
    requires
        s.len() > 0,
    ensures
        be_value(s) == s[0] * pow2(8 * (s.len() - 1) as nat) + be_value(s.drop_first()),
{
    assert(s =~= seq![s[0]] + s.drop_first());
    lemma_be_value_concat(seq![s[0]], s.drop_first());
    lemma_be_value_single(s[0]);
}

/// A string of zero bytes denotes zero.
pub proof fn lemma_be_value_zeros(s: Seq<u8>)
    requires
        forall|i: int| 0 <= i < s.len() ==> s[i] == 0,
    ensures
        be_value(s) == 0,
    decreases s.len(),
{
    if s.len() > 0 {
        lemma_be_value_zeros(s.drop_last());
    }
}

/// A string of `n` bytes `0xff` denotes `256^n - 1`.
pub proof fn lemma_be_value_ones(s: Seq<u8>)
    requires
        forall|i: int| 0 <= i < s.len() ==> s[i] == 0xff,
    ensures
        be_value(s) + 1 == pow2(8 * s.len()),
    decreases s.len(),
{
    if s.len() == 0 {
        lemma2_to64();
    } else {
        let t = s.drop_last();
        lemma_be_value_ones(t);
        lemma_pow256_step(t.len());
        assert(8 * s.len() == 8 * (t.len() + 1));
    }
}

/// The encoding has the requested length and denotes the number modulo `256^n`.
pub proof fn lemma_be_bytes(x: nat, n: nat)
    ensures
        be_bytes(x, n).len() == n,
        be_value(be_bytes(x, n)) == x % pow2(8 * n),
    decreases n,
{
    if n == 0 {
        lemma2_to64();
    } else {
        let m = (n - 1) as nat;
        lemma_be_bytes(x / 256, m);
        let s = be_bytes(x, n);
        assert(s.drop_last() =~= be_bytes(x / 256, m));
        lemma_pow256_step(m);
        let p = pow2(8 * m);
        lemma_mod_breakdown(x as int, 256, p as int);
        lemma_mul_is_commutative(256, p as int);
        assert(8 * n == 8 * (m + 1));
    }
}

/// A byte string is the encoding of its own value: the encoding is the only one of its length.
pub proof fn lemma_be_bytes_of_value(s: Seq<u8>)
    ensures
        s == be_bytes(be_value(s), s.len()),
    decreases s.len(),
{
    if s.len() > 0 {
        let t = s.drop_last();
        lemma_be_bytes_of_value(t);
        let v = be_value(s);
        lemma_fundamental_div_mod_converse(v as int, 256, be_value(t) as int, s.last() as int);
        assert(s =~= be_bytes(v, s.len()));
    }
}

/// The values of two strings of one length are ordered as the strings are, byte by byte.
pub proof fn lemma_lex_le_is_numeric(a: Seq<u8>, b: Seq<u8>)
    requires
        a.len() == b.len(),
    ensures
        lex_le(a, b) <==> be_value(a) <= be_value(b),
    decreases a.len(),
{
    if a.len() > 0 {
        let n = (a.len() - 1) as nat;
        let ra = a.drop_first();
        let rb = b.drop_first();
        lemma_be_value_front(a);
        lemma_be_value_front(b);
        lemma_be_value_bound(ra);
        lemma_be_value_bound(rb);
        lemma_lex_le_is_numeric(ra, rb);
        let p = pow2(8 * n);
        let va = be_value(ra);
        let vb = be_value(rb);
        let x = a[0] as int;
        let y = b[0] as int;
        if x < y {
            assert(x * p + va < y * p + vb) by (nonlinear_arith)
                requires
                    x + 1 <= y,
                    va < p,
                    vb >= 0,
            ;
        } else if x > y {
            assert(y * p + vb < x * p + va) by (nonlinear_arith)
                requires
                    y + 1 <= x,
                    vb < p,
                    va >= 0,
            ;
        }
    }
}

/// One step of writing a number's bytes from the least significant end: where `tail`
/// holds the low bytes of `x` and `v` what is left of it, putting `v % 256` in front of
/// `tail` and keeping `v / 256` still accounts for all of `x`.
pub proof fn lemma_write_low_byte(tail: Seq<u8>, v: nat, x: nat)
    requires
        be_value(tail) + v * pow2(8 * tail.len()) == x,
    ensures
        be_value(seq![(v % 256) as u8] + tail) + (v / 256) * pow2(8 * (tail.len() + 1)) == x,
{
    let byte = (v % 256) as u8;
    let q = v / 256;
    lemma_be_value_concat(seq![byte], tail);
    lemma_be_value_single(byte);
    lemma_pow256_step(tail.len());
    let p = pow2(8 * tail.len());
    lemma_fundamental_div_mod(v as int, 256);
    assert(v * p == (q * 256 + byte) * p);
    assert((q * 256 + byte) * p == q * (p * 256) + byte * p) by (nonlinear_arith);
}

/// Whether the 32-byte big-endian number `a` is at most `b`.
pub fn be32_le(a: &[u8; 32], b: &[u8; 32]) -> (r: bool)
    ensures
        r == lex_le(a@, b@),
        r == (be_value(a@) <= be_value(b@)),
{
    proof {
        lemma_lex_le_is_numeric(a@, b@);
        assert(a@.skip(0) =~= a@);
        assert(b@.skip(0) =~= b@);
    }
    let mut i: usize = 0;
    while i < 32
        invariant
            0 <= i <= 32,
            a@.len() == 32,
            b@.len() == 32,
            lex_le(a@, b@) == lex_le(a@.skip(i as int), b@.skip(i as int)),
            lex_le(a@, b@) == (be_value(a@) <= be_value(b@)),
        decreases 32 - i,
    {
        let x = a[i];
        let y = b[i];
        assert(a@.skip(i as int)[0] == x);
        assert(b@.skip(i as int)[0] == y);
        if x < y {
            return true;
        }
        if x > y {
            return false;
        }
        assert(a@.skip(i as int).drop_first() =~= a@.skip(i + 1));
        assert(b@.skip(i as int).drop_first() =~= b@.skip(i + 1));
        i = i + 1;
    }
    assert(a@.skip(32) =~= Seq::<u8>::empty());
    true
}

/// The 32-byte big-endian encoding of a 128-bit number.
pub fn be32_from_u128(x: u128) -> (r: [u8; 32])
    ensures
        r@ == be_bytes(x as nat, 32),
        be_value(r@) == x,
{
    let mut out = [0u8; 32];
    let mut v: u128 = x;
    let mut j: usize = 0;
    proof {
        lemma2_to64();
        assert(out@.subrange(32, 32) =~= Seq::<u8>::empty());
        assert(be_value(out@.subrange(32, 32)) == 0);
        assert(pow2(8 * 0nat) == 1);
        assert(v * pow2(8 * 0nat) == x);
    }
    while j < 32
        invariant
            0 <= j <= 32,
            out@.len() == 32,
            be_value(out@.subrange(32 - j, 32)) + v * pow2(8 * j as nat) == x,
        decreases 32 - j,
    {
        let k: usize = 31 - j;
        let byte: u8 = (v % 256) as u8;
        let ghost old_out = out@;
        let ghost old_v = v;
        out[k] = byte;
        v = v / 256;
        proof {
            let tail = old_out.subrange(32 - j, 32);
            assert(out@.subrange(31 - j, 32) =~= seq![byte] + tail);
            lemma_write_low_byte(tail, old_v as nat, x as nat);
            assert(8 * (j + 1) as nat == 8 * (tail.len() + 1));
        }
        j = j + 1;
    }
    proof {
        assert(out@.subrange(0, 32) =~= out@);
        lemma_be_value_bound(out@);
        lemma_pow2_strictly_increases(128, 256);
        assert(x < pow2(128)) by {
            lemma2_to64_rest();
            lemma_pow2_adds(64, 64);
        }
        if v > 0 {
            assert(v * pow2(256) >= pow2(256)) by (nonlinear_arith)
                requires v >= 1, pow2(256) >= 0;
        }
        lemma_be_bytes_of_value(out@);
    }
    out
}

} // verus!
