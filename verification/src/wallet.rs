//! The wallet file: what it holds, how a new one is filled in, and how the
//! private key is read back out of it.
use vstd::prelude::*;

use crate::hexfmt::{hex_digit, hex_encode, hex_lower, lemma_hex_lower_index, lemma_hex_lower_len};
use crate::signer::{hex32, hex_value, is_secret_scalar, key_address, secret_key_address, strip_one_0x};

verus! {

/// The note written into every new wallet file.
pub const WALLET_NOTE: &'static str = "PFFT miner wallet — JAGA KERAHASIAANNYA!";

/// The contents of a wallet file.
pub struct WalletFile {
    pub address: String,
    pub private_key_hex: String,
    pub created: String,
    pub note: String,
}

/// A string with every leading `"0x"` taken off, as `str::trim_start_matches("0x")` does.
pub open spec fn strip_0x(s: Seq<char>) -> Seq<char>
    decreases s.len(),
{
    if s.len() >= 2 && s[0] == '0' && s[1] == 'x' {
        strip_0x(s.skip(2))
    } else {
        s
    }
}

/// `s` with every leading `"0x"` taken off.
pub fn trim_hex_prefix(s: &str) -> (t: String)
    ensures
        t@ == strip_0x(s@),
{
    let n = s.unicode_len();
    let mut i: usize = 0;
    proof {
        assert(s@.skip(0) =~= s@);
    }
    while n - i >= 2 && s.get_char(i) == '0' && s.get_char(i + 1) == 'x'
        invariant
            n == s@.len(),
            i <= n,
            strip_0x(s@) == strip_0x(s@.skip(i as int)),
        decreases n - i,
    {
        proof {
            let r = s@.skip(i as int);
            assert(r[0] == '0' && r[1] == 'x');
            assert(r.skip(2) =~= s@.skip(i + 2));
        }
        i = i + 2;
    }
    proof {
        let r = s@.skip(i as int);
        if r.len() >= 2 {
            assert(r[0] == s@[i as int] && r[1] == s@[i + 1]);
        }
        assert(s@.subrange(i as int, n as int) =~= r);
    }
    String::from_str(s.substring_char(i, n))
}

/// The private key of a wallet file as hex, without a leading `"0x"`.
pub fn wallet_private_key(wf: &WalletFile) -> (key: String)
    ensures
        key@ == strip_0x(wf.private_key_hex@),
{
    trim_hex_prefix(wf.private_key_hex.as_str())
}

/// The wallet file for a new key: the address the key signs for (`0x` and lowercase hex,
/// as alloy's `Debug` writes an address), the key's bytes as lowercase hex, the time of
/// creation, and the standard note.
pub fn new_wallet_file(key: &[u8; 32], created: String) -> (wf: WalletFile)
    requires
        is_secret_scalar(key@),
    ensures
        wf.address@ == seq!['0', 'x'] + hex_lower(secret_key_address(key@)),
        wf.private_key_hex@ == hex_lower(key@),
        wf.created == created,
        wf.note@ == WALLET_NOTE@,
{
    let address_bytes = key_address(key);
    let mut address = String::from_str("0x");
    proof {
        reveal_strlit("0x");
    }
    let address_hex = hex_encode(&address_bytes);
    address.append(address_hex.as_str());
    let private_key_hex = hex_encode(key);
    let note = String::from_str(WALLET_NOTE);
    WalletFile { address, private_key_hex, created, note }
}

/// Taking the prefix off twice takes off no more than once.
pub proof fn lemma_strip_0x_idempotent(s: Seq<char>)
    ensures
        strip_0x(strip_0x(s)) == strip_0x(s),
    decreases s.len(),
{
    if s.len() >= 2 && s[0] == '0' && s[1] == 'x' {
        lemma_strip_0x_idempotent(s.skip(2));
    }
}

/// `"0x"` written `k` times.
pub open spec fn repeat_0x(k: nat) -> Seq<char>
    decreases k,
{
    if k == 0 {
        Seq::empty()
    } else {
        seq!['0', 'x'] + repeat_0x((k - 1) as nat)
    }
}

/// What is left does not start with `"0x"`, and the string is a run of `"0x"`s followed
/// by what is left.
pub proof fn lemma_strip_0x_shape(s: Seq<char>)
    ensures
        !(strip_0x(s).len() >= 2 && strip_0x(s)[0] == '0' && strip_0x(s)[1] == 'x'),
        exists|k: nat| s == #[trigger] repeat_0x(k) + strip_0x(s),
    decreases s.len(),
{
    if s.len() >= 2 && s[0] == '0' && s[1] == 'x' {
        let r = s.skip(2);
        lemma_strip_0x_shape(r);
        let k = choose|k: nat| r == #[trigger] repeat_0x(k) + strip_0x(r);
        assert(repeat_0x(k + 1) == seq!['0', 'x'] + repeat_0x(k));
        assert(s =~= seq!['0', 'x'] + r);
        assert(strip_0x(s) == strip_0x(r));
        assert(seq!['0', 'x'] + (repeat_0x(k) + strip_0x(r)) =~= (seq!['0', 'x'] + repeat_0x(k))
            + strip_0x(r));
        assert(s =~= repeat_0x(k + 1) + strip_0x(s));
    } else {
        assert(s =~= repeat_0x(0) + strip_0x(s));
    }
}

/// A hex digit is neither `x` nor `X`, and it reads back as the number it writes.
proof fn lemma_hex_digit(n: nat)
    requires
        n < 16,
    ensures
        hex_digit(n) != 'x',
        hex_digit(n) != 'X',
        hex_value(hex_digit(n)) == n,
{
    let d = seq!['0', '1', '2', '3', '4', '5', '6', '7', '8', '9', 'a', 'b', 'c', 'd', 'e', 'f'];
    assert(hex_digit(n) == d[n as int]);
    if n < 10 {
        assert(d[n as int] as u32 == 48 + n) by {
            if n == 0 { } else if n == 1 { } else if n == 2 { } else if n == 3 { } else if n == 4 {
            } else if n == 5 { } else if n == 6 { } else if n == 7 { } else if n == 8 { } else { }
        }
    } else {
        assert(d[n as int] as u32 == 87 + n) by {
            if n == 10 { } else if n == 11 { } else if n == 12 { } else if n == 13 { } else if n
                == 14 { } else { }
        }
    }
}

/// The key read back from a new wallet file is the key written: lowercase hex never starts
/// with `0x`, so nothing is trimmed, and its 64 digits parse back to the 32 bytes.
pub proof fn lemma_wallet_key_round_trip(key: Seq<u8>)
    requires
        key.len() == 32,
    ensures
        strip_0x(hex_lower(key)) == hex_lower(key),
        hex32(strip_0x(hex_lower(key))) == Some(key),
{
    let h = hex_lower(key);
    lemma_hex_lower_len(key);
    assert forall|i: int| 0 <= i < 32 implies h[2 * i] == hex_digit((key[i] / 16) as nat) && h[2
        * i + 1] == hex_digit((key[i] % 16) as nat) by {
        lemma_hex_lower_index(key, i);
    }
    lemma_hex_lower_index(key, 0);
    lemma_hex_digit((key[0] % 16) as nat);
    assert(strip_0x(h) == h);
    assert(strip_one_0x(h) == h);
    assert forall|j: int| 0 <= j < 64 implies hex_value(#[trigger] h[j]) >= 0 by {
        let i = j / 2;
        lemma_hex_lower_index(key, i);
        lemma_hex_digit((key[i] / 16) as nat);
        lemma_hex_digit((key[i] % 16) as nat);
        if j % 2 == 0 {
            assert(j == 2 * i);
        } else {
            assert(j == 2 * i + 1);
        }
    }
    let decoded = hex32(h).unwrap();
    assert forall|i: int| 0 <= i < 32 implies decoded[i] == key[i] by {
        lemma_hex_lower_index(key, i);
        lemma_hex_digit((key[i] / 16) as nat);
        lemma_hex_digit((key[i] % 16) as nat);
    }
    assert(decoded =~= key);
}

} // verus!
