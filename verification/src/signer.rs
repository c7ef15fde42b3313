//! The inputs of the signing provider: the RPC endpoint's URL and the
//! wallet's private key, checked and turned into the key's bytes and the
//! address that the key signs for.
//!
//! A private key is 32 bytes written as 64 hex digits, with or without a
//! `0x` prefix, and must be a secp256k1 secret scalar: not zero and below the
//! group order.
use alloy::primitives::B256;
use alloy::signers::local::PrivateKeySigner;
use alloy::transports::http::reqwest::Url;
use vstd::prelude::*;

use crate::gpu::lemma_target_words_value;
use crate::uint::{be32_le, be_value, lemma_be_value_zeros};
use vstd::arithmetic::power2::*;

verus! {

/// Whether `url::Url::parse` accepts the text as an absolute URL.
pub uninterp spec fn url_parses(text: Seq<char>) -> bool;

/// The Ethereum address of a secp256k1 secret key: the last 20 bytes of the Keccak-256
/// digest of the uncompressed public key.
pub uninterp spec fn secret_key_address(key: Seq<u8>) -> Seq<u8>;

/// `url::Url::parse` (re-exported by alloy's HTTP transport): whether it accepts the text.
/// The URL grammar as a whole is not stated. Stated is that it accepts an `http://` or
/// `https://` URL whose host is a plain domain name and whose port, if any, has at most
/// four digits (`plain_http_url`): in url 2.5.8 such a host passes idna's ASCII fast path
/// unchanged (`is_passthrough_ascii_label`), is not empty, does not end in a number, so it
/// is not read as IPv4, and such a port is below 65536.
#[verifier::external_body]
fn rpc_url_ok(text: &str) -> (ok: bool)
    ensures
        ok == url_parses(text@),
        plain_http_url(text@) ==> ok,
{
    Url::parse(text).is_ok()
}

/// A lowercase ASCII letter.
pub open spec fn is_lower_letter(c: char) -> bool {
    97 <= (c as u32) <= 122
}

/// An ASCII digit.
pub open spec fn is_ascii_digit_char(c: char) -> bool {
    48 <= (c as u32) <= 57
}

/// A plain domain name: dot-separated labels, each starting with a lowercase letter,
/// holding only lowercase letters, digits and hyphens, not ending with a hyphen, and not
/// holding hyphens in its third and fourth places (the mark of an encoded label).
pub open spec fn plain_host(h: Seq<char>) -> bool {
    &&& h.len() > 0
    &&& is_lower_letter(h[0])
    &&& h.last() != '-'
    &&& forall|i: int|
        0 <= i < h.len() ==> (is_lower_letter(#[trigger] h[i]) || is_ascii_digit_char(h[i]) || h[i]
            == '-' || h[i] == '.')
    &&& forall|i: int|
        0 <= i < h.len() && #[trigger] h[i] == '.' ==> i + 1 < h.len() && is_lower_letter(
            h[i + 1],
        ) && h[i - 1] != '-'
    &&& forall|i: int|
        2 <= i && i + 1 < h.len() && #[trigger] h[i] == '-' && h[i + 1] == '-' ==> !(i == 2 || h[i
            - 3] == '.')
}

/// A plain host, optionally followed by `:` and a port of one to four digits.
pub open spec fn plain_authority(a: Seq<char>) -> bool {
    ||| plain_host(a)
    ||| exists|k: int|
        0 < k < a.len() && #[trigger] a[k] == ':' && plain_host(a.take(k)) && a.len() - k - 1 >= 1
            && a.len() - k - 1 <= 4 && forall|i: int|
            k < i < a.len() ==> is_ascii_digit_char(#[trigger] a[i])
}

/// An `http://` or `https://` URL made of a plain host and an optional short port, such as
/// `http://localhost:8545`.
pub open spec fn plain_http_url(t: Seq<char>) -> bool {
    ||| t.len() >= 7 && t.take(7) == seq!['h', 't', 't', 'p', ':', '/', '/'] && plain_authority(
        t.skip(7),
    )
    ||| t.len() >= 8 && t.take(8) == seq!['h', 't', 't', 'p', 's', ':', '/', '/']
        && plain_authority(t.skip(8))
}

/// `PrivateKeySigner::from_bytes` and then `address()`: the address that the key signs for.
/// For a secret scalar the signer is always built, so the result is the address derived
/// from the key; nothing more of the derivation is stated.
#[verifier::external_body]
pub(crate) fn key_address(key: &[u8; 32]) -> (a: [u8; 20])
    requires
        is_secret_scalar(key@),
    ensures
        a@ == secret_key_address(key@),
{
    match PrivateKeySigner::from_bytes(&B256::from(*key)) {
        Ok(signer) => signer.address().0 .0,
        Err(_) => [0u8; 20],
    }
}

/// The value of a hex digit (either case), or -1 for any other character.
pub open spec fn hex_value(c: char) -> int {
    let n = c as u32;
    if 48 <= n <= 57 {
        n - 48
    } else if 97 <= n <= 102 {
        n - 87
    } else if 65 <= n <= 70 {
        n - 55
    } else {
        -1
    }
}

/// The text after a leading `0x` or `0X`, if it has one.
pub open spec fn strip_one_0x(text: Seq<char>) -> Seq<char> {
    if text.len() >= 2 && text[0] == '0' && (text[1] == 'x' || text[1] == 'X') {
        text.skip(2)
    } else {
        text
    }
}

/// The 32 bytes that the text denotes in hex: an optional `0x` or `0X`, then exactly 64
/// hex digits of either case, two per byte with the high nibble first. `None` for any
/// other text.
pub open spec fn hex32(text: Seq<char>) -> Option<Seq<u8>> {
    let body = strip_one_0x(text);
    if body.len() == 64 && forall|i: int| 0 <= i < 64 ==> hex_value(#[trigger] body[i]) >= 0 {
        Some(
            Seq::new(
                32,
                |i: int| (16 * hex_value(body[2 * i]) + hex_value(body[2 * i + 1])) as u8,
            ),
        )
    } else {
        None
    }
}

/// The order of the secp256k1 group, as 32 big-endian bytes.
pub open spec fn secp256k1_order_bytes() -> Seq<u8> {
    seq![
        0xffu8, 0xff, 0xff, 0xff, 0xff, 0xff, 0xff, 0xff, 0xff, 0xff, 0xff, 0xff, 0xff, 0xff, 0xff,
        0xfe, 0xba, 0xae, 0xdc, 0xe6, 0xaf, 0x48, 0xa0, 0x3b, 0xbf, 0xd2, 0x5e, 0x8c, 0xd0, 0x36,
        0x41, 0x41,
    ]
}

/// Whether 32 big-endian bytes are a secp256k1 secret scalar: not zero, below the group order.
pub open spec fn is_secret_scalar(key: Seq<u8>) -> bool {
    &&& key.len() == 32
    &&& 0 < be_value(key)
    &&& be_value(key) < be_value(secp256k1_order_bytes())
}

/// The group order is `0xFFFFFFFFFFFFFFFFFFFFFFFFFFFFFFFEBAAEDCE6AF48A03BBFD25E8CD0364141`.
pub proof fn lemma_secp256k1_order_value()
    ensures
        be_value(secp256k1_order_bytes())
            == 0xFFFFFFFFFFFFFFFFFFFFFFFFFFFFFFFEBAAEDCE6AF48A03BBFD25E8CD0364141nat,
{
    let o = secp256k1_order_bytes();
    lemma_target_words_value(o);
    lemma2_to64_rest();
    lemma_pow2_adds(64, 64);
    lemma_pow2_adds(128, 64);
    assert(be_value(o.subrange(0, 8)) == 0xFFFFFFFFFFFFFFFFnat) by {
        assert(o.subrange(0, 8) =~= seq![0xffu8, 0xff, 0xff, 0xff, 0xff, 0xff, 0xff, 0xff]);
        reveal_with_fuel(be_value, 9);
    }
    assert(be_value(o.subrange(8, 16)) == 0xFFFFFFFFFFFFFFFEnat) by {
        assert(o.subrange(8, 16) =~= seq![0xffu8, 0xff, 0xff, 0xff, 0xff, 0xff, 0xff, 0xfe]);
        reveal_with_fuel(be_value, 9);
    }
    assert(be_value(o.subrange(16, 24)) == 0xBAAEDCE6AF48A03Bnat) by {
        assert(o.subrange(16, 24) =~= seq![0xbau8, 0xae, 0xdc, 0xe6, 0xaf, 0x48, 0xa0, 0x3b]);
        reveal_with_fuel(be_value, 9);
    }
    assert(be_value(o.subrange(24, 32)) == 0xBFD25E8CD0364141nat) by {
        assert(o.subrange(24, 32) =~= seq![0xbfu8, 0xd2, 0x5e, 0x8c, 0xd0, 0x36, 0x41, 0x41]);
        reveal_with_fuel(be_value, 9);
    }
}

/// Every plain host makes an accepted URL with either scheme, with or without a short port.
pub proof fn lemma_plain_http_urls(h: Seq<char>, port: Seq<char>)
    requires
        plain_host(h),
        1 <= port.len() <= 4,
        forall|i: int| 0 <= i < port.len() ==> is_ascii_digit_char(#[trigger] port[i]),
    ensures
        plain_http_url(seq!['h', 't', 't', 'p', ':', '/', '/'] + h),
        plain_http_url(seq!['h', 't', 't', 'p', 's', ':', '/', '/'] + h),
        plain_http_url(seq!['h', 't', 't', 'p', ':', '/', '/'] + (h + seq![':'] + port)),
        plain_http_url(seq!['h', 't', 't', 'p', 's', ':', '/', '/'] + (h + seq![':'] + port)),
{
    let http = seq!['h', 't', 't', 'p', ':', '/', '/'];
    let https = seq!['h', 't', 't', 'p', 's', ':', '/', '/'];
    let a = h + seq![':'] + port;
    let k = h.len() as int;
    assert((http + h).take(7) =~= http);
    assert((http + h).skip(7) =~= h);
    assert((https + h).take(8) =~= https);
    assert((https + h).skip(8) =~= h);
    assert((http + a).take(7) =~= http);
    assert((http + a).skip(7) =~= a);
    assert((https + a).take(8) =~= https);
    assert((https + a).skip(8) =~= a);
    assert(a.take(k) =~= h);
    assert(a[k] == ':');
    assert forall|i: int| k < i < a.len() implies is_ascii_digit_char(#[trigger] a[i]) by {
        assert(a[i] == port[i - k - 1]);
    }
    assert(plain_authority(a));
}

/// `localhost` is a plain host.
pub proof fn lemma_localhost_is_plain()
    ensures
        plain_host(seq!['l', 'o', 'c', 'a', 'l', 'h', 'o', 's', 't']),
{
    let h = seq!['l', 'o', 'c', 'a', 'l', 'h', 'o', 's', 't'];
    assert forall|i: int| 0 <= i < h.len() implies is_lower_letter(#[trigger] h[i]) by {
        if i == 0 { } else if i == 1 { } else if i == 2 { } else if i == 3 { } else if i == 4 {
        } else if i == 5 { } else if i == 6 { } else if i == 7 { } else { }
    }
}

/// Why the inputs of the signing provider were refused.
#[derive(Debug, Clone, Copy, PartialEq, Eq)]
pub enum SignerInputError {
    InvalidRpcUrl,
    InvalidPrivateKey,
}

/// The value of a hex digit of either case.
pub fn hex_digit_value(c: char) -> (v: Option<u8>)
    ensures
        v matches Some(d) ==> d < 16 && hex_value(c) == d,
        v is None ==> hex_value(c) < 0,
{
    let n = c as u32;
    if 48 <= n && n <= 57 {
        Some((n - 48) as u8)
    } else if 97 <= n && n <= 102 {
        Some((n - 87) as u8)
    } else if 65 <= n && n <= 70 {
        Some((n - 55) as u8)
    } else {
        None
    }
}

/// The 32 bytes that a hex text denotes (see `hex32`).
pub fn parse_key_hex(text: &str) -> (r: Option<[u8; 32]>)
    ensures
        r matches Some(k) ==> hex32(text@) == Some(k@),
        r is None ==> hex32(text@) is None,
{
    let n = text.unicode_len();
    let start: usize = if n >= 2 && text.get_char(0) == '0' && (text.get_char(1) == 'x'
        || text.get_char(1) == 'X') {
        2
    } else {
        0
    };
    let ghost body = strip_one_0x(text@);
    assert(body =~= text@.skip(start as int));
    if n - start != 64 {
        return None;
    }
    let mut out = [0u8; 32];
    let mut i: usize = 0;
    while i < 32
        invariant
            0 <= i <= 32,
            n == text@.len(),
            n - start == 64,
            body == text@.skip(start as int),
            out@.len() == 32,
            forall|j: int| 0 <= j < 2 * i ==> hex_value(#[trigger] body[j]) >= 0,
            forall|j: int|
                0 <= j < i ==> out@[j] == (16 * hex_value(body[2 * j]) + hex_value(
                    body[2 * j + 1],
                )) as u8,
        decreases 32 - i,
    {
        let hi = hex_digit_value(text.get_char(start + 2 * i));
        let lo = hex_digit_value(text.get_char(start + 2 * i + 1));
        assert(body[2 * i as int] == text@[start + 2 * i]);
        assert(body[2 * i + 1] == text@[start + 2 * i + 1]);
        match (hi, lo) {
            (Some(h), Some(l)) => {
                out[i] = h * 16 + l;
            },
            _ => {
                return None;
            },
        }
        i = i + 1;
    }
    assert(out@ =~= hex32(text@).unwrap());
    Some(out)
}

/// Whether 32 big-endian bytes are a secp256k1 secret scalar.
pub fn is_valid_secret_key(key: &[u8; 32]) -> (ok: bool)
    ensures
        ok == is_secret_scalar(key@),
{
    let order: [u8; 32] = [
        0xff, 0xff, 0xff, 0xff, 0xff, 0xff, 0xff, 0xff, 0xff, 0xff, 0xff, 0xff, 0xff, 0xff, 0xff,
        0xfe, 0xba, 0xae, 0xdc, 0xe6, 0xaf, 0x48, 0xa0, 0x3b, 0xbf, 0xd2, 0x5e, 0x8c, 0xd0, 0x36,
        0x41, 0x41,
    ];
    assert(order@ =~= secp256k1_order_bytes());
    let zero = [0u8; 32];
    proof {
        lemma_be_value_zeros(zero@);
    }
    !be32_le(key, &zero) && !be32_le(&order, key)
}

/// Checks the provider's inputs in the order the provider is built: the RPC URL first,
/// then the private key, which must be 64 hex digits (after an optional `0x`) denoting a
/// secp256k1 secret scalar. Returns the key's bytes and the address it signs for.
pub fn check_signer_inputs(rpc_url: &str, private_key_hex: &str) -> (r: Result<
    ([u8; 32], [u8; 20]),
    SignerInputError,
>)
    ensures
        plain_http_url(rpc_url@) ==> url_parses(rpc_url@),
        r == Err::<([u8; 32], [u8; 20]), SignerInputError>(SignerInputError::InvalidRpcUrl)
            ==> !plain_http_url(rpc_url@),
        plain_http_url(rpc_url@) && (hex32(private_key_hex@) matches Some(k) && is_secret_scalar(
            k,
        )) ==> (r matches Ok((k2, a)) && hex32(private_key_hex@) == Some(k2@)),
        !url_parses(rpc_url@) ==> r == Err::<([u8; 32], [u8; 20]), SignerInputError>(
            SignerInputError::InvalidRpcUrl,
        ),
        url_parses(rpc_url@) ==> match r {
            Ok((k, a)) => hex32(private_key_hex@) == Some(k@) && is_secret_scalar(k@) && a@
                == secret_key_address(k@),
            Err(e) => e == SignerInputError::InvalidPrivateKey && !(hex32(private_key_hex@) matches Some(
                k,
            ) && is_secret_scalar(k)),
        },
{
    if !rpc_url_ok(rpc_url) {
        return Err(SignerInputError::InvalidRpcUrl);
    }
    match parse_key_hex(private_key_hex) {
        None => Err(SignerInputError::InvalidPrivateKey),
        Some(key) => {
            if is_valid_secret_key(&key) {
                let address = key_address(&key);
                Ok((key, address))
            } else {
                Err(SignerInputError::InvalidPrivateKey)
            }
        },
    }
}

} // verus!
