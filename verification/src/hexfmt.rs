//! Lowercase hexadecimal text of byte strings, as the `hex` crate writes it.
use vstd::prelude::*;

verus! {

/// The lowercase hex digit of a number below 16.
pub open spec fn hex_digit(n: nat) -> char {
    seq!['0', '1', '2', '3', '4', '5', '6', '7', '8', '9', 'a', 'b', 'c', 'd', 'e', 'f'][n as int]
}

/// Lowercase hex of a byte string: two digits per byte, the high nibble first.
pub open spec fn hex_lower(s: Seq<u8>) -> Seq<char>
    decreases s.len(),
{
    if s.len() == 0 {
        Seq::empty()
    } else {
        seq![hex_digit((s[0] / 16) as nat), hex_digit((s[0] % 16) as nat)] + hex_lower(
            s.drop_first(),
        )
    }
}

/// `hex::encode`: per its documentation and source, each byte becomes two lowercase
/// hex digits, the high nibble first, in the order of the bytes.
#[verifier::external_body]
pub(crate) fn hex_encode(bytes: &[u8]) -> (text: String)
    ensures
        text@ == hex_lower(bytes@),
{
    hex::encode(bytes)
}

/// Hex text has two characters per byte.
pub proof fn lemma_hex_lower_len(s: Seq<u8>)
    ensures
        hex_lower(s).len() == 2 * s.len(),
    decreases s.len(),
{
    if s.len() > 0 {
        lemma_hex_lower_len(s.drop_first());
    }
}

/// Byte `i` is written as digits `2 * i` (its high nibble) and `2 * i + 1` (its low nibble).
pub proof fn lemma_hex_lower_index(s: Seq<u8>, i: int)
    requires
        0 <= i < s.len(),
    ensures
        hex_lower(s).len() == 2 * s.len(),
        hex_lower(s)[2 * i] == hex_digit((s[i] / 16) as nat),
        hex_lower(s)[2 * i + 1] == hex_digit((s[i] % 16) as nat),
    decreases s.len(),
{
    lemma_hex_lower_len(s);
    lemma_hex_lower_len(s.drop_first());
    if i > 0 {
        lemma_hex_lower_index(s.drop_first(), i - 1);
    }
}

} // verus!
