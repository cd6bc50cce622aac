//! Hexadecimal text, through the `hex` crate.
use vstd::prelude::*;

verus! {

/// The lowercase hexadecimal digit for `n < 16`.
pub open spec fn hex_digit(n: u8) -> char {
    if n < 10 {
        ((n + 48) as u32) as char
    } else {
        ((n + 87) as u32) as char
    }
}

/// The value of a hexadecimal digit, in either case.
pub open spec fn hex_value(c: char) -> Option<u8> {
    if '0' <= c && c <= '9' {
        Some(((c as u32) - 48) as u8)
    } else if 'a' <= c && c <= 'f' {
        Some(((c as u32) - 87) as u8)
    } else if 'A' <= c && c <= 'F' {
        Some(((c as u32) - 55) as u8)
    } else {
        None
    }
}

/// Lowercase hexadecimal text of a byte string: two digits per byte, high nibble first.
pub open spec fn hex_lower(b: Seq<u8>) -> Seq<char>
    decreases b.len(),
{
    if b.len() == 0 {
        Seq::empty()
    } else {
        seq![hex_digit(b[0] / 16), hex_digit(b[0] % 16)] + hex_lower(b.drop_first())
    }
}

/// The bytes that hexadecimal text stands for; `None` for odd length or a non-hex character.
pub open spec fn hex_decoded(s: Seq<char>) -> Option<Seq<u8>>
    decreases s.len(),
{
    if s.len() == 0 {
        Some(Seq::empty())
    } else if s.len() < 2 {
        None
    } else {
        match (hex_value(s[0]), hex_value(s[1]), hex_decoded(s.subrange(2, s.len() as int))) {
            (Some(h), Some(l), Some(rest)) => Some(seq![(h * 16 + l) as u8] + rest),
            _ => None,
        }
    }
}

/// Hexadecimal text has two characters per byte.
pub proof fn lemma_hex_lower_len(b: Seq<u8>)
    ensures
        hex_lower(b).len() == 2 * b.len(),
    decreases b.len(),
{
    if b.len() > 0 {
        lemma_hex_lower_len(b.drop_first());
    }
}

/// Decoding gives back the bytes that were encoded.
pub proof fn lemma_hex_roundtrip(b: Seq<u8>)
    ensures
        hex_decoded(hex_lower(b)) == Some(b),
    decreases b.len(),
{
    if b.len() > 0 {
        let s = hex_lower(b);
        let x = b[0];
        lemma_hex_roundtrip(b.drop_first());
        lemma_hex_lower_len(b.drop_first());
        assert(s.subrange(2, s.len() as int) == hex_lower(b.drop_first()));
        assert(hex_value(s[0]) == Some(x / 16));
        assert(hex_value(s[1]) == Some(x % 16));
        assert(((x / 16) * 16 + x % 16) as u8 == x);
        assert(seq![x] + b.drop_first() == b);
    }
}

/// Calls `hex::encode`. Claimed: lowercase hexadecimal, two digits per byte.
#[verifier::external_body]
pub(crate) fn encode_hex(data: &[u8]) -> (r: String)
    ensures
        r@ == hex_lower(data@),
{
    hex::encode(data)
}

/// Calls `hex::decode` on the text of `s`. Claimed: it succeeds exactly when the
/// text has even length and only hexadecimal digits (either case), and then gives
/// their bytes. The error is the `Display` text of `hex::FromHexError`, which no
/// clause states.
#[verifier::external_body]
pub(crate) fn decode_hex(s: &str) -> (r: Result<Vec<u8>, String>)
    ensures
        match hex_decoded(s@) {
            Some(b) => r matches Ok(v) && v@ == b,
            None => r is Err,
        },
{
    hex::decode(s).map_err(|e| e.to_string())
}

} // verus!
