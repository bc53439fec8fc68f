//! Bencoded integers and byte strings, written by `serde_bencode`.

use crate::text::decimal;
use vstd::prelude::*;

verus! {

/// Text in the ASCII range as bytes.
pub open spec fn ascii(text: Seq<char>) -> Seq<u8> {
    Seq::new(text.len(), |i: int| text[i] as u8)
}

/// A bencoded integer: `i`, the decimal digits, `e`.
pub open spec fn bencoded_int(n: nat) -> Seq<u8> {
    seq![105u8] + ascii(decimal(n)) + seq![101u8]
}

/// A bencoded byte string: its length in decimal, a colon, the bytes.
pub open spec fn bencoded_bytes(bytes: Seq<u8>) -> Seq<u8> {
    ascii(decimal(bytes.len())) + seq![58u8] + bytes
}

/// Bencodes an unsigned integer with `serde_bencode::to_bytes`.
///
/// Trusted: the serializer writes `i`, the number as `u64::to_string` prints
/// it, and `e`, and cannot fail on an integer.
#[verifier::external_body]
pub(crate) fn bencode_int(n: u64) -> (out: Vec<u8>)
    ensures
        out@ == bencoded_int(n as nat),
{
    serde_bencode::to_bytes(&n).unwrap_or_default()
}

/// Bencodes a byte string with `serde_bencode::to_bytes`.
///
/// Trusted: the serializer writes the length as `usize::to_string` prints
/// it, a colon and the bytes unchanged, and cannot fail on bytes.
#[verifier::external_body]
pub(crate) fn bencode_bytes(bytes: &[u8]) -> (out: Vec<u8>)
    ensures
        out@ == bencoded_bytes(bytes@),
{
    serde_bencode::to_bytes(&serde_bytes::Bytes::new(bytes)).unwrap_or_default()
}

} // verus!
