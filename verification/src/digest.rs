//! Content digests.
use vstd::prelude::*;

verus! {

/// The BLAKE3 hash of `bytes` in lowercase hexadecimal.
pub uninterp spec fn blake3_hex(bytes: Seq<u8>) -> Seq<char>;

pub open spec fn is_lower_hex_digit(c: char) -> bool {
    ('0' <= c <= '9') || ('a' <= c <= 'f')
}

/// `blake3::hash(bytes).to_hex()` as a `String`. The hash function itself is
/// not specified: its result is named `blake3_hex`; `Hash::to_hex` writes
/// each of the 32 bytes as two lowercase hexadecimal digits.
#[verifier::external_body]
pub(crate) fn blake3_hex_of(bytes: &[u8]) -> (r: String)
    ensures
        r@ == blake3_hex(bytes@),
        r@.len() == 64,
        forall|i: int| 0 <= i < r@.len() ==> is_lower_hex_digit(#[trigger] r@[i]),
{
    blake3::hash(bytes).to_hex().to_string()
}

} // verus!
