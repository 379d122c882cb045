//! Byte-level digest and encoding primitives.
//!
//! The cryptographic hash itself is computed by the `sha2` crate; its result
//! is given a name (`sha512_of`) rather than a definition, since restating
//! SHA-512 here would be both unreadable and uncheckable.  Hex encoding, on
//! the other hand, has a direct specification (`hex_chars_of`) that the
//! `hex` crate is trusted to meet.

use vstd::prelude::*;
use sha2::{Digest, Sha512};

verus! {

use vstd::utf8::{valid_utf8, decode_utf8};

/// The SHA-512 digest (64 bytes) of a byte sequence.  The digest is a pure
/// function of the input bytes; its value is not axiomatized here.
pub uninterp spec fn sha512_of(data: Seq<u8>) -> Seq<u8>;

/// The lowercase hex character for a nibble value.
pub open spec fn hex_digit_char(v: u8) -> char
    recommends
        v < 16,
{
    if v < 10 {
        ((v + 0x30) as u8) as char
    } else {
        ((v - 10 + 0x61) as u8) as char
    }
}

/// Lowercase hex encoding of a byte sequence: two characters per byte,
/// high nibble first.
pub open spec fn hex_chars_of(b: Seq<u8>) -> Seq<char>
    decreases b.len(),
{
    if b.len() == 0 {
        Seq::empty()
    } else {
        hex_chars_of(b.drop_last()) + seq![
            hex_digit_char((b.last() / 16) as u8),
            hex_digit_char((b.last() % 16) as u8),
        ]
    }
}

/// Hex encoding yields two characters per byte.
pub proof fn lemma_hex_chars_len(b: Seq<u8>)
    ensures
        hex_chars_of(b).len() == 2 * b.len(),
    decreases b.len(),
{
    if b.len() != 0 {
        lemma_hex_chars_len(b.drop_last());
    }
}

/// Relies on `sha2::Sha512` (through `Digest::digest`) to compute the
/// SHA-512 digest of the input; the output length of 64 bytes is part of
/// the algorithm's definition.
#[verifier::external_body]
pub fn sha512_digest(data: &[u8]) -> (r: Vec<u8>)
    ensures
        r@ == sha512_of(data@),
        r@.len() == 64,
{
    Sha512::digest(data).to_vec()
}

/// Relies on `hex::encode`: lowercase hex, two digits per byte, high
/// nibble first.
#[verifier::external_body]
pub fn hex_lower(b: &[u8]) -> (r: String)
    ensures
        r@ == hex_chars_of(b@),
{
    hex::encode(b)
}

/// Relies on `String::from_utf8`: succeeds exactly on valid UTF-8 input and
/// then returns the decoded characters.
#[verifier::external_body]
pub fn utf8_to_string(bytes: Vec<u8>) -> (r: Option<String>)
    ensures
        r is Some <==> valid_utf8(bytes@),
        r matches Some(s) ==> s@ == decode_utf8(bytes@),
{
    String::from_utf8(bytes).ok()
}

} // verus!
