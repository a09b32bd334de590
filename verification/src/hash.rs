//! The hash function behind every block: SHA-256 over a textual rendering of
//! the block's fields, written as 64 lowercase hex characters. The digest
//! itself is computed by the sha2 crate; its value is only named here, never
//! restated, so every property proved about chains holds for whatever the
//! real digest returns.

use vstd::prelude::*;

verus! {

/// The hex rendering of the SHA-256 digest of a string. A pure function of
/// its input alone; its value is not axiomatized beyond its length.
pub uninterp spec fn sha256_hex_of(input: Seq<char>) -> Seq<char>;

/// Relies on sha2's `Sha256::digest` and generic-array's lowercase-hex
/// formatting: the digest depends on the input bytes alone, and the 32-byte
/// output prints as 64 hex characters.
#[verifier::external_body]
pub fn sha256_hex(input: &str) -> (r: String)
    ensures
        r@ == sha256_hex_of(input@),
        r@.len() == 64,
{
    let digest = <sha2::Sha256 as sha2::Digest>::digest(input.as_bytes());
    format!("{:x}", digest)
}

} // verus!
