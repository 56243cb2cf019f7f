use vstd::prelude::*;
use crate::byteops::concat_bytes;
use crate::hashing::{sha256_hex_of, all_hex_digits, get_hash};

verus! {

/// The fixed salt appended to a password before hashing: the ASCII bytes of
/// `"my salt"`. A constant salt is a known weakness of this design, kept for
/// compatibility with archives sealed by earlier runs.
pub open spec fn salt_spec() -> Seq<u8> {
    seq![109u8, 121u8, 32u8, 115u8, 97u8, 108u8, 116u8]
}

/// The session key derived from a password: the first half (32 hex digits)
/// of the hex digest of the salted password. Never persisted; the same
/// password always yields the same key.
pub open spec fn derived_key_spec(password: Seq<u8>) -> Seq<u8> {
    sha256_hex_of(password + salt_spec()).take(32)
}

fn salt_bytes() -> (r: Vec<u8>)
    ensures
        r@ == salt_spec(),
{
    let mut r: Vec<u8> = Vec::new();
    r.push(109);
    r.push(121);
    r.push(32);
    r.push(115);
    r.push(97);
    r.push(108);
    r.push(116);
    proof {
        assert(r@ =~= salt_spec());
    }
    r
}

/// Derives the symmetric session key from a password: hash the password
/// concatenated with the fixed salt, and keep the first 32 hex digits of the
/// digest as key material.
pub fn new_key(password: &[u8]) -> (r: Vec<u8>)
    ensures
        r@ == derived_key_spec(password@),
        r@.len() == 32,
        all_hex_digits(r@),
{
    let salt = salt_bytes();
    let salted = concat_bytes(password, salt.as_slice());
    let mut digest = get_hash(salted.as_slice());
    digest.truncate(32);
    proof {
        assert(digest@ =~= derived_key_spec(password@));
    }
    digest
}

} // verus!
