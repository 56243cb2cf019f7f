use vstd::prelude::*;

verus! {

/// The SHA-256 digest of a byte sequence, written out as the ASCII bytes of
/// its 64 lowercase hexadecimal digits. The digest itself is not restated
/// here; all that matters to the library is that it is a fixed function of
/// the input bytes alone.
pub uninterp spec fn sha256_hex_of(input: Seq<u8>) -> Seq<u8>;

/// True iff `b` is the ASCII code of a lowercase hexadecimal digit
/// (`'0'..='9'` or `'a'..='f'`).
pub open spec fn is_hex_digit(b: u8) -> bool {
    (48 <= b <= 57) || (97 <= b <= 102)
}

/// True iff every byte of `s` is a lowercase hexadecimal digit.
pub open spec fn all_hex_digits(s: Seq<u8>) -> bool {
    forall|i: int| 0 <= i < s.len() ==> is_hex_digit(#[trigger] s[i])
}

/// Relies on `sha2::Sha256` together with generic-array's `LowerHex`
/// formatting: the result is the SHA-256 digest of the input, printed as 64
/// lowercase hexadecimal digits, and depends on the input bytes alone.
#[verifier::external_body]
pub fn get_hash(input: &[u8]) -> (r: Vec<u8>)
    ensures
        r@ == sha256_hex_of(input@),
        r@.len() == 64,
        all_hex_digits(r@),
{
    let mut hasher = <sha2::Sha256 as sha2::Digest>::new();
    sha2::Digest::update(&mut hasher, input);
    let digest = sha2::Digest::finalize(hasher);
    format!("{:x}", digest).into_bytes()
}

} // verus!
