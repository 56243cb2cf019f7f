use vstd::prelude::*;
use crate::hashing::{is_hex_digit, all_hex_digits};

verus! {

/// The numeric value of a lowercase hexadecimal digit byte.
pub open spec fn hex_val(b: u8) -> int
    recommends
        is_hex_digit(b),
{
    if 48 <= b <= 57 {
        b - 48
    } else {
        b - 87
    }
}

/// The bytes encoded by a sequence of hexadecimal digits, two digits per
/// byte. Trailing odd digits are ignored; `hex_decode` rejects them.
pub open spec fn hex_decode_spec(s: Seq<u8>) -> Seq<u8>
    decreases s.len(),
{
    if s.len() < 2 {
        Seq::empty()
    } else {
        seq![(hex_val(s[0]) * 16 + hex_val(s[1])) as u8] + hex_decode_spec(s.skip(2))
    }
}

/// Decoding n hex digits yields n / 2 bytes.
pub proof fn lemma_hex_decode_len(s: Seq<u8>)
    ensures
        hex_decode_spec(s).len() == s.len() / 2,
    decreases s.len(),
{
    if s.len() >= 2 {
        lemma_hex_decode_len(s.skip(2));
    }
}

/// The value of one hex digit byte, or 255 for a byte that is none.
fn hex_digit_value(b: u8) -> (r: u8)
    ensures
        is_hex_digit(b) ==> r == hex_val(b),
        !is_hex_digit(b) ==> r == 255,
{
    if 48 <= b && b <= 57 {
        b - 48
    } else if 97 <= b && b <= 102 {
        b - 87
    } else {
        255
    }
}

/// Decodes a string of lowercase hexadecimal digits into bytes. Returns
/// `None` exactly when the input has odd length or holds a byte that is no
/// lowercase hex digit.
pub fn hex_decode(s: &[u8]) -> (r: Option<Vec<u8>>)
    ensures
        r is Some <==> (s@.len() % 2 == 0 && all_hex_digits(s@)),
        r matches Some(v) ==> v@ == hex_decode_spec(s@),
{
    if s.len() % 2 != 0 {
        return None;
    }
    let mut out: Vec<u8> = Vec::new();
    let mut i: usize = 0;
    proof {
        assert(s@.skip(0) =~= s@);
        assert(out@ + hex_decode_spec(s@) =~= hex_decode_spec(s@));
    }
    while i < s.len()
        invariant
            s@.len() % 2 == 0,
            i % 2 == 0,
            0 <= i <= s@.len(),
            forall|j: int| 0 <= j < i ==> is_hex_digit(#[trigger] s@[j]),
            out@ + hex_decode_spec(s@.skip(i as int)) == hex_decode_spec(s@),
        decreases s@.len() - i,
    {
        let hi = hex_digit_value(s[i]);
        let lo = hex_digit_value(s[i + 1]);
        if hi == 255 || lo == 255 {
            return None;
        }
        proof {
            let rest = s@.skip(i as int);
            assert(rest.len() >= 2);
            assert(rest[0] == s@[i as int]);
            assert(rest[1] == s@[i as int + 1]);
            assert(rest.skip(2) =~= s@.skip(i as int + 2));
            assert(hex_decode_spec(rest) == seq![(hex_val(rest[0]) * 16 + hex_val(rest[1])) as u8]
                + hex_decode_spec(rest.skip(2)));
        }
        out.push(hi * 16 + lo);
        proof {
            assert(out@ + hex_decode_spec(s@.skip(i as int + 2)) =~= hex_decode_spec(s@));
        }
        i += 2;
    }
    proof {
        assert(s@.skip(i as int) =~= Seq::<u8>::empty());
        assert(out@ =~= hex_decode_spec(s@));
    }
    Some(out)
}

} // verus!
