//! Puzzle identifiers: the MD5 digest of a text, read as a big endian number.

use vstd::prelude::*;

verus! {

/// The MD5 digest of a sequence of bytes (16 bytes).
pub uninterp spec fn md5_digest(data: Seq<u8>) -> Seq<u8>;

/// The MD5 digest of the bytes (`md5::compute`).
#[verifier::external_body]
fn md5_compute(data: &[u8]) -> (r: [u8; 16])
    ensures
        r@ == md5_digest(data@),
{
    md5::compute(data).0
}

/// The number that a sequence of bytes stands for, most significant byte first.
pub open spec fn be_value(s: Seq<u8>) -> nat
    decreases s.len(),
{
    if s.len() == 0 {
        0
    } else {
        be_value(s.drop_last()) * 256 + s.last() as nat
    }
}

/// The number that 16 bytes stand for, most significant byte first
/// (`u128::from_be_bytes`).
pub fn u128_from_be_bytes(bytes: [u8; 16]) -> (r: u128)
    ensures
        r as nat == be_value(bytes@),
{
    let mut r: u128 = 0;
    let mut i: usize = 0;
    while i < 16
        invariant
            i <= 16,
            bytes@.len() == 16,
            r as nat == be_value(bytes@.subrange(0, i as int)),
            r <= (u128::MAX >> ((128 - 8 * i) as u128)),
        decreases 16 - i,
    {
        let b = bytes[i];
        assert(bytes@.subrange(0, i + 1).drop_last() =~= bytes@.subrange(0, i as int));
        let sh: u128 = (128 - 8 * i) as u128;
        let sh2: u128 = (128 - 8 * (i + 1)) as u128;
        assert(r <= (u128::MAX >> sh) && 8 <= sh <= 128 && sh2 == sh - 8 ==> r * 256 + (b as u128) <= (u128::MAX >> sh2)) by (bit_vector);
        r = r * 256 + b as u128;
        i = i + 1;
    }
    assert(bytes@.subrange(0, 16) =~= bytes@);
    r
}

/// The identifier of a text: its MD5 digest as a number.
pub open spec fn spec_text_id(text: Seq<char>) -> nat {
    be_value(md5_digest(vstd::utf8::encode_utf8(text)))
}

/// The identifier of a text: the MD5 digest of its UTF-8 bytes as a number.
pub fn text_id(text: &str) -> (id: u128)
    ensures
        id as nat == spec_text_id(text@),
{
    let d = md5_compute(text.as_bytes());
    u128_from_be_bytes(d)
}

} // verus!
