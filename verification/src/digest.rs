//! SHA-256 digests and their hexadecimal texts.

use vstd::prelude::*;
use sha2::{Digest, Sha256};

verus! {

/// The SHA-256 hasher of `sha2`.
#[verifier::external_type_specification]
#[verifier::external_body]
pub struct ExSha256(sha2::Sha256);

/// The bytes that a hasher has taken in, in order.
pub uninterp spec fn absorbed(hasher: sha2::Sha256) -> Seq<u8>;

/// The SHA-256 digest of a byte string.
pub uninterp spec fn sha256(data: Seq<u8>) -> Seq<u8>;

/// `Sha256::new`: a hasher that has taken in nothing.
#[verifier::external_body]
pub(crate) fn new_hasher() -> (r: Sha256)
    ensures
        absorbed(r) == Seq::<u8>::empty(),
{
    Sha256::new()
}

/// `Sha256::update`: takes in `data` after what was taken in before.
#[verifier::external_body]
pub(crate) fn absorb(hasher: &mut Sha256, data: &Vec<u8>)
    ensures
        absorbed(*final(hasher)) == absorbed(*old(hasher)) + data@,
{
    hasher.update(data)
}

/// `Sha256::finalize` on a copy of the hasher: the digest, 32 bytes long, of all
/// that was taken in. It is a function of those bytes alone.
#[verifier::external_body]
pub(crate) fn finish(hasher: &Sha256) -> (r: Vec<u8>)
    ensures
        r@ == sha256(absorbed(*hasher)),
        r@.len() == 32,
{
    hasher.clone().finalize().to_vec()
}

/// The lower-case hexadecimal digit of `n`.
pub open spec fn hex_digit(n: int) -> char {
    if n < 10 {
        (48 + n) as char
    } else {
        (87 + n) as char
    }
}

/// Each byte as two lower-case hexadecimal digits, the high one first.
pub open spec fn hex_text(bytes: Seq<u8>) -> Seq<char> {
    Seq::new(
        2 * bytes.len(),
        |i: int|
            if i % 2 == 0 {
                hex_digit(bytes[i / 2] as int / 16)
            } else {
                hex_digit(bytes[i / 2] as int % 16)
            },
    )
}

/// `hex::encode`: each byte as two lower-case hexadecimal digits.
#[verifier::external_body]
pub(crate) fn hex_encode(bytes: &Vec<u8>) -> (r: String)
    ensures
        r@ == hex_text(bytes@),
{
    hex::encode(bytes)
}

/// The SHA-256 digest of `bytes` in hexadecimal.
pub fn hex_sha256(bytes: &Vec<u8>) -> (r: String)
    ensures
        r@ == hex_text(sha256(bytes@)),
        r@.len() == 64,
{
    let mut hasher = new_hasher();
    absorb(&mut hasher, bytes);
    assert(absorbed(hasher) =~= bytes@);
    let digest = finish(&hasher);
    hex_encode(&digest)
}

/// Two byte strings have the same hexadecimal text only if they are the same.
pub proof fn law_hex_text_injective(a: Seq<u8>, b: Seq<u8>)
    requires
        hex_text(a) == hex_text(b),
    ensures
        a == b,
{
    assert(hex_text(a).len() == 2 * a.len() && hex_text(b).len() == 2 * b.len());
    assert(a.len() == b.len());
    assert forall|i: int| 0 <= i < a.len() implies a[i] == b[i] by {
        assert((2 * i) % 2 == 0 && (2 * i) / 2 == i && (2 * i + 1) % 2 == 1 && (2 * i + 1) / 2 == i);
        assert(hex_text(a)[2 * i] == hex_digit(a[i] as int / 16));
        assert(hex_text(b)[2 * i] == hex_digit(b[i] as int / 16));
        assert(hex_text(a)[2 * i + 1] == hex_digit(a[i] as int % 16));
        assert(hex_text(b)[2 * i + 1] == hex_digit(b[i] as int % 16));
        assert(a[i] as int / 16 == b[i] as int / 16);
        assert(a[i] as int % 16 == b[i] as int % 16);
    }
    assert(a =~= b);
}

/// The text of a byte string has two characters for each byte, both of them from
/// `0123456789abcdef`: the first has the place of the byte's high half there, the
/// second that of its low half.
pub proof fn law_hex_text_is_lower_hexadecimal(bytes: Seq<u8>, i: int)
    requires
        0 <= i < 2 * bytes.len(),
    ensures
        hex_text(bytes).len() == 2 * bytes.len(),
        hex_text(bytes)[i] == "0123456789abcdef"@[if i % 2 == 0 {
            bytes[i / 2] / 16
        } else {
            bytes[i / 2] % 16
        } as int],
        hex_text(bytes)[i] != '\n',
{
    reveal_strlit("0123456789abcdef");
    let digits = "0123456789abcdef"@;
    assert(digits[0] == '0' && digits[1] == '1' && digits[2] == '2' && digits[3] == '3' && digits[4] == '4');
    assert(digits[5] == '5' && digits[6] == '6' && digits[7] == '7' && digits[8] == '8' && digits[9] == '9');
    assert(digits[10] == 'a' && digits[11] == 'b' && digits[12] == 'c' && digits[13] == 'd' && digits[14] == 'e');
    assert(digits[15] == 'f');
}

} // verus!
