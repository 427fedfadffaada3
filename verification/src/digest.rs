use vstd::prelude::*;

verus! {

/// The SHA-1 digest of a byte string, as the `sha1` crate computes it.
pub uninterp spec fn sha1_of(data: Seq<u8>) -> Seq<u8>;

/// Computes the SHA-1 digest with `sha1::Sha1::digest`; the result is named
/// [`sha1_of`] of the bytes, and is 20 bytes long (the digest's output size).
#[verifier::external_body]
pub(crate) fn sha1_digest(data: &[u8]) -> (r: Vec<u8>)
    ensures
        r@ == sha1_of(data@),
        r@.len() == 20,
{
    <sha1::Sha1 as sha1::Digest>::digest(data).to_vec()
}

/// The lower-case hexadecimal digit of a value below 16.
pub open spec fn hex_digit(d: u8) -> char {
    if d < 10 {
        ((d + 48) as u8) as char
    } else {
        ((d - 10 + 97) as u8) as char
    }
}

/// Two lower-case hexadecimal digits per byte, high half first.
pub open spec fn hex_lower(data: Seq<u8>) -> Seq<char>
    decreases data.len(),
{
    if data.len() == 0 {
        Seq::empty()
    } else {
        hex_lower(data.drop_last()).push(hex_digit(data.last() / 16)).push(
            hex_digit(data.last() % 16),
        )
    }
}

/// Encodes bytes with `hex::encode`, which writes each byte as two
/// lower-case hexadecimal digits, high half first.
#[verifier::external_body]
pub(crate) fn hex_encode(data: &[u8]) -> (r: String)
    ensures
        r@ == hex_lower(data@),
{
    hex::encode(data)
}

/// The lower-case hexadecimal SHA-1 of a text's UTF-8 bytes.
pub open spec fn sha1_hex_of(text: Seq<char>) -> Seq<char> {
    hex_lower(sha1_of(vstd::utf8::encode_utf8(text)))
}

/// Hexadecimal text is two digits per byte.
pub proof fn lemma_hex_lower_len(data: Seq<u8>)
    ensures
        hex_lower(data).len() == 2 * data.len(),
    decreases data.len(),
{
    if data.len() > 0 {
        lemma_hex_lower_len(data.drop_last());
    }
}

/// The lower-case hexadecimal SHA-1 of a text: 40 digits.
pub fn sha1_hex(text: &str) -> (r: String)
    ensures
        r@ == sha1_hex_of(text@),
        r@.len() == 40,
{
    let digest = sha1_digest(text.as_bytes());
    proof {
        lemma_hex_lower_len(digest@);
    }
    hex_encode(digest.as_slice())
}

} // verus!
