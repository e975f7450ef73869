//! Content hashes of artifact files: lower-case hex SHA-256.

use vstd::prelude::*;
use crate::text::push_char;

verus! {

/// The SHA-256 digest of a byte sequence.
pub uninterp spec fn sha256_of(data: Seq<u8>) -> Seq<u8>;

/// Relies on `sha2::Sha256::digest` (the `Digest` trait of the `digest`
/// crate): the 32-byte digest of the data, which depends on the data alone.
#[verifier::external_body]
fn sha256_digest(data: &[u8]) -> (r: Vec<u8>)
    ensures
        r@ == sha256_of(data@),
        r@.len() == 32,
{
    <sha2::Sha256 as sha2::Digest>::digest(data).to_vec()
}

/// The lower-case hex digit of `d < 16`.
pub open spec fn hex_digit(d: u8) -> char {
    if d < 10 {
        (d + 48) as char
    } else {
        (d + 87) as char
    }
}

/// Two lower-case hex digits per byte, most significant first.
pub open spec fn hex_of(data: Seq<u8>) -> Seq<char>
    decreases data.len(),
{
    if data.len() == 0 {
        Seq::empty()
    } else {
        hex_of(data.drop_last()).push(hex_digit(data.last() / 16)).push(hex_digit(data.last() % 16))
    }
}

fn hex_digit_of(d: u8) -> (c: char)
    requires
        d < 16,
    ensures
        c == hex_digit(d),
{
    if d < 10 {
        (d + 48) as char
    } else {
        (d + 87) as char
    }
}

/// The lower-case hex text of `data`.
pub fn hex_lower(data: &[u8]) -> (r: String)
    ensures
        r@ == hex_of(data@),
{
    let mut out = String::new();
    let mut i: usize = 0;
    while i < data.len()
        invariant
            i <= data@.len(),
            out@ == hex_of(data@.subrange(0, i as int)),
        decreases data@.len() - i,
    {
        let b = data[i];
        push_char(&mut out, hex_digit_of(b / 16));
        push_char(&mut out, hex_digit_of(b % 16));
        assert(data@.subrange(0, i + 1).drop_last() =~= data@.subrange(0, i as int));
        i += 1;
    }
    assert(data@.subrange(0, data@.len() as int) =~= data@);
    out
}

/// The content hash of an artifact's bytes: the lower-case hex of their
/// SHA-256 digest.
pub fn content_hash(data: &[u8]) -> (r: String)
    ensures
        r@ == hex_of(sha256_of(data@)),
        r@.len() == 64,
{
    let digest = sha256_digest(data);
    let r = hex_lower(digest.as_slice());
    proof {
        lemma_hex_length(digest@);
    }
    r
}

proof fn lemma_hex_length(data: Seq<u8>)
    ensures
        hex_of(data).len() == 2 * data.len(),
    decreases data.len(),
{
    if data.len() > 0 {
        lemma_hex_length(data.drop_last());
    }
}

} // verus!
