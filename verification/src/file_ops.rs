use vstd::prelude::*;
use crate::hex::{hex_encode, hex_of, is_hex_digit, lemma_hex_of};

verus! {

/// The SHA-256 digest of `data`.
pub uninterp spec fn sha256_of(data: Seq<u8>) -> Seq<u8>;

/// The SHA-256 digest of `data`, from `sha2::Sha256::digest`; its output is 32 bytes
/// (the `OutputSize` of `Sha256` is `U32`).
#[verifier::external_body]
fn sha256_digest(data: &[u8]) -> (r: Vec<u8>)
    ensures
        r@ == sha256_of(data@),
        r@.len() == 32,
{
    <sha2::Sha256 as sha2::Digest>::digest(data).to_vec()
}

/// The SHA-256 digest of `data` in lowercase hexadecimal.
pub fn compute_sha256(data: &[u8]) -> (r: String)
    ensures
        r@ == hex_of(sha256_of(data@)),
        r@.len() == 64,
        forall|i: int| 0 <= i < 64 ==> is_hex_digit(#[trigger] r@[i]),
{
    let digest = sha256_digest(data);
    proof {
        lemma_hex_of(digest@);
    }
    hex_encode(digest.as_slice())
}

} // verus!
