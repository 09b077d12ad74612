//! The pair hash shared by the accumulator and the proof circuit.
//!
//! The hash of a pair is the SHA-256 digest of its 64 bytes with the three
//! highest bits cleared, so that every digest, and with it every root, is a
//! number below the scalar field's modulus and can stand among the public
//! signals of a proof.
use crate::field::{be_value, lemma_short_first_byte_is_scalar, scalar_field_order};
use vstd::prelude::*;

verus! {

/// The SHA-256 digest of the bytes of `left` followed by the bytes of `right`.
pub uninterp spec fn sha256_pair(left: Seq<u8>, right: Seq<u8>) -> Seq<u8>;

/// A digest with the three highest bits of its first byte cleared.
pub open spec fn to_field(digest: Seq<u8>) -> Seq<u8> {
    digest.update(0, digest[0] & 0x1f)
}

/// The hash of the ordered pair `(left, right)`.  The function is fixed for
/// the lifetime of a pool; every root and every membership path is defined
/// over it.
pub open spec fn hash2_digest(left: Seq<u8>, right: Seq<u8>) -> Seq<u8> {
    to_field(sha256_pair(left, right))
}

/// The value of a leaf slot that holds no commitment yet.
pub open spec fn zero_leaf() -> Seq<u8> {
    Seq::new(32, |i: int| 0u8)
}

/// The byte sequences held by a sequence of 32-byte values.
pub open spec fn digests(values: Seq<[u8; 32]>) -> Seq<Seq<u8>> {
    Seq::new(values.len(), |i: int| values[i]@)
}

/// Calls `anchor_lang::solana_program::hash::hashv` on the two-element list
/// `[left, right]`.  Trusted: the returned bytes are the digest that
/// `sha256_pair` names for these two inputs, which holds because `hashv`
/// feeds the slices in order into one SHA-256 state and reads no other input.
#[verifier::external_body]
fn sha256_of_pair(left: &[u8; 32], right: &[u8; 32]) -> (digest: [u8; 32])
    ensures
        digest@ == sha256_pair(left@, right@),
{
    anchor_lang::solana_program::hash::hashv(&[&left[..], &right[..]]).to_bytes()
}

/// Clears the three highest bits of a digest, which makes it a number below
/// the scalar field's modulus.
pub fn to_field_element(digest: [u8; 32]) -> (element: [u8; 32])
    ensures
        element@ == to_field(digest@),
        be_value(element@) < be_value(scalar_field_order()),
{
    let mut element = digest;
    let first: u8 = digest[0];
    assert(first & 0x1f <= 0x1f) by (bit_vector);
    element[0] = first & 0x1f;
    proof {
        lemma_short_first_byte_is_scalar(element@);
    }
    element
}

/// Hashes an ordered pair of 32-byte values into one 32-byte digest, which
/// is a number below the scalar field's modulus.
pub fn hash2(left: &[u8; 32], right: &[u8; 32]) -> (digest: [u8; 32])
    ensures
        digest@ == hash2_digest(left@, right@),
        be_value(digest@) < be_value(scalar_field_order()),
{
    to_field_element(sha256_of_pair(left, right))
}

/// The 32 zero bytes that stand for an empty leaf.
pub fn zero_digest() -> (z: [u8; 32])
    ensures
        z@ == zero_leaf(),
{
    let z = [0u8; 32];
    assert(z@ =~= zero_leaf());
    z
}

/// Whether two 32-byte values hold the same bytes.
pub fn digest_eq(a: &[u8; 32], b: &[u8; 32]) -> (same: bool)
    ensures
        same == (a@ == b@),
{
    let mut i: usize = 0;
    while i < 32
        invariant
            i <= 32,
            forall|k: int| 0 <= k < i ==> a@[k] == b@[k],
        decreases 32 - i,
    {
        if a[i] != b[i] {
            return false;
        }
        i += 1;
    }
    assert(a@ =~= b@);
    true
}

} // verus!
