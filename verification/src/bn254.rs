//! Points of the BN254 curve as they arrive on the wire, and the group
//! operations and the pairing check on them.
//!
//! A G1 point is 64 bytes: its two coordinates, each a 32-byte big-endian
//! number below the base field's modulus.  A G2 point is 128 bytes.  The point
//! at infinity is written as all zeros.
use crate::field::{base_field_modulus, base_field_modulus_bytes, be_bytes, be_sub, be_value};
use vstd::prelude::*;
use vstd::slice::slice_subrange;

verus! {

/// The error of the curve operations of `anchor_lang::solana_program::alt_bn128`.
/// Nothing is read from it: a refused input counts as no result.
#[verifier::external_type_specification]
#[verifier::external_body]
pub struct ExAltBn128Error(anchor_lang::solana_program::alt_bn128::AltBn128Error);

/// What `alt_bn128_addition` returns on `input`: the sum of the two G1 points
/// that `input` holds, or nothing where it refuses the input.
pub uninterp spec fn alt_bn128_addition_result(input: Seq<u8>) -> Option<Seq<u8>>;

/// What `alt_bn128_multiplication` returns on `input`: the G1 point that
/// `input` starts with, multiplied by the scalar that follows it, or nothing
/// where it refuses the input.
pub uninterp spec fn alt_bn128_multiplication_result(input: Seq<u8>) -> Option<Seq<u8>>;

/// What `alt_bn128_pairing` returns on `input`, a list of (G1, G2) pairs:
/// the 32-byte number 1 if the product of the pairings of all pairs is the
/// identity, the number 0 if it is not, or nothing where it refuses the input.
pub uninterp spec fn alt_bn128_pairing_result(input: Seq<u8>) -> Option<Seq<u8>>;

/// Calls `anchor_lang::solana_program::alt_bn128::prelude::alt_bn128_addition`.
/// Trusted: the outcome depends on the input bytes alone, so it is the one
/// that `alt_bn128_addition_result` names, and a sum is written in 64 bytes.
#[verifier::external_body]
fn curve_addition(input: &[u8]) -> (result: Result<
    Vec<u8>,
    anchor_lang::solana_program::alt_bn128::AltBn128Error,
>)
    ensures
        match result {
            Ok(sum) => alt_bn128_addition_result(input@) == Some(sum@),
            Err(_) => alt_bn128_addition_result(input@) is None,
        },
        result matches Ok(sum) ==> sum@.len() == 64,
{
    anchor_lang::solana_program::alt_bn128::prelude::alt_bn128_addition(input)
}

/// Calls `anchor_lang::solana_program::alt_bn128::prelude::alt_bn128_multiplication`.
/// Trusted: the outcome depends on the input bytes alone, so it is the one
/// that `alt_bn128_multiplication_result` names, and a product is written in
/// 64 bytes.
#[verifier::external_body]
fn curve_multiplication(input: &[u8]) -> (result: Result<
    Vec<u8>,
    anchor_lang::solana_program::alt_bn128::AltBn128Error,
>)
    ensures
        match result {
            Ok(product) => alt_bn128_multiplication_result(input@) == Some(product@),
            Err(_) => alt_bn128_multiplication_result(input@) is None,
        },
        result matches Ok(product) ==> product@.len() == 64,
{
    anchor_lang::solana_program::alt_bn128::prelude::alt_bn128_multiplication(input)
}

/// Calls `anchor_lang::solana_program::alt_bn128::prelude::alt_bn128_pairing`.
/// Trusted: the outcome depends on the input bytes alone, so it is the one
/// that `alt_bn128_pairing_result` names.
#[verifier::external_body]
fn curve_pairing(input: &[u8]) -> (result: Result<
    Vec<u8>,
    anchor_lang::solana_program::alt_bn128::AltBn128Error,
>)
    ensures
        match result {
            Ok(verdict) => alt_bn128_pairing_result(input@) == Some(verdict@),
            Err(_) => alt_bn128_pairing_result(input@) is None,
        },
{
    anchor_lang::solana_program::alt_bn128::prelude::alt_bn128_pairing(input)
}

/// Whether every byte is zero.
pub open spec fn all_zero(bytes: Seq<u8>) -> bool {
    forall|i: int| 0 <= i < bytes.len() ==> bytes[i] == 0
}

/// Whether every byte of `bytes` is zero.
pub fn is_all_zero(bytes: &[u8]) -> (zero: bool)
    ensures
        zero == all_zero(bytes@),
{
    let mut i: usize = 0;
    while i < bytes.len()
        invariant
            i <= bytes@.len(),
            forall|k: int| 0 <= k < i ==> bytes@[k] == 0,
        decreases bytes@.len() - i,
    {
        if bytes[i] != 0 {
            return false;
        }
        i += 1;
    }
    true
}

/// Appends the bytes of `source` to `buffer`.
pub fn append_bytes(buffer: &mut Vec<u8>, source: &[u8])
    ensures
        final(buffer)@ == old(buffer)@ + source@,
{
    let mut i: usize = 0;
    while i < source.len()
        invariant
            i <= source@.len(),
            buffer@ == old(buffer)@ + source@.take(i as int),
        decreases source@.len() - i,
    {
        buffer.push(source[i]);
        assert(source@.take(i + 1) =~= source@.take(i as int).push(source@[i as int]));
        assert(buffer@ =~= old(buffer)@ + source@.take(i + 1));
        i += 1;
    }
    assert(source@.take(source@.len() as int) =~= source@);
}

/// The 32 bytes of `source` that start at `from`.
pub fn word_at(source: &[u8], from: usize) -> (word: [u8; 32])
    requires
        from + 32 <= source@.len(),
    ensures
        word@ == source@.subrange(from as int, from + 32),
{
    let mut word = [0u8; 32];
    let total: usize = source.len();
    let mut i: usize = 0;
    while i < 32
        invariant
            i <= 32,
            from + 32 <= total,
            total == source@.len(),
            forall|k: int| 0 <= k < i ==> word@[k] == source@[from + k],
        decreases 32 - i,
    {
        word[i] = source[from + i];
        i += 1;
    }
    assert(word@ =~= source@.subrange(from as int, from + 32));
    word
}

/// The 64 bytes of `source` that start at `from`.
pub fn point_at(source: &[u8], from: usize) -> (point: [u8; 64])
    requires
        from + 64 <= source@.len(),
    ensures
        point@ == source@.subrange(from as int, from + 64),
{
    let mut point = [0u8; 64];
    let total: usize = source.len();
    let mut i: usize = 0;
    while i < 64
        invariant
            i <= 64,
            from + 64 <= total,
            total == source@.len(),
            forall|k: int| 0 <= k < i ==> point@[k] == source@[from + k],
        decreases 64 - i,
    {
        point[i] = source[from + i];
        i += 1;
    }
    assert(point@ =~= source@.subrange(from as int, from + 64));
    point
}

/// The byte sequences held by a sequence of G1 points.
pub open spec fn points(values: Seq<[u8; 64]>) -> Seq<Seq<u8>> {
    Seq::new(values.len(), |i: int| values[i]@)
}

/// The bytes of an optional point.
pub open spec fn point_view(point: Option<[u8; 64]>) -> Option<Seq<u8>> {
    match point {
        Some(p) => Some(p@),
        None => None,
    }
}

/// The sum of two G1 points, where both are points of the group.
pub open spec fn g1_sum(p: Seq<u8>, q: Seq<u8>) -> Option<Seq<u8>> {
    alt_bn128_addition_result(p + q)
}

/// The G1 point `p` taken `scalar` times, where `p` is a point of the group.
pub open spec fn g1_product(p: Seq<u8>, scalar: Seq<u8>) -> Option<Seq<u8>> {
    alt_bn128_multiplication_result(p + scalar)
}

/// The number 1 in 32 bytes: the verdict of a pairing check that holds.
pub open spec fn pairing_one() -> Seq<u8> {
    Seq::new(32, |i: int| if i == 31 { 1u8 } else { 0u8 })
}

/// Whether the product of the pairings of the pairs in `input` is the identity.
pub open spec fn pairing_holds(input: Seq<u8>) -> bool {
    alt_bn128_pairing_result(input) == Some(pairing_one())
}

/// The inverse of the G1 point `p` (64 bytes): the same first coordinate and
/// the modulus less the second.  Infinity is its own inverse.  There is none
/// where the second coordinate exceeds the modulus.
pub open spec fn g1_negation(p: Seq<u8>) -> Option<Seq<u8>> {
    let x = p.subrange(0, 32);
    let y = p.subrange(32, 64);
    if all_zero(p) {
        Some(p)
    } else if be_value(base_field_modulus()) < be_value(y) {
        None
    } else {
        Some(x + be_bytes((be_value(base_field_modulus()) - be_value(y)) as nat, 32))
    }
}

/// Adds two G1 points.
pub fn g1_add(p: &[u8; 64], q: &[u8; 64]) -> (sum: Option<[u8; 64]>)
    ensures
        point_view(sum) == g1_sum(p@, q@),
{
    let mut input: Vec<u8> = Vec::new();
    append_bytes(&mut input, p.as_slice());
    append_bytes(&mut input, q.as_slice());
    assert(input@ =~= p@ + q@);
    match curve_addition(input.as_slice()) {
        Ok(sum) => {
            assert(sum@.subrange(0, 64) =~= sum@);
            Some(point_at(sum.as_slice(), 0))
        },
        Err(_) => None,
    }
}

/// Multiplies a G1 point by a scalar.
pub fn g1_scalar_mul(p: &[u8; 64], scalar: &[u8; 32]) -> (product: Option<[u8; 64]>)
    ensures
        point_view(product) == g1_product(p@, scalar@),
{
    let mut input: Vec<u8> = Vec::new();
    append_bytes(&mut input, p.as_slice());
    append_bytes(&mut input, scalar.as_slice());
    assert(input@ =~= p@ + scalar@);
    match curve_multiplication(input.as_slice()) {
        Ok(product) => {
            assert(product@.subrange(0, 64) =~= product@);
            Some(point_at(product.as_slice(), 0))
        },
        Err(_) => None,
    }
}

/// Negates a G1 point.
pub fn g1_negate(p: &[u8; 64]) -> (negated: Option<[u8; 64]>)
    ensures
        point_view(negated) == g1_negation(p@),
{
    if is_all_zero(p.as_slice()) {
        return Some(*p);
    }
    let y = word_at(p.as_slice(), 32);
    let q = base_field_modulus_bytes();
    let (mirrored, borrowed) = be_sub(&q, &y);
    if borrowed {
        return None;
    }
    let mut bytes: Vec<u8> = Vec::new();
    append_bytes(&mut bytes, slice_subrange(p.as_slice(), 0, 32));
    append_bytes(&mut bytes, mirrored.as_slice());
    assert(bytes@.subrange(0, 64) =~= bytes@);
    Some(point_at(bytes.as_slice(), 0))
}

/// Whether `verdict`, the output of a pairing check, says that the check holds.
pub fn is_pairing_one(verdict: &Vec<u8>) -> (holds: bool)
    ensures
        holds == (verdict@ == pairing_one()),
{
    if verdict.len() != 32 {
        return false;
    }
    if verdict[31] != 1 {
        return false;
    }
    let zero = is_all_zero(slice_subrange(verdict.as_slice(), 0, 31));
    proof {
        if zero {
            assert forall|i: int| 0 <= i < 32 implies verdict@[i] == pairing_one()[i] by {
                if i < 31 {
                    assert(verdict@.subrange(0, 31)[i] == 0);
                }
            }
            assert(verdict@ =~= pairing_one());
        } else {
            let at = choose|i: int| 0 <= i < 31 && verdict@.subrange(0, 31)[i] != 0;
            assert(verdict@[at] != pairing_one()[at]);
        }
    }
    zero
}

/// Runs the pairing check on a list of (G1, G2) pairs.
pub fn pairing_check(input: &Vec<u8>) -> (holds: bool)
    ensures
        holds == pairing_holds(input@),
{
    match curve_pairing(input.as_slice()) {
        Ok(verdict) => is_pairing_one(&verdict),
        Err(_) => false,
    }
}

} // verus!
