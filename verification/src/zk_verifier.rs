//! The proof verifier: structure and bindings of a proof bundle, the pairing
//! equation against a verification key, and membership paths.
//!
//! A proof is 256 bytes: the G1 point A (64 bytes), the G2 point B (128
//! bytes) and the G1 point C (64 bytes).  The public signals are 32-byte
//! big-endian field elements; slot 0 is the nullifier, slot 1 the Merkle root
//! and slot 2 the value commitment.
use crate::bn254::{
    all_zero, append_bytes, g1_add, g1_negate, g1_negation, g1_product, g1_scalar_mul, g1_sum,
    is_all_zero, pairing_check, pairing_holds, point_at, point_view, points,
};
use crate::field::{be_less_than, be_value, scalar_field_order, scalar_field_order_bytes};
use crate::hash::{digest_eq, digests, hash2};
use crate::merkle::{climb, lemma_path_verifies, merkle_path, path_sides, tree_root};
use crate::state::nullifier::{AlreadyUsed, NullifierLedger};
use crate::state::TREE_DEPTH;
use vstd::arithmetic::power2::pow2;
use vstd::prelude::*;
use vstd::slice::slice_subrange;

verus! {

/// Length of a proof in bytes.
pub const PROOF_BYTES: usize = 256;

/// Why a proof bundle or a membership path was refused.
#[derive(Debug, PartialEq, Eq, Structural, Clone, Copy)]
pub enum ErrorCode {
    /// The proof is not 256 bytes long, or one of its points is all zeros.
    MalformedProof,
    /// Fewer than three public signals.
    InvalidSignalCount,
    /// The root among the signals, or the root that a membership path leads
    /// to, is not the expected one.
    RootMismatch,
    /// The value commitment among the signals is not the expected one.
    ValueMismatch,
    /// The pairing equation does not hold.
    InvalidProof,
    /// A membership path and its list of sides differ in length.
    MerkleProofMismatch,
    /// A membership path is longer than the tree is deep.
    MerkleProofTooLong,
}

/// The verification key of the spend circuit.
pub struct VerificationKey {
    /// The G1 point alpha.
    pub alpha_g1: [u8; 64],
    /// The G2 point beta.
    pub beta_g2: [u8; 128],
    /// The G2 point gamma.
    pub gamma_g2: [u8; 128],
    /// The G2 point delta.
    pub delta_g2: [u8; 128],
    /// One G1 point for the constant term and one for each public signal.
    pub ic: Vec<[u8; 64]>,
}

/// The point A of a proof.
pub open spec fn proof_a(proof: Seq<u8>) -> Seq<u8> {
    proof.subrange(0, 64)
}

/// The point B of a proof.
pub open spec fn proof_b(proof: Seq<u8>) -> Seq<u8> {
    proof.subrange(64, 192)
}

/// The point C of a proof.
pub open spec fn proof_c(proof: Seq<u8>) -> Seq<u8> {
    proof.subrange(192, 256)
}

/// A proof of the right length none of whose three points is all zeros.
pub open spec fn well_formed(proof: Seq<u8>) -> bool {
    &&& proof.len() == PROOF_BYTES
    &&& !all_zero(proof_a(proof))
    &&& !all_zero(proof_b(proof))
    &&& !all_zero(proof_c(proof))
}

/// The bytes of an optional 32-byte value.
pub open spec fn word_view(word: Option<[u8; 32]>) -> Option<Seq<u8>> {
    match word {
        Some(w) => Some(w@),
        None => None,
    }
}

/// The outcome of the checks that need no cryptography, in their order:
/// shape of the proof, number of signals, root, value commitment.
pub open spec fn binding_outcome(
    proof: Seq<u8>,
    signals: Seq<Seq<u8>>,
    expected_root: Seq<u8>,
    expected_amount_commitment: Option<Seq<u8>>,
) -> Result<(), ErrorCode> {
    if !well_formed(proof) {
        Err(ErrorCode::MalformedProof)
    } else if signals.len() < 3 {
        Err(ErrorCode::InvalidSignalCount)
    } else if signals[1] != expected_root {
        Err(ErrorCode::RootMismatch)
    } else if expected_amount_commitment is Some && signals[2] != expected_amount_commitment->0 {
        Err(ErrorCode::ValueMismatch)
    } else {
        Ok(())
    }
}

/// Every signal is a number below the scalar field's modulus.
pub open spec fn canonical_signals(signals: Seq<Seq<u8>>) -> bool {
    forall|i: int|
        0 <= i < signals.len() ==> be_value(#[trigger] signals[i]) < be_value(
            scalar_field_order(),
        )
}

/// The key's constant point plus, for each of the first `count` signals, the
/// key's point for that signal taken signal times.
pub open spec fn input_point(ic: Seq<Seq<u8>>, signals: Seq<Seq<u8>>, count: nat) -> Option<
    Seq<u8>,
>
    decreases count,
{
    if count == 0 {
        Some(ic[0])
    } else {
        match input_point(ic, signals, (count - 1) as nat) {
            None => None,
            Some(sum) => match g1_product(ic[count as int], signals[count - 1]) {
                None => None,
                Some(term) => g1_sum(sum, term),
            },
        }
    }
}

/// The four pairs of the pairing equation: (-A, B), (alpha, beta),
/// (input point, gamma) and (C, delta).
pub open spec fn pairing_input(
    key: VerificationKey,
    proof: Seq<u8>,
    negated_a: Seq<u8>,
    inputs: Seq<u8>,
) -> Seq<u8> {
    negated_a + proof_b(proof) + key.alpha_g1@ + key.beta_g2@ + inputs + key.gamma_g2@ + proof_c(
        proof,
    ) + key.delta_g2@
}

/// Whether the proof satisfies the pairing equation
/// `e(A, B) = e(alpha, beta) * e(inputs, gamma) * e(C, delta)` for these
/// signals, stated as `e(-A, B) * e(alpha, beta) * e(inputs, gamma) * e(C, delta) = 1`.
pub open spec fn proof_accepted(key: VerificationKey, proof: Seq<u8>, signals: Seq<Seq<u8>>) -> bool {
    let inputs = input_point(points(key.ic@), signals, signals.len());
    let negated_a = g1_negation(proof_a(proof));
    &&& proof.len() == PROOF_BYTES
    &&& key.ic@.len() == signals.len() + 1
    &&& canonical_signals(signals)
    &&& inputs is Some
    &&& negated_a is Some
    &&& pairing_holds(pairing_input(key, proof, negated_a->0, inputs->0))
}

/// The outcome of verification: the first failing check names the error;
/// where none fails, the nullifier in slot 0 is returned.
pub open spec fn verify_outcome(
    key: VerificationKey,
    proof: Seq<u8>,
    signals: Seq<Seq<u8>>,
    expected_root: Seq<u8>,
    expected_amount_commitment: Option<Seq<u8>>,
) -> Result<Seq<u8>, ErrorCode> {
    match binding_outcome(proof, signals, expected_root, expected_amount_commitment) {
        Err(e) => Err(e),
        Ok(_) => if proof_accepted(key, proof, signals) {
            Ok(signals[0])
        } else {
            Err(ErrorCode::InvalidProof)
        },
    }
}

/// The bytes of a verified nullifier, or the error.
pub open spec fn nullifier_view(result: Result<[u8; 32], ErrorCode>) -> Result<Seq<u8>, ErrorCode> {
    match result {
        Ok(n) => Ok(n@),
        Err(e) => Err(e),
    }
}

/// A proof of 256 zero bytes is malformed, whatever the key, the signals and
/// the expected values are.
pub proof fn lemma_zero_proof_is_malformed(
    key: VerificationKey,
    proof: Seq<u8>,
    signals: Seq<Seq<u8>>,
    expected_root: Seq<u8>,
    expected_amount_commitment: Option<Seq<u8>>,
)
    requires
        proof.len() == PROOF_BYTES,
        all_zero(proof),
    ensures
        verify_outcome(key, proof, signals, expected_root, expected_amount_commitment) == Err::<
            Seq<u8>,
            ErrorCode,
        >(ErrorCode::MalformedProof),
{
    assert(all_zero(proof_a(proof)));
}

/// A well-formed proof with at least three signals whose root slot differs
/// from the expected root fails with `RootMismatch`, whether or not the
/// pairing equation holds.
pub proof fn lemma_root_mismatch_comes_first(
    key: VerificationKey,
    proof: Seq<u8>,
    signals: Seq<Seq<u8>>,
    expected_root: Seq<u8>,
    expected_amount_commitment: Option<Seq<u8>>,
)
    requires
        well_formed(proof),
        signals.len() >= 3,
        signals[1] != expected_root,
    ensures
        verify_outcome(key, proof, signals, expected_root, expected_amount_commitment) == Err::<
            Seq<u8>,
            ErrorCode,
        >(ErrorCode::RootMismatch),
{
}

/// Once the sum over the first signals is undefined, so is every longer sum.
proof fn lemma_input_point_stays_undefined(
    ic: Seq<Seq<u8>>,
    signals: Seq<Seq<u8>>,
    count: nat,
    later: nat,
)
    requires
        count <= later,
        input_point(ic, signals, count) is None,
    ensures
        input_point(ic, signals, later) is None,
    decreases later,
{
    if count < later {
        lemma_input_point_stays_undefined(ic, signals, count, (later - 1) as nat);
    }
}

/// Checks shape and bindings of a proof bundle, before any cryptography.
pub fn check_bindings(
    proof: &Vec<u8>,
    public_signals: &Vec<[u8; 32]>,
    expected_root: &[u8; 32],
    expected_amount_commitment: Option<[u8; 32]>,
) -> (result: Result<(), ErrorCode>)
    ensures
        result == binding_outcome(
            proof@,
            digests(public_signals@),
            expected_root@,
            word_view(expected_amount_commitment),
        ),
{
    if proof.len() != PROOF_BYTES {
        return Err(ErrorCode::MalformedProof);
    }
    let bytes = proof.as_slice();
    if is_all_zero(slice_subrange(bytes, 0, 64)) || is_all_zero(slice_subrange(bytes, 64, 192))
        || is_all_zero(slice_subrange(bytes, 192, 256)) {
        return Err(ErrorCode::MalformedProof);
    }
    if public_signals.len() < 3 {
        return Err(ErrorCode::InvalidSignalCount);
    }
    if !digest_eq(&public_signals[1], expected_root) {
        return Err(ErrorCode::RootMismatch);
    }
    match expected_amount_commitment {
        Some(expected) => {
            if !digest_eq(&public_signals[2], &expected) {
                return Err(ErrorCode::ValueMismatch);
            }
        },
        None => {},
    }
    Ok(())
}

/// Whether every signal is below the scalar field's modulus.
pub fn signals_are_canonical(public_signals: &Vec<[u8; 32]>) -> (canonical: bool)
    ensures
        canonical == canonical_signals(digests(public_signals@)),
{
    let order = scalar_field_order_bytes();
    let mut i: usize = 0;
    while i < public_signals.len()
        invariant
            i <= public_signals@.len(),
            order@ == scalar_field_order(),
            forall|k: int|
                0 <= k < i ==> be_value(#[trigger] digests(public_signals@)[k]) < be_value(
                    scalar_field_order(),
                ),
        decreases public_signals@.len() - i,
    {
        if !be_less_than(&public_signals[i], &order) {
            assert(digests(public_signals@)[i as int] == public_signals@[i as int]@);
            return false;
        }
        i += 1;
    }
    true
}

/// Folds the public signals into the key: the key's constant point plus each
/// signal times its point.  There is no result where the curve operations
/// refuse a point.
pub fn accumulate_inputs(ic: &Vec<[u8; 64]>, public_signals: &Vec<[u8; 32]>) -> (inputs: Option<
    [u8; 64],
>)
    requires
        ic@.len() == public_signals@.len() + 1,
    ensures
        point_view(inputs) == input_point(
            points(ic@),
            digests(public_signals@),
            public_signals@.len(),
        ),
{
    let ghost key_points = points(ic@);
    let ghost signals = digests(public_signals@);
    let mut sum: [u8; 64] = ic[0];
    let mut i: usize = 0;
    while i < public_signals.len()
        invariant
            i <= public_signals@.len(),
            ic@.len() == public_signals@.len() + 1,
            key_points == points(ic@),
            signals == digests(public_signals@),
            input_point(key_points, signals, i as nat) == Some(sum@),
        decreases public_signals@.len() - i,
    {
        assert(key_points[i + 1] == ic@[i + 1]@);
        assert(signals[i as int] == public_signals@[i as int]@);
        let term = match g1_scalar_mul(&ic[i + 1], &public_signals[i]) {
            Some(term) => term,
            None => {
                proof {
                    lemma_input_point_stays_undefined(
                        key_points,
                        signals,
                        (i + 1) as nat,
                        public_signals@.len(),
                    );
                }
                return None;
            },
        };
        sum = match g1_add(&sum, &term) {
            Some(next) => next,
            None => {
                proof {
                    lemma_input_point_stays_undefined(
                        key_points,
                        signals,
                        (i + 1) as nat,
                        public_signals@.len(),
                    );
                }
                return None;
            },
        };
        i += 1;
    }
    Some(sum)
}

/// Evaluates the pairing equation of the proof against the key.
pub fn check_pairing(key: &VerificationKey, proof: &Vec<u8>, public_signals: &Vec<[u8; 32]>) -> (accepted:
    bool)
    ensures
        accepted == proof_accepted(*key, proof@, digests(public_signals@)),
{
    if proof.len() != PROOF_BYTES {
        return false;
    }
    if key.ic.len() == 0 || key.ic.len() - 1 != public_signals.len() {
        return false;
    }
    if !signals_are_canonical(public_signals) {
        return false;
    }
    let inputs = match accumulate_inputs(&key.ic, public_signals) {
        Some(inputs) => inputs,
        None => {
            return false;
        },
    };
    let bytes = proof.as_slice();
    let a_point = point_at(bytes, 0);
    let negated_a = match g1_negate(&a_point) {
        Some(negated) => negated,
        None => {
            return false;
        },
    };
    let mut input: Vec<u8> = Vec::new();
    append_bytes(&mut input, negated_a.as_slice());
    append_bytes(&mut input, slice_subrange(bytes, 64, 192));
    append_bytes(&mut input, key.alpha_g1.as_slice());
    append_bytes(&mut input, key.beta_g2.as_slice());
    append_bytes(&mut input, inputs.as_slice());
    append_bytes(&mut input, key.gamma_g2.as_slice());
    append_bytes(&mut input, slice_subrange(bytes, 192, 256));
    append_bytes(&mut input, key.delta_g2.as_slice());
    pairing_check(&input)
}

/// Verifies a proof bundle against the key and the expected root and value
/// commitment.  The checks run in order and the first failure decides:
/// shape of the proof, number of signals, root, value commitment (where one
/// is expected), pairing equation.  On success the nullifier in slot 0 is
/// returned; the ledger is not touched.
pub fn verify_proof(
    key: &VerificationKey,
    proof: &Vec<u8>,
    public_signals: &Vec<[u8; 32]>,
    expected_root: &[u8; 32],
    expected_amount_commitment: Option<[u8; 32]>,
) -> (result: Result<[u8; 32], ErrorCode>)
    ensures
        nullifier_view(result) == verify_outcome(
            *key,
            proof@,
            digests(public_signals@),
            expected_root@,
            word_view(expected_amount_commitment),
        ),
{
    match check_bindings(proof, public_signals, expected_root, expected_amount_commitment) {
        Err(e) => {
            return Err(e);
        },
        Ok(_) => {},
    }
    if check_pairing(key, proof, public_signals) {
        Ok(public_signals[0])
    } else {
        Err(ErrorCode::InvalidProof)
    }
}

/// The outcome of checking a membership path: the path and its sides must
/// agree in length, the path must not be longer than the tree is deep, and
/// climbing from the commitment must end at the root.
pub open spec fn commitment_outcome(
    commitment: Seq<u8>,
    merkle_root: Seq<u8>,
    merkle_proof: Seq<Seq<u8>>,
    merkle_indices: Seq<u8>,
) -> Result<(), ErrorCode> {
    if merkle_proof.len() != merkle_indices.len() {
        Err(ErrorCode::MerkleProofMismatch)
    } else if merkle_proof.len() > TREE_DEPTH {
        Err(ErrorCode::MerkleProofTooLong)
    } else if climb(commitment, merkle_proof, merkle_indices, merkle_proof.len()) != merkle_root {
        Err(ErrorCode::RootMismatch)
    } else {
        Ok(())
    }
}

/// In a tree no deeper than `TREE_DEPTH`, the membership path of an inserted
/// leaf, with the sides that its index gives, is accepted against the root.
pub proof fn lemma_path_is_accepted(depth: nat, leaves: Seq<Seq<u8>>, slot: nat)
    requires
        depth <= TREE_DEPTH,
        slot < leaves.len() <= pow2(depth),
    ensures
        commitment_outcome(
            leaves[slot as int],
            tree_root(depth, leaves),
            merkle_path(depth, leaves, slot),
            path_sides(depth, slot),
        ) == Ok::<(), ErrorCode>(()),
{
    lemma_path_verifies(depth, leaves, slot);
}

/// Checks that `commitment` lies in the tree with root `merkle_root`, by the
/// membership path `merkle_proof`.  `merkle_indices` tells for each level
/// whether the path's node is a left child (0) or a right child (any other
/// value).
pub fn verify_commitment(
    commitment: &[u8; 32],
    merkle_root: &[u8; 32],
    merkle_proof: &Vec<[u8; 32]>,
    merkle_indices: &Vec<u8>,
) -> (result: Result<(), ErrorCode>)
    ensures
        result == commitment_outcome(
            commitment@,
            merkle_root@,
            digests(merkle_proof@),
            merkle_indices@,
        ),
{
    if merkle_proof.len() != merkle_indices.len() {
        return Err(ErrorCode::MerkleProofMismatch);
    }
    if merkle_proof.len() > TREE_DEPTH {
        return Err(ErrorCode::MerkleProofTooLong);
    }
    let ghost path = digests(merkle_proof@);
    let mut node: [u8; 32] = *commitment;
    let mut level: usize = 0;
    while level < merkle_proof.len()
        invariant
            level <= merkle_proof@.len(),
            merkle_proof@.len() == merkle_indices@.len(),
            path == digests(merkle_proof@),
            node@ == climb(commitment@, path, merkle_indices@, level as nat),
        decreases merkle_proof@.len() - level,
    {
        assert(path[level as int] == merkle_proof@[level as int]@);
        if merkle_indices[level] == 0 {
            node = hash2(&node, &merkle_proof[level]);
        } else {
            node = hash2(&merkle_proof[level], &node);
        }
        level += 1;
    }
    if digest_eq(&node, merkle_root) {
        Ok(())
    } else {
        Err(ErrorCode::RootMismatch)
    }
}

/// Checks that `nullifier` has not been consumed, without consuming it.
pub fn verify_nullifier_unused(ledger: &NullifierLedger, nullifier: &[u8; 32]) -> (result: Result<
    (),
    AlreadyUsed,
>)
    requires
        ledger.wf(),
    ensures
        result is Ok <==> !ledger@.contains(nullifier@),
{
    if ledger.is_consumed(nullifier) {
        Err(AlreadyUsed)
    } else {
        Ok(())
    }
}

} // verus!
