//! Spending a note: the coordinator takes one request through root check,
//! proof verification, nullifier consumption and transfer.
use crate::field::be_bytes;
use crate::hash::digests;
use crate::state::nullifier::NullifierLedger;
use crate::state::{is_known, AccumulatorView, State};
use crate::zk_verifier::{verify_outcome, verify_proof, VerificationKey};
use vstd::pervasive::unreached;
use vstd::prelude::*;

verus! {

/// Why a spend was rejected.
#[derive(Debug, PartialEq, Eq, Structural, Clone, Copy)]
pub enum ErrorCode {
    /// The claimed root is neither the current root nor in the history.
    StaleOrUnknownRoot,
    /// The proof bundle did not verify; the verifier's error says why.
    ProofInvalid(crate::zk_verifier::ErrorCode),
    /// The nullifier was consumed before.
    DoubleSpend,
    /// The pool does not hold the amount.
    TransferFailed,
}

/// A proof with its public signals.
pub struct ProofBundle {
    /// The 256 bytes of the proof.
    pub proof_bytes: Vec<u8>,
    /// The public signals: nullifier, root, value commitment, then whatever
    /// else the circuit declares.
    pub public_signals: Vec<[u8; 32]>,
}

/// One spend, as submitted.
pub struct SpendRequest {
    /// The root against which the proof was made.
    pub claimed_root: [u8; 32],
    /// The value to move from the pool to the recipient.
    pub amount: u64,
    /// The proof and its public signals.
    pub proof_bundle: ProofBundle,
    /// The key under which the host files the nullifier's record.  The
    /// coordinator consumes the nullifier that the proof binds, which is
    /// slot 0 of the public signals.
    pub nullifier_seed: [u8; 32],
}

/// What a completed spend did.
#[derive(Debug, PartialEq, Eq, Clone, Copy)]
pub struct SpendReceipt {
    /// The nullifier that was consumed.
    pub nullifier: [u8; 32],
    /// The value that left the pool.
    pub amount: u64,
    /// The root against which the spend was proved.
    pub root: [u8; 32],
    /// Logical time of the nullifier's consumption.
    pub consumed_at: u64,
}

/// The pool: accumulator, ledger, verification key and balance.
pub struct SpendCoordinator {
    /// The commitment accumulator.
    pub state: State,
    /// The consumed nullifiers.
    pub ledger: NullifierLedger,
    /// The verification key of the spend circuit.
    pub verification_key: VerificationKey,
    /// The value that the pool holds.
    pub pool_balance: u64,
}

/// The value commitment that binds a proof to `amount`: the amount as a
/// 32-byte big-endian field element.
pub open spec fn amount_commitment(amount: u64) -> Seq<u8> {
    be_bytes(amount as nat, 32)
}

/// The outcome of a spend: the nullifier to consume, or the reason of the
/// rejection.  The checks run in this order: root, proof, nullifier, balance.
pub open spec fn spend_outcome(
    state: AccumulatorView,
    consumed: Seq<Seq<u8>>,
    key: VerificationKey,
    pool_balance: u64,
    request: SpendRequest,
) -> Result<Seq<u8>, ErrorCode> {
    if !is_known(state, request.claimed_root@) {
        Err(ErrorCode::StaleOrUnknownRoot)
    } else {
        match proof_outcome(key, request) {
            Err(e) => Err(ErrorCode::ProofInvalid(e)),
            Ok(nullifier) => if consumed.contains(nullifier) {
                Err(ErrorCode::DoubleSpend)
            } else if request.amount > pool_balance {
                Err(ErrorCode::TransferFailed)
            } else {
                Ok(nullifier)
            },
        }
    }
}

/// The nullifier of a receipt, or the error.
pub open spec fn receipt_view(result: Result<SpendReceipt, ErrorCode>) -> Result<
    Seq<u8>,
    ErrorCode,
> {
    match result {
        Ok(receipt) => Ok(receipt.nullifier@),
        Err(e) => Err(e),
    }
}

/// A request that was completed is rejected as a double spend when it is
/// submitted again, whatever the pool holds by then and whatever was
/// inserted into the accumulator in between, as long as the claimed root is
/// still known.
pub proof fn lemma_replay_is_double_spend(
    state: AccumulatorView,
    consumed: Seq<Seq<u8>>,
    key: VerificationKey,
    pool_balance: u64,
    request: SpendRequest,
    later_state: AccumulatorView,
    later_balance: u64,
)
    requires
        spend_outcome(state, consumed, key, pool_balance, request) is Ok,
        is_known(later_state, request.claimed_root@),
    ensures
        spend_outcome(
            later_state,
            consumed.push(spend_outcome(state, consumed, key, pool_balance, request)->Ok_0),
            key,
            later_balance,
            request,
        ) == Err::<Seq<u8>, ErrorCode>(ErrorCode::DoubleSpend),
{
    let nullifier = spend_outcome(state, consumed, key, pool_balance, request)->Ok_0;
    assert(consumed.push(nullifier)[consumed.len() as int] == nullifier);
}

/// The bytes that bind a proof to `amount`.
pub fn amount_commitment_bytes(amount: u64) -> (commitment: [u8; 32])
    ensures
        commitment@ == amount_commitment(amount),
{
    let mut commitment = [0u8; 32];
    let mut rest: u64 = amount;
    let mut i: usize = 32;
    assert(commitment@.subrange(32, 32) =~= Seq::<u8>::empty());
    while i > 0
        invariant
            i <= 32,
            be_bytes(amount as nat, 32) == be_bytes(rest as nat, i as nat) + commitment@.subrange(
                i as int,
                32,
            ),
        decreases i,
    {
        let ghost written = commitment@;
        i -= 1;
        commitment[i] = (rest % 256) as u8;
        proof {
            assert(commitment@.subrange(i as int, 32) =~= seq![(rest % 256) as u8]
                + written.subrange(i + 1, 32));
            assert(be_bytes(rest as nat, (i + 1) as nat) == be_bytes(
                rest as nat / 256,
                i as nat,
            ).push((rest % 256) as u8));
            assert(be_bytes(rest as nat / 256, i as nat).push((rest % 256) as u8)
                + written.subrange(i + 1, 32) =~= be_bytes(rest as nat / 256, i as nat)
                + commitment@.subrange(i as int, 32));
        }
        rest = rest / 256;
    }
    assert(commitment@.subrange(0, 32) =~= commitment@);
    assert(be_bytes(rest as nat, 0) + commitment@ =~= commitment@);
    commitment
}

/// Where a spend stands on its way from request to receipt.  `Complete` and
/// `Rejected` are final.
pub enum SpendPhase {
    /// The request has arrived; nothing has been checked.
    Received,
    /// The claimed root is known.
    RootChecked,
    /// The proof has verified and bound this nullifier.
    ProofVerified { nullifier: [u8; 32] },
    /// The nullifier has been consumed; the pool still holds the amount.
    NullifierConsumed { nullifier: [u8; 32], consumed_at: u64 },
    /// The amount has left the pool.
    ValueTransferred { receipt: SpendReceipt },
    /// The spend is done.
    Complete { receipt: SpendReceipt },
    /// The spend was refused; nothing was changed.
    Rejected { reason: ErrorCode },
}

/// What the verifier says of a request's proof bundle, bound to the
/// request's root and amount.
pub open spec fn proof_outcome(key: VerificationKey, request: SpendRequest) -> Result<
    Seq<u8>,
    crate::zk_verifier::ErrorCode,
> {
    verify_outcome(
        key,
        request.proof_bundle.proof_bytes@,
        digests(request.proof_bundle.public_signals@),
        request.claimed_root@,
        Some(amount_commitment(request.amount)),
    )
}

impl SpendCoordinator {
    /// Accumulator and ledger are well formed.
    pub open spec fn wf(&self) -> bool {
        self.state.wf() && self.ledger.wf()
    }

    /// What must hold of pool and request for a spend to stand at `phase`.
    pub open spec fn reached(&self, phase: SpendPhase, request: SpendRequest) -> bool {
        match phase {
            SpendPhase::Received => true,
            SpendPhase::RootChecked => is_known(self.state@, request.claimed_root@),
            SpendPhase::ProofVerified { nullifier } => {
                &&& is_known(self.state@, request.claimed_root@)
                &&& proof_outcome(self.verification_key, request) == Ok::<
                    Seq<u8>,
                    crate::zk_verifier::ErrorCode,
                >(nullifier@)
            },
            SpendPhase::NullifierConsumed { nullifier, consumed_at } => {
                &&& request.amount <= self.pool_balance
                &&& self.ledger@.len() > 0
                &&& self.ledger@.last() == nullifier@
                &&& consumed_at == self.ledger@.len() - 1
            },
            SpendPhase::ValueTransferred { receipt } => true,
            SpendPhase::Complete { receipt } => true,
            SpendPhase::Rejected { reason } => true,
        }
    }

    /// Takes a spend one step further.
    ///
    /// - `Received`: the claimed root must be known, else the spend is
    ///   rejected as stale.
    /// - `RootChecked`: the proof must verify against the claimed root and
    ///   the amount, else the spend is rejected with the verifier's error.
    /// - `ProofVerified`: the nullifier must be fresh and the pool must hold
    ///   the amount; then the nullifier is consumed.  Because the balance is
    ///   checked here, the transfer that follows cannot fail.
    /// - `NullifierConsumed`: the amount leaves the pool.
    /// - `ValueTransferred`: the spend completes.
    ///
    /// A final phase stays as it is.
    fn advance(&mut self, phase: SpendPhase, request: &SpendRequest) -> (next: SpendPhase)
        requires
            old(self).wf(),
            old(self).reached(phase, *request),
        ensures
            final(self).wf(),
            final(self).reached(next, *request),
            final(self).state == old(self).state,
            final(self).verification_key == old(self).verification_key,
            match phase {
                SpendPhase::Received => {
                    &&& *final(self) == *old(self)
                    &&& next == if is_known(old(self).state@, request.claimed_root@) {
                        SpendPhase::RootChecked
                    } else {
                        SpendPhase::Rejected { reason: ErrorCode::StaleOrUnknownRoot }
                    }
                },
                SpendPhase::RootChecked => {
                    &&& *final(self) == *old(self)
                    &&& match proof_outcome(old(self).verification_key, *request) {
                        Ok(bound) => next matches SpendPhase::ProofVerified { nullifier }
                            && nullifier@ == bound,
                        Err(e) => next == SpendPhase::Rejected {
                            reason: ErrorCode::ProofInvalid(e),
                        },
                    }
                },
                SpendPhase::ProofVerified { nullifier } => {
                    if old(self).ledger@.contains(nullifier@) {
                        &&& *final(self) == *old(self)
                        &&& next == SpendPhase::Rejected { reason: ErrorCode::DoubleSpend }
                    } else if request.amount > old(self).pool_balance {
                        &&& *final(self) == *old(self)
                        &&& next == SpendPhase::Rejected { reason: ErrorCode::TransferFailed }
                    } else {
                        &&& final(self).ledger@ == old(self).ledger@.push(nullifier@)
                        &&& final(self).pool_balance == old(self).pool_balance
                        &&& next == SpendPhase::NullifierConsumed {
                            nullifier,
                            consumed_at: old(self).ledger@.len() as u64,
                        }
                    }
                },
                SpendPhase::NullifierConsumed { nullifier, consumed_at } => {
                    &&& final(self).ledger == old(self).ledger
                    &&& final(self).pool_balance == old(self).pool_balance - request.amount
                    &&& next == SpendPhase::ValueTransferred {
                        receipt: SpendReceipt {
                            nullifier,
                            amount: request.amount,
                            root: request.claimed_root,
                            consumed_at,
                        },
                    }
                },
                SpendPhase::ValueTransferred { receipt } => {
                    &&& *final(self) == *old(self)
                    &&& next == SpendPhase::Complete { receipt }
                },
                SpendPhase::Complete { receipt } => {
                    &&& *final(self) == *old(self)
                    &&& next == phase
                },
                SpendPhase::Rejected { reason } => {
                    &&& *final(self) == *old(self)
                    &&& next == phase
                },
            },
    {
        match phase {
            SpendPhase::Received => {
                if self.state.is_known_root(&request.claimed_root) {
                    SpendPhase::RootChecked
                } else {
                    SpendPhase::Rejected { reason: ErrorCode::StaleOrUnknownRoot }
                }
            },
            SpendPhase::RootChecked => {
                let expected = amount_commitment_bytes(request.amount);
                match verify_proof(
                    &self.verification_key,
                    &request.proof_bundle.proof_bytes,
                    &request.proof_bundle.public_signals,
                    &request.claimed_root,
                    Some(expected),
                ) {
                    Ok(nullifier) => SpendPhase::ProofVerified { nullifier },
                    Err(e) => SpendPhase::Rejected { reason: ErrorCode::ProofInvalid(e) },
                }
            },
            SpendPhase::ProofVerified { nullifier } => {
                if self.ledger.is_consumed(&nullifier) {
                    return SpendPhase::Rejected { reason: ErrorCode::DoubleSpend };
                }
                if request.amount > self.pool_balance {
                    return SpendPhase::Rejected { reason: ErrorCode::TransferFailed };
                }
                let consumed_at = self.ledger.len() as u64;
                match self.ledger.try_consume(nullifier) {
                    Ok(_) => SpendPhase::NullifierConsumed { nullifier, consumed_at },
                    Err(_) => SpendPhase::Rejected { reason: ErrorCode::DoubleSpend },
                }
            },
            SpendPhase::NullifierConsumed { nullifier, consumed_at } => {
                self.pool_balance = self.pool_balance - request.amount;
                SpendPhase::ValueTransferred {
                    receipt: SpendReceipt {
                        nullifier,
                        amount: request.amount,
                        root: request.claimed_root,
                        consumed_at,
                    },
                }
            },
            SpendPhase::ValueTransferred { receipt } => SpendPhase::Complete { receipt },
            SpendPhase::Complete { receipt } => SpendPhase::Complete { receipt },
            SpendPhase::Rejected { reason } => SpendPhase::Rejected { reason },
        }
    }

    /// Runs one spend from `Received` to `Complete` or `Rejected`.  The
    /// claimed root must be known; the proof must verify against the claimed
    /// root and the amount; the nullifier must be fresh; the pool must hold
    /// the amount.  Then the nullifier is consumed and the amount leaves the
    /// pool.  A rejected request changes nothing.
    pub fn execute(&mut self, request: &SpendRequest) -> (result: Result<SpendReceipt, ErrorCode>)
        requires
            old(self).wf(),
        ensures
            final(self).wf(),
            receipt_view(result) == spend_outcome(
                old(self).state@,
                old(self).ledger@,
                old(self).verification_key,
                old(self).pool_balance,
                *request,
            ),
            final(self).state == old(self).state,
            final(self).verification_key == old(self).verification_key,
            match result {
                Ok(receipt) => {
                    &&& final(self).ledger@ == old(self).ledger@.push(receipt.nullifier@)
                    &&& final(self).pool_balance == old(self).pool_balance - request.amount
                    &&& receipt.amount == request.amount
                    &&& receipt.root == request.claimed_root
                    &&& receipt.consumed_at == old(self).ledger@.len()
                },
                Err(_) => *final(self) == *old(self),
            },
    {
        let checked = self.advance(SpendPhase::Received, request);
        let verified = self.advance(checked, request);
        let consumed = self.advance(verified, request);
        let transferred = self.advance(consumed, request);
        match self.advance(transferred, request) {
            SpendPhase::Complete { receipt } => Ok(receipt),
            SpendPhase::Rejected { reason } => Err(reason),
            _ => unreached(),
        }
    }
}

/// Spends a note from the pool: builds the request from its parts and runs
/// it through the coordinator.
pub fn private_spend(
    coordinator: &mut SpendCoordinator,
    merkle_root: [u8; 32],
    amount: u64,
    proof: Vec<u8>,
    nullifier_seed: [u8; 32],
    public_signals: Vec<[u8; 32]>,
) -> (result: Result<SpendReceipt, ErrorCode>)
    requires
        old(coordinator).wf(),
    ensures
        final(coordinator).wf(),
        receipt_view(result) == spend_outcome(
            old(coordinator).state@,
            old(coordinator).ledger@,
            old(coordinator).verification_key,
            old(coordinator).pool_balance,
            (SpendRequest {
                claimed_root: merkle_root,
                amount,
                proof_bundle: ProofBundle { proof_bytes: proof, public_signals },
                nullifier_seed,
            }),
        ),
        final(coordinator).state == old(coordinator).state,
        final(coordinator).verification_key == old(coordinator).verification_key,
        match result {
            Ok(receipt) => {
                &&& final(coordinator).ledger@ == old(coordinator).ledger@.push(receipt.nullifier@)
                &&& final(coordinator).pool_balance == old(coordinator).pool_balance - amount
                &&& receipt.amount == amount
                &&& receipt.root == merkle_root
                &&& receipt.consumed_at == old(coordinator).ledger@.len()
            },
            Err(_) => *final(coordinator) == *old(coordinator),
        },
{
    let request = SpendRequest {
        claimed_root: merkle_root,
        amount,
        proof_bundle: ProofBundle { proof_bytes: proof, public_signals },
        nullifier_seed,
    };
    coordinator.execute(&request)
}

} // verus!
