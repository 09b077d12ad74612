//! Depositing: a new commitment enters the accumulator.
use crate::state::{current_root, with_commitment, State, TreeFull};
use vstd::arithmetic::power2::pow2;
use vstd::prelude::*;

verus! {

/// Inserts `commitment` as the next leaf and returns the new root.  A full
/// tree refuses the commitment and stays as it is.
pub fn add_commitment(state: &mut State, commitment: [u8; 32]) -> (result: Result<
    [u8; 32],
    TreeFull,
>)
    requires
        old(state).wf(),
    ensures
        final(state).wf(),
        result is Err <==> old(state)@.commitments.len() == pow2(old(state)@.depth),
        match result {
            Ok(root) => {
                &&& final(state)@ == with_commitment(old(state)@, commitment@)
                &&& root@ == current_root(final(state)@)
            },
            Err(_) => *final(state) == *old(state),
        },
{
    match state.insert(commitment) {
        Ok((root, _)) => Ok(root),
        Err(full) => Err(full),
    }
}

} // verus!
