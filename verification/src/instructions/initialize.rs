//! Opening the pool with the agreed genesis root.
use crate::hash::digest_eq;
use crate::merkle::{empty_root, lemma_empty_tree_root};
use crate::state::{current_root, AccumulatorView, State, ROOT_HISTORY_SIZE, TREE_DEPTH};
use vstd::prelude::*;

verus! {

/// The pool's accumulator at genesis: nothing inserted.
pub open spec fn genesis() -> AccumulatorView {
    AccumulatorView {
        depth: TREE_DEPTH as nat,
        window: ROOT_HISTORY_SIZE as nat,
        commitments: Seq::empty(),
    }
}

/// The root of the pool's empty tree, which every party agrees on before the
/// pool opens.
pub fn genesis_root() -> (root: [u8; 32])
    ensures
        root@ == empty_root(TREE_DEPTH as nat),
        root@ == current_root(genesis()),
{
    proof {
        lemma_empty_tree_root(TREE_DEPTH as nat);
    }
    State::new(TREE_DEPTH, ROOT_HISTORY_SIZE).root()
}

/// Creates the pool's accumulator from the agreed genesis root, which is the
/// root of the empty tree.
pub fn initialize(initial_root: [u8; 32]) -> (state: State)
    requires
        initial_root@ == empty_root(TREE_DEPTH as nat),
    ensures
        state.wf(),
        state@ == genesis(),
        current_root(state@) == initial_root@,
{
    let state = State::new(TREE_DEPTH, ROOT_HISTORY_SIZE);
    proof {
        lemma_empty_tree_root(TREE_DEPTH as nat);
    }
    state
}

/// Creates the pool's accumulator if `initial_root` is the root of the empty
/// tree, and nothing if it is not.
pub fn try_initialize(initial_root: [u8; 32]) -> (state: Option<State>)
    ensures
        state is Some <==> initial_root@ == empty_root(TREE_DEPTH as nat),
        match state {
            Some(s) => s.wf() && s@ == genesis() && current_root(s@) == initial_root@,
            None => true,
        },
{
    let agreed = genesis_root();
    if digest_eq(&agreed, &initial_root) {
        Some(initialize(initial_root))
    } else {
        None
    }
}

} // verus!
