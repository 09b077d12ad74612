//! The mathematical model of the fixed-depth Merkle tree.
//!
//! A tree of depth `d` has `2^d` leaf slots.  Slots that hold no commitment
//! yet count as the zero leaf, so the root is defined for every number of
//! inserted leaves.
use crate::hash::{hash2_digest, zero_leaf};
use vstd::arithmetic::div_mod::{
    lemma_basic_div, lemma_div_basics, lemma_div_denominator, lemma_fundamental_div_mod,
    lemma_mod_bound,
};
use vstd::arithmetic::power2::{lemma2_to64, lemma_pow2_pos, lemma_pow2_unfold, pow2};
use vstd::prelude::*;

verus! {

/// Root of a subtree of the given height in which every leaf is empty.
pub open spec fn empty_root(height: nat) -> Seq<u8>
    decreases height,
{
    if height == 0 {
        zero_leaf()
    } else {
        hash2_digest(empty_root((height - 1) as nat), empty_root((height - 1) as nat))
    }
}

/// The content of leaf slot `slot`: the commitment inserted there, or the
/// zero leaf where none has been inserted.
pub open spec fn leaf_at(leaves: Seq<Seq<u8>>, slot: nat) -> Seq<u8> {
    if slot < leaves.len() {
        leaves[slot as int]
    } else {
        zero_leaf()
    }
}

/// Root of the subtree of height `height` whose leftmost leaf is slot `start`.
pub open spec fn subtree_root(leaves: Seq<Seq<u8>>, height: nat, start: nat) -> Seq<u8>
    decreases height,
{
    if height == 0 {
        leaf_at(leaves, start)
    } else {
        hash2_digest(
            subtree_root(leaves, (height - 1) as nat, start),
            subtree_root(leaves, (height - 1) as nat, start + pow2((height - 1) as nat)),
        )
    }
}

/// Root of the whole tree of depth `depth` over the inserted `leaves`.
pub open spec fn tree_root(depth: nat, leaves: Seq<Seq<u8>>) -> Seq<u8> {
    subtree_root(leaves, depth, 0)
}

/// A subtree that starts at or after the first free slot is an empty subtree.
pub proof fn lemma_subtree_past_leaves(leaves: Seq<Seq<u8>>, height: nat, start: nat)
    requires
        start >= leaves.len(),
    ensures
        subtree_root(leaves, height, start) == empty_root(height),
    decreases height,
{
    if height > 0 {
        let below = (height - 1) as nat;
        lemma_subtree_past_leaves(leaves, below, start);
        lemma_subtree_past_leaves(leaves, below, start + pow2(below));
    }
}

/// The root of a tree without leaves is the root of the empty tree.
pub proof fn lemma_empty_tree_root(depth: nat)
    ensures
        tree_root(depth, Seq::empty()) == empty_root(depth),
{
    lemma_subtree_past_leaves(Seq::empty(), depth, 0);
}

/// A subtree whose slots are all taken keeps its root when a leaf is appended.
pub proof fn lemma_subtree_full_is_stable(
    leaves: Seq<Seq<u8>>,
    added: Seq<u8>,
    height: nat,
    start: nat,
)
    requires
        start + pow2(height) <= leaves.len(),
    ensures
        subtree_root(leaves.push(added), height, start) == subtree_root(leaves, height, start),
    decreases height,
{
    if height > 0 {
        let below = (height - 1) as nat;
        lemma_pow2_unfold(height);
        lemma_pow2_pos(below);
        lemma_subtree_full_is_stable(leaves, added, below, start);
        lemma_subtree_full_is_stable(leaves, added, below, start + pow2(below));
    } else {
        lemma_pow2_pos(0);
    }
}

/// The leftmost slot under the node of height `height` that lies on the path
/// from leaf slot `slot` to the root.
pub open spec fn node_start(slot: nat, height: nat) -> nat {
    (slot / pow2(height)) * pow2(height)
}

/// The node at the tree's full height on any leaf's path is the root, which
/// starts at slot 0.
pub proof fn lemma_path_ends_at_root(slot: nat, depth: nat)
    requires
        slot < pow2(depth),
    ensures
        slot / pow2(depth) == 0,
        node_start(slot, depth) == 0,
{
    let p = pow2(depth) as int;
    let q = slot as int / p;
    lemma_basic_div(slot as int, p);
    assert(q * p == 0) by (nonlinear_arith)
        requires
            q == 0,
    ;
}

/// How the node on a leaf's path at one height relates to the node one level up.
pub proof fn lemma_path_step(slot: nat, height: nat)
    ensures
        pow2(height) > 0,
        pow2(height + 1) == 2 * pow2(height),
        node_start(slot, height) <= slot < node_start(slot, height) + pow2(height),
        slot / pow2(height + 1) == (slot / pow2(height)) / 2,
        (slot / pow2(height)) % 2 == 0 ==> node_start(slot, height + 1) == node_start(
            slot,
            height,
        ),
        (slot / pow2(height)) % 2 == 1 ==> node_start(slot, height + 1) + pow2(height)
            == node_start(slot, height),
{
    let p = pow2(height) as int;
    let q = slot as int / p;
    lemma_pow2_pos(height);
    lemma_pow2_unfold(height + 1);
    lemma_fundamental_div_mod(slot as int, p);
    lemma_mod_bound(slot as int, p);
    lemma_div_denominator(slot as int, p, 2);
    assert(p * q == q * p) by (nonlinear_arith);
    assert(p * 2 == 2 * p);
    let k = q / 2;
    assert(k * (2 * p) == (2 * k) * p) by (nonlinear_arith);
    assert((2 * k + 1) * p == (2 * k) * p + p) by (nonlinear_arith);
}

/// The node over slot `slot + 1` at a height is the node over `slot` or its
/// right neighbour.
pub proof fn lemma_next_slot_node(slot: nat, height: nat)
    ensures
        (slot + 1) / pow2(height) == slot / pow2(height) ==> node_start(slot + 1, height)
            == node_start(slot, height),
        (slot + 1) / pow2(height) == slot / pow2(height) + 1 ==> node_start(slot + 1, height)
            == node_start(slot, height) + pow2(height),
{
    let p = pow2(height) as int;
    let q = slot as int / p;
    assert((q + 1) * p == q * p + p) by (nonlinear_arith);
}

/// The leftmost slot under the sibling of the node of height `height` on the
/// path from leaf slot `slot` to the root.
pub open spec fn sibling_start(slot: nat, height: nat) -> nat {
    if (slot / pow2(height)) % 2 == 0 {
        node_start(slot, height) + pow2(height)
    } else {
        (node_start(slot, height) - pow2(height)) as nat
    }
}

/// The membership path of leaf slot `slot`: the root of the sibling subtree
/// at every height below the root, lowest first.
pub open spec fn merkle_path(depth: nat, leaves: Seq<Seq<u8>>, slot: nat) -> Seq<Seq<u8>> {
    Seq::new(depth, |h: int| subtree_root(leaves, h as nat, sibling_start(slot, h as nat)))
}

/// On which side of its parent the path's node lies at each level: 0 for a
/// left child, 1 for a right child.
pub open spec fn path_sides(depth: nat, slot: nat) -> Seq<u8> {
    Seq::new(depth, |h: int| ((slot / pow2(h as nat)) % 2) as u8)
}

/// The node reached from `node` after `levels` steps up: at each step the
/// node is hashed with the path's sibling, on the side that `sides` gives.
pub open spec fn climb(node: Seq<u8>, path: Seq<Seq<u8>>, sides: Seq<u8>, levels: nat) -> Seq<u8>
    decreases levels,
{
    if levels == 0 {
        node
    } else {
        let below = climb(node, path, sides, (levels - 1) as nat);
        if sides[levels - 1] == 0 {
            hash2_digest(below, path[levels - 1])
        } else {
            hash2_digest(path[levels - 1], below)
        }
    }
}

/// Climbing from a leaf along its membership path passes through the nodes
/// that lie above the leaf in the tree.
pub proof fn lemma_climb_follows_path(depth: nat, leaves: Seq<Seq<u8>>, slot: nat, levels: nat)
    requires
        slot < leaves.len(),
        levels <= depth,
    ensures
        climb(
            leaves[slot as int],
            merkle_path(depth, leaves, slot),
            path_sides(depth, slot),
            levels,
        ) == subtree_root(leaves, levels, node_start(slot, levels)),
    decreases levels,
{
    if levels == 0 {
        lemma2_to64();
        lemma_div_basics(slot as int);
        assert(node_start(slot, 0) == slot);
    } else {
        let height = (levels - 1) as nat;
        lemma_climb_follows_path(depth, leaves, slot, height);
        lemma_path_step(slot, height);
        assert(merkle_path(depth, leaves, slot)[height as int] == subtree_root(
            leaves,
            height,
            sibling_start(slot, height),
        ));
        assert(path_sides(depth, slot)[height as int] == ((slot / pow2(height)) % 2) as u8);
    }
}

/// The membership path of an inserted leaf leads from the leaf to the root.
pub proof fn lemma_path_verifies(depth: nat, leaves: Seq<Seq<u8>>, slot: nat)
    requires
        slot < leaves.len() <= pow2(depth),
    ensures
        climb(
            leaves[slot as int],
            merkle_path(depth, leaves, slot),
            path_sides(depth, slot),
            depth,
        ) == tree_root(depth, leaves),
{
    lemma_climb_follows_path(depth, leaves, slot, depth);
    lemma_path_ends_at_root(slot, depth);
}

} // verus!
