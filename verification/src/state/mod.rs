//! The commitment accumulator: an append-only Merkle tree of fixed depth with
//! a window of recent roots.
use crate::field::{be_value, scalar_field_order};
use crate::hash::{digest_eq, digests, hash2, zero_digest};
use crate::merkle::{
    empty_root, lemma_next_slot_node, lemma_path_ends_at_root, lemma_path_step,
    lemma_subtree_full_is_stable, lemma_subtree_past_leaves, merkle_path, node_start, path_sides,
    sibling_start, subtree_root, tree_root,
};
use vstd::arithmetic::div_mod::lemma_div_basics;
use vstd::arithmetic::power2::{
    lemma2_to64, lemma2_to64_rest, lemma_pow2_pos, lemma_pow2_strictly_increases,
    lemma_pow2_unfold, pow2,
};
use vstd::prelude::*;

pub mod nullifier;
pub mod transaction_limits;

verus! {

/// The deepest tree whose leaf count still fits the leaf counter.
pub const MAX_DEPTH: usize = 63;

/// Depth of the pool's tree: room for 2^20 commitments.
pub const TREE_DEPTH: usize = 20;

/// How many recent roots the pool keeps: a proof made against any of them
/// is still fresh.
pub const ROOT_HISTORY_SIZE: usize = 30;

/// An insertion found every leaf slot taken.
#[derive(Debug, PartialEq, Eq)]
pub struct TreeFull;

/// What an accumulator is, mathematically: its configuration and the
/// commitments inserted so far, in order.  Root and history follow from these.
pub struct AccumulatorView {
    /// Height of the tree; it has `2^depth` leaf slots.
    pub depth: nat,
    /// How many recent roots stay acceptable.
    pub window: nat,
    /// The inserted commitments, oldest first.
    pub commitments: Seq<Seq<u8>>,
}

/// The root over all inserted commitments.
pub open spec fn current_root(model: AccumulatorView) -> Seq<u8> {
    tree_root(model.depth, model.commitments)
}

/// The root as it stood when only the first `count` commitments were in.
pub open spec fn root_after(model: AccumulatorView, count: nat) -> Seq<u8> {
    tree_root(model.depth, model.commitments.take(count as int))
}

/// How many roots the history holds.
pub open spec fn history_len(model: AccumulatorView) -> nat {
    if model.window < model.commitments.len() + 1 {
        model.window
    } else {
        model.commitments.len() + 1
    }
}

/// The history: the most recent roots, oldest first, at most `window` of
/// them.  The genesis root counts as the first root.
pub open spec fn recent_roots(model: AccumulatorView) -> Seq<Seq<u8>> {
    let kept = history_len(model);
    Seq::new(
        kept,
        |i: int| root_after(model, (model.commitments.len() + 1 - kept + i) as nat),
    )
}

/// Whether a spend proved against `candidate` is still fresh enough.
pub open spec fn is_known(model: AccumulatorView, candidate: Seq<u8>) -> bool {
    candidate == current_root(model) || recent_roots(model).contains(candidate)
}

/// The accumulator after one more commitment.
pub open spec fn with_commitment(model: AccumulatorView, commitment: Seq<u8>) -> AccumulatorView {
    AccumulatorView { commitments: model.commitments.push(commitment), ..model }
}

/// The accumulator after a run of commitments, inserted in order.
pub open spec fn with_commitments(model: AccumulatorView, added: Seq<Seq<u8>>) -> AccumulatorView
    decreases added.len(),
{
    if added.len() == 0 {
        model
    } else {
        with_commitment(with_commitments(model, added.drop_last()), added.last())
    }
}

/// Inserting a run of commitments appends them, in order, to those that
/// were there; depth and window stay.
pub proof fn lemma_with_commitments(model: AccumulatorView, added: Seq<Seq<u8>>)
    ensures
        with_commitments(model, added) == (AccumulatorView {
            commitments: model.commitments + added,
            ..model
        }),
    decreases added.len(),
{
    if added.len() == 0 {
        assert(model.commitments + added =~= model.commitments);
    } else {
        lemma_with_commitments(model, added.drop_last());
        assert((model.commitments + added.drop_last()).push(added.last()) =~= model.commitments
            + added);
    }
}

/// The root after a run of insertions is the root of the tree over all
/// commitments in their order.  It depends on the depth and on the
/// commitments alone: two accumulators that agree on these agree on every
/// later root, whatever their windows are and whatever was asked of them in
/// between.
pub proof fn lemma_root_depends_on_commitments_alone(
    a: AccumulatorView,
    b: AccumulatorView,
    added: Seq<Seq<u8>>,
)
    requires
        a.depth == b.depth,
        a.commitments == b.commitments,
    ensures
        current_root(with_commitments(a, added)) == tree_root(a.depth, a.commitments + added),
        current_root(with_commitments(a, added)) == current_root(with_commitments(b, added)),
{
    lemma_with_commitments(a, added);
    lemma_with_commitments(b, added);
}

/// A root stays known while fewer insertions than the window is wide have
/// come after it.
pub proof fn lemma_recent_root_is_known(model: AccumulatorView, count: nat)
    requires
        count <= model.commitments.len(),
        model.commitments.len() - count < model.window,
    ensures
        recent_roots(model).contains(root_after(model, count)),
        is_known(model, root_after(model, count)),
{
    let kept = history_len(model);
    let at = count - (model.commitments.len() + 1 - kept);
    assert(recent_roots(model)[at] == root_after(model, count));
}

/// Appending a commitment appends its root to the history and, where the
/// history was full, drops the oldest root.
pub proof fn lemma_recent_roots_push(model: AccumulatorView, commitment: Seq<u8>)
    ensures
        recent_roots(with_commitment(model, commitment)) == if model.window == 0 {
            Seq::<Seq<u8>>::empty()
        } else if recent_roots(model).len() == model.window {
            recent_roots(model).drop_first().push(
                current_root(with_commitment(model, commitment)),
            )
        } else {
            recent_roots(model).push(current_root(with_commitment(model, commitment)))
        },
{
    let grown = with_commitment(model, commitment);
    let n = model.commitments.len();
    assert(grown.commitments.take(n as int + 1) =~= grown.commitments);
    assert forall|j: int| 0 <= j <= n implies #[trigger] grown.commitments.take(j)
        == model.commitments.take(j) by {
        assert(grown.commitments.take(j) =~= model.commitments.take(j));
    }
    let expected = if model.window == 0 {
        Seq::<Seq<u8>>::empty()
    } else if recent_roots(model).len() == model.window {
        recent_roots(model).drop_first().push(current_root(grown))
    } else {
        recent_roots(model).push(current_root(grown))
    };
    assert(recent_roots(grown) =~= expected);
}

/// The commitment accumulator.
pub struct State {
    /// Root over all inserted commitments.
    merkle_root: [u8; 32],
    /// Index of the next free leaf slot.
    next_index: u64,
    /// Height of the tree.
    depth: usize,
    /// Number of leaf slots, `2^depth`.
    capacity: u64,
    /// How many recent roots are kept.
    history_capacity: usize,
    /// The inserted commitments, oldest first.
    leaves: Vec<[u8; 32]>,
    /// Per height, the root of the last full left subtree on the way to the
    /// next free slot.
    frontier: Vec<[u8; 32]>,
    /// Per height, the root of the empty subtree.
    zeros: Vec<[u8; 32]>,
    /// The recent roots, oldest first.
    history: Vec<[u8; 32]>,
}

impl View for State {
    type V = AccumulatorView;

    closed spec fn view(&self) -> AccumulatorView {
        AccumulatorView {
            depth: self.depth as nat,
            window: self.history_capacity as nat,
            commitments: digests(self.leaves@),
        }
    }
}

/// At a height where the next free slot lies in a right subtree, the
/// frontier holds the root of the full left subtree beside it.
spec fn frontier_holds(leaves: Seq<Seq<u8>>, frontier: Seq<[u8; 32]>, height: int) -> bool {
    (leaves.len() / pow2(height as nat)) % 2 == 1 ==> frontier[height]@ == subtree_root(
        leaves,
        height as nat,
        (node_start(leaves.len(), height as nat) - pow2(height as nat)) as nat,
    )
}

/// For each level of a `depth`-level path from the leaf at `leaf_index`, on
/// which side the path's node lies: 0 where it is a left child, 1 where it is
/// a right child.
pub fn path_indices(leaf_index: u64, depth: usize) -> (sides: Vec<u8>)
    ensures
        sides@ == path_sides(depth as nat, leaf_index as nat),
{
    let mut sides: Vec<u8> = Vec::new();
    let mut idx: u64 = leaf_index;
    let mut level: usize = 0;
    proof {
        lemma2_to64();
        lemma_div_basics(leaf_index as int);
    }
    while level < depth
        invariant
            level <= depth,
            idx == leaf_index as nat / pow2(level as nat),
            sides@.len() == level,
            forall|h: int|
                0 <= h < level ==> #[trigger] sides@[h] == path_sides(
                    depth as nat,
                    leaf_index as nat,
                )[h],
        decreases depth - level,
    {
        proof {
            lemma_path_step(leaf_index as nat, level as nat);
        }
        sides.push((idx % 2) as u8);
        idx = idx / 2;
        level += 1;
    }
    assert(sides@ =~= path_sides(depth as nat, leaf_index as nat));
    sides
}

impl State {
    /// The representation invariant.
    pub closed spec fn wf(&self) -> bool {
        &&& self.depth <= MAX_DEPTH
        &&& self.capacity == pow2(self.depth as nat)
        &&& self.next_index == self.leaves@.len()
        &&& self.next_index <= self.capacity
        &&& self.zeros@.len() == self.depth + 1
        &&& forall|h: int| 0 <= h <= self.depth ==> (#[trigger] self.zeros@[h])@ == empty_root(h as nat)
        &&& self.frontier@.len() == self.depth
        &&& forall|h: int|
            0 <= h < self.depth ==> #[trigger] frontier_holds(
                digests(self.leaves@),
                self.frontier@,
                h,
            )
        &&& self.merkle_root@ == current_root(self@)
        &&& self.depth > 0 ==> be_value(self.merkle_root@) < be_value(scalar_field_order())
        &&& digests(self.history@) == recent_roots(self@)
    }

    /// A well-formed accumulator never holds more leaves than it has slots.
    pub proof fn lemma_wf_bounds(&self)
        requires
            self.wf(),
        ensures
            self@.depth <= MAX_DEPTH,
            self@.commitments.len() <= pow2(self@.depth),
            self@.commitments.len() <= u64::MAX,
    {
    }

    /// An empty accumulator of the given depth that keeps `history_capacity`
    /// recent roots.
    pub fn new(depth: usize, history_capacity: usize) -> (state: State)
        requires
            depth <= MAX_DEPTH,
        ensures
            state.wf(),
            state@ == (AccumulatorView {
                depth: depth as nat,
                window: history_capacity as nat,
                commitments: Seq::empty(),
            }),
    {
        let mut zeros: Vec<[u8; 32]> = Vec::new();
        let mut frontier: Vec<[u8; 32]> = Vec::new();
        let mut node = zero_digest();
        zeros.push(node);
        let mut capacity: u64 = 1;
        let mut level: usize = 0;
        proof {
            lemma2_to64();
        }
        while level < depth
            invariant
                level <= depth <= MAX_DEPTH,
                zeros@.len() == level + 1,
                frontier@.len() == level,
                forall|h: int| 0 <= h <= level ==> (#[trigger] zeros@[h])@ == empty_root(h as nat),
                node == zeros@[level as int],
                level > 0 ==> be_value(node@) < be_value(scalar_field_order()),
                capacity == pow2(level as nat),
            decreases depth - level,
        {
            proof {
                lemma_pow2_unfold((level + 1) as nat);
                lemma2_to64_rest();
                if level + 1 < 63 {
                    lemma_pow2_strictly_increases((level + 1) as nat, 63);
                }
            }
            frontier.push(node);
            node = hash2(&node, &node);
            zeros.push(node);
            capacity = capacity * 2;
            level += 1;
        }
        let mut history: Vec<[u8; 32]> = Vec::new();
        if history_capacity > 0 {
            history.push(node);
        }
        let leaves: Vec<[u8; 32]> = Vec::new();
        let state = State {
            merkle_root: node,
            next_index: 0,
            depth,
            capacity,
            history_capacity,
            leaves,
            frontier,
            zeros,
            history,
        };
        proof {
            let none = Seq::<Seq<u8>>::empty();
            assert(digests(state.leaves@) =~= none);
            assert(state@.commitments == none);
            lemma_subtree_past_leaves(none, depth as nat, 0);
            assert(none.take(0) =~= none);
            assert(digests(state.history@) =~= recent_roots(state@));
            assert forall|h: int| 0 <= h < depth implies #[trigger] frontier_holds(
                none,
                state.frontier@,
                h,
            ) by {
                lemma_pow2_pos(h as nat);
                lemma_div_basics(pow2(h as nat) as int);
            }
        }
        state
    }

    /// The current root.  In a tree of more than one slot it is a hash, and
    /// with that a number below the scalar field's modulus.
    pub fn root(&self) -> (root: [u8; 32])
        requires
            self.wf(),
        ensures
            root@ == current_root(self@),
            self@.depth > 0 ==> be_value(root@) < be_value(scalar_field_order()),
    {
        self.merkle_root
    }

    /// Index of the next free leaf slot, which is the number of commitments
    /// inserted so far.
    pub fn next_index(&self) -> (index: u64)
        requires
            self.wf(),
        ensures
            index == self@.commitments.len(),
    {
        self.next_index
    }

    /// Height of the tree.
    pub fn depth(&self) -> (depth: usize)
        ensures
            depth == self@.depth,
    {
        self.depth
    }

    /// How many recent roots the accumulator keeps.
    pub fn history_capacity(&self) -> (window: usize)
        ensures
            window == self@.window,
    {
        self.history_capacity
    }

    /// The history: the recent roots that are still accepted, oldest first.
    pub fn history(&self) -> (roots: Vec<[u8; 32]>)
        requires
            self.wf(),
        ensures
            digests(roots@) == recent_roots(self@),
    {
        let mut roots: Vec<[u8; 32]> = Vec::new();
        let mut i: usize = 0;
        while i < self.history.len()
            invariant
                i <= self.history@.len(),
                roots@ == self.history@.take(i as int),
            decreases self.history@.len() - i,
        {
            roots.push(self.history[i]);
            assert(self.history@.take(i + 1) =~= self.history@.take(i as int).push(
                self.history@[i as int],
            ));
            i += 1;
        }
        assert(roots@ =~= self.history@);
        roots
    }

    /// Whether `candidate` is the current root or one of the recent roots
    /// still in the history.
    pub fn is_known_root(&self, candidate: &[u8; 32]) -> (known: bool)
        requires
            self.wf(),
        ensures
            known == is_known(self@, candidate@),
    {
        if digest_eq(&self.merkle_root, candidate) {
            return true;
        }
        let mut i: usize = 0;
        while i < self.history.len()
            invariant
                self.wf(),
                i <= self.history@.len(),
                forall|k: int| 0 <= k < i ==> digests(self.history@)[k] != candidate@,
            decreases self.history@.len() - i,
        {
            if digest_eq(&self.history[i], candidate) {
                assert(recent_roots(self@)[i as int] == candidate@);
                return true;
            }
            i += 1;
        }
        false
    }

    /// Root of the subtree of height `height` that starts at slot `start`,
    /// computed from the stored leaves.  `width` is the subtree's slot count.
    fn subtree(&self, height: usize, start: u64, width: u64) -> (root: [u8; 32])
        requires
            self.wf(),
            height <= self.depth,
            width == pow2(height as nat),
            start + width <= u64::MAX,
        ensures
            root@ == subtree_root(self@.commitments, height as nat, start as nat),
        decreases height,
    {
        if start >= self.next_index {
            proof {
                lemma_subtree_past_leaves(self@.commitments, height as nat, start as nat);
            }
            return self.zeros[height];
        }
        if height == 0 {
            assert(self.leaves.len() == self.leaves@.len());
            assert(self@.commitments[start as int] == self.leaves@[start as int]@);
            return self.leaves[start as usize];
        }
        proof {
            lemma_pow2_unfold(height as nat);
        }
        let half: u64 = width / 2;
        let left = self.subtree(height - 1, start, half);
        let right = self.subtree(height - 1, start + half, half);
        hash2(&left, &right)
    }

    /// The membership path of the leaf at `leaf_index`: one sibling hash per
    /// level, lowest first.  There is none for a slot that holds no commitment.
    pub fn path_for(&self, leaf_index: u64) -> (path: Option<Vec<[u8; 32]>>)
        requires
            self.wf(),
        ensures
            path is Some <==> leaf_index < self@.commitments.len(),
            match path {
                Some(siblings) => digests(siblings@) == merkle_path(
                    self@.depth,
                    self@.commitments,
                    leaf_index as nat,
                ),
                None => true,
            },
    {
        if leaf_index >= self.next_index {
            return None;
        }
        let mut siblings: Vec<[u8; 32]> = Vec::new();
        let mut idx: u64 = leaf_index;
        let mut width: u64 = 1;
        let mut level: usize = 0;
        proof {
            lemma2_to64();
            lemma2_to64_rest();
            lemma_div_basics(leaf_index as int);
        }
        while level < self.depth
            invariant
                self.wf(),
                level <= self.depth,
                leaf_index < self.next_index,
                idx == leaf_index as nat / pow2(level as nat),
                width == pow2(level as nat),
                siblings@.len() == level,
                forall|h: int|
                    0 <= h < level ==> (#[trigger] siblings@[h])@ == subtree_root(
                        self@.commitments,
                        h as nat,
                        sibling_start(leaf_index as nat, h as nat),
                    ),
            decreases self.depth - level,
        {
            proof {
                lemma2_to64_rest();
                lemma_path_step(leaf_index as nat, level as nat);
                lemma_pow2_strictly_increases(level as nat, self.depth as nat);
                if self.depth < 63 {
                    lemma_pow2_strictly_increases(self.depth as nat, 63);
                }
                if level + 1 < self.depth {
                    lemma_pow2_strictly_increases((level + 1) as nat, self.depth as nat);
                }
            }
            let start: u64 = idx * width;
            let beside: u64 = if idx % 2 == 0 {
                start + width
            } else {
                start - width
            };
            let node = self.subtree(level, beside, width);
            siblings.push(node);
            idx = idx / 2;
            width = width * 2;
            level += 1;
        }
        proof {
            assert(digests(siblings@) =~= merkle_path(
                self@.depth,
                self@.commitments,
                leaf_index as nat,
            ));
        }
        Some(siblings)
    }

    /// Appends a commitment as the next leaf and returns the new root with
    /// the leaf's index.  A full tree is left as it is.
    pub fn insert(&mut self, commitment: [u8; 32]) -> (result: Result<([u8; 32], u64), TreeFull>)
        requires
            old(self).wf(),
        ensures
            final(self).wf(),
            old(self)@.commitments.len() <= pow2(old(self)@.depth),
            result is Err <==> old(self)@.commitments.len() == pow2(old(self)@.depth),
            result is Err ==> *final(self) == *old(self),
            match result {
                Ok((root, index)) => {
                    &&& final(self)@ == with_commitment(old(self)@, commitment@)
                    &&& root@ == current_root(final(self)@)
                    &&& old(self)@.depth > 0 ==> be_value(root@) < be_value(scalar_field_order())
                    &&& index == old(self)@.commitments.len()
                },
                Err(_) => true,
            },
    {
        if self.next_index >= self.capacity {
            return Err(TreeFull);
        }
        let ghost before = digests(self.leaves@);
        let ghost after = before.push(commitment@);
        let ghost model = self@;
        let slot: u64 = self.next_index;
        let mut idx: u64 = slot;
        let mut node: [u8; 32] = commitment;
        let mut level: usize = 0;
        proof {
            lemma2_to64();
            lemma_div_basics(slot as int);
            lemma_div_basics(slot as int + 1);
        }
        while level < self.depth
            invariant
                level <= self.depth <= MAX_DEPTH,
                self.depth == old(self).depth,
                self.leaves == old(self).leaves,
                self.zeros == old(self).zeros,
                self.history == old(self).history,
                self.merkle_root == old(self).merkle_root,
                self.next_index == old(self).next_index,
                self.capacity == old(self).capacity,
                self.history_capacity == old(self).history_capacity,
                old(self).wf(),
                before == digests(old(self).leaves@),
                after == before.push(commitment@),
                slot == before.len(),
                idx == slot as nat / pow2(level as nat),
                (slot as nat + 1) / pow2(level as nat) == idx || (slot as nat + 1) / pow2(
                    level as nat,
                ) == idx + 1,
                node@ == subtree_root(after, level as nat, node_start(slot as nat, level as nat)),
                level > 0 ==> be_value(node@) < be_value(scalar_field_order()),
                self.frontier@.len() == self.depth,
                forall|h: int| 0 <= h < level ==> #[trigger] frontier_holds(after, self.frontier@, h),
                forall|h: int|
                    level <= h < self.depth ==> #[trigger] frontier_holds(
                        before,
                        self.frontier@,
                        h,
                    ),
            decreases self.depth - level,
        {
            let ghost height = level as nat;
            let ghost start = node_start(slot as nat, height);
            let ghost held = self.frontier@;
            proof {
                lemma_path_step(slot as nat, height);
                lemma_path_step(slot as nat + 1, height);
                lemma_next_slot_node(slot as nat, height);
                assert(frontier_holds(before, held, level as int));
            }
            if idx % 2 == 0 {
                proof {
                    lemma_subtree_past_leaves(after, height, start + pow2(height));
                }
                self.frontier[level] = node;
                node = hash2(&node, &self.zeros[level]);
            } else {
                proof {
                    lemma_subtree_full_is_stable(
                        before,
                        commitment@,
                        height,
                        (start - pow2(height)) as nat,
                    );
                }
                node = hash2(&self.frontier[level], &node);
            }
            proof {
                assert(frontier_holds(after, self.frontier@, level as int));
                assert forall|h: int| 0 <= h < level implies #[trigger] frontier_holds(
                    after,
                    self.frontier@,
                    h,
                ) by {
                    assert(frontier_holds(after, held, h));
                }
                assert forall|h: int| level < h < self.depth implies #[trigger] frontier_holds(
                    before,
                    self.frontier@,
                    h,
                ) by {
                    assert(frontier_holds(before, held, h));
                }
            }
            idx = idx / 2;
            level += 1;
        }
        proof {
            assert(slot < pow2(self.depth as nat));
            lemma_path_ends_at_root(slot as nat, self.depth as nat);
            assert(node@ == tree_root(model.depth, after));
            lemma_recent_roots_push(model, commitment@);
        }
        let ghost kept = self.history@;
        self.leaves.push(commitment);
        self.next_index = slot + 1;
        self.merkle_root = node;
        if self.history_capacity > 0 {
            if self.history.len() == self.history_capacity {
                self.history.remove(0);
                assert(digests(self.history@) =~= digests(kept).drop_first());
            }
            let ghost rest = self.history@;
            self.history.push(node);
            assert(digests(self.history@) =~= digests(rest).push(node@));
        }
        proof {
            assert(digests(self.leaves@) =~= after);
            assert(self@ == with_commitment(model, commitment@));
            assert(node@ == current_root(self@));
            assert(digests(kept) == recent_roots(model));
            assert(digests(self.history@) == recent_roots(self@));
        }
        Ok((node, slot))
    }
}

} // verus!
