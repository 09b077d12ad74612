//! The nullifier ledger: which notes have been spent.
use crate::hash::digest_eq;
use vstd::prelude::*;

verus! {

/// The nullifier was consumed before.
#[derive(Debug, PartialEq, Eq)]
pub struct AlreadyUsed;

/// The record of one spent note.
#[derive(Clone, Copy, Debug)]
pub struct Nullifier {
    /// The value that identifies the spent note without naming its commitment.
    pub hash: [u8; 32],
    /// Logical time of consumption: how many nullifiers were consumed before.
    pub consumed_at: u64,
}

/// The consumed nullifiers.  Entries are only ever added.
pub struct NullifierLedger {
    entries: Vec<Nullifier>,
}

/// The consumed nullifiers after an attempt to consume `nullifier`: it is
/// appended unless it is already there.
pub open spec fn after_consume(consumed: Seq<Seq<u8>>, nullifier: Seq<u8>) -> Seq<Seq<u8>> {
    if consumed.contains(nullifier) {
        consumed
    } else {
        consumed.push(nullifier)
    }
}

/// Once an attempt to consume a nullifier has been made, the nullifier is
/// consumed, and a further attempt changes nothing.
pub proof fn lemma_consumed_once(consumed: Seq<Seq<u8>>, nullifier: Seq<u8>)
    ensures
        after_consume(consumed, nullifier).contains(nullifier),
        after_consume(after_consume(consumed, nullifier), nullifier) == after_consume(
            consumed,
            nullifier,
        ),
{
    if !consumed.contains(nullifier) {
        let grown = consumed.push(nullifier);
        assert(grown[consumed.len() as int] == nullifier);
    }
}

/// A consumed nullifier stays consumed whatever is consumed after it.
pub proof fn lemma_consumed_stays(consumed: Seq<Seq<u8>>, nullifier: Seq<u8>, other: Seq<u8>)
    requires
        consumed.contains(nullifier),
    ensures
        after_consume(consumed, other).contains(nullifier),
{
    let at = choose|i: int| 0 <= i < consumed.len() && consumed[i] == nullifier;
    assert(after_consume(consumed, other)[at] == nullifier);
}

impl View for NullifierLedger {
    type V = Seq<Seq<u8>>;

    /// The consumed nullifiers in the order of their consumption.
    closed spec fn view(&self) -> Seq<Seq<u8>> {
        Seq::new(self.entries@.len(), |i: int| self.entries@[i].hash@)
    }
}

impl NullifierLedger {
    /// No nullifier is recorded twice, and each record carries its position
    /// as its time of consumption.
    pub closed spec fn wf(&self) -> bool {
        &&& self@.no_duplicates()
        &&& forall|i: int|
            0 <= i < self.entries@.len() ==> (#[trigger] self.entries@[i]).consumed_at == i
    }

    /// A ledger in which nothing has been consumed.
    pub fn new() -> (ledger: NullifierLedger)
        ensures
            ledger.wf(),
            ledger@ == Seq::<Seq<u8>>::empty(),
    {
        let ledger = NullifierLedger { entries: Vec::new() };
        assert(ledger@ =~= Seq::<Seq<u8>>::empty());
        ledger
    }

    /// How many nullifiers have been consumed.
    pub fn len(&self) -> (count: usize)
        ensures
            count == self@.len(),
    {
        self.entries.len()
    }

    /// The logical time at which `nullifier` was consumed, if it was.
    pub fn consumed_at(&self, nullifier: &[u8; 32]) -> (time: Option<u64>)
        requires
            self.wf(),
        ensures
            time is Some <==> self@.contains(nullifier@),
            match time {
                Some(at) => at < self@.len() && self@[at as int] == nullifier@,
                None => true,
            },
    {
        let mut i: usize = 0;
        while i < self.entries.len()
            invariant
                self.wf(),
                i <= self.entries@.len(),
                forall|k: int| 0 <= k < i ==> self@[k] != nullifier@,
            decreases self.entries@.len() - i,
        {
            if digest_eq(&self.entries[i].hash, nullifier) {
                assert(self@[i as int] == nullifier@);
                return Some(self.entries[i].consumed_at);
            }
            i += 1;
        }
        None
    }

    /// Whether `nullifier` has been consumed.
    pub fn is_consumed(&self, nullifier: &[u8; 32]) -> (used: bool)
        requires
            self.wf(),
        ensures
            used == self@.contains(nullifier@),
    {
        self.consumed_at(nullifier).is_some()
    }

    /// Consumes `nullifier` if it is fresh.  The check and the insertion are
    /// one step: a nullifier that is already there is refused and the ledger
    /// stays as it is.
    pub fn try_consume(&mut self, nullifier: [u8; 32]) -> (result: Result<(), AlreadyUsed>)
        requires
            old(self).wf(),
        ensures
            final(self).wf(),
            result is Err <==> old(self)@.contains(nullifier@),
            result is Err ==> *final(self) == *old(self),
            final(self)@ == after_consume(old(self)@, nullifier@),
            final(self)@.contains(nullifier@),
            forall|other: Seq<u8>|
                old(self)@.contains(other) ==> #[trigger] final(self)@.contains(other),
    {
        proof {
            lemma_consumed_once(self@, nullifier@);
            assert forall|other: Seq<u8>| self@.contains(other) implies #[trigger] after_consume(
                self@,
                nullifier@,
            ).contains(other) by {
                lemma_consumed_stays(self@, other, nullifier@);
            }
        }
        if self.is_consumed(&nullifier) {
            return Err(AlreadyUsed);
        }
        let ghost before = self@;
        let at: usize = self.entries.len();
        self.entries.push(Nullifier { hash: nullifier, consumed_at: at as u64 });
        proof {
            assert(self@ =~= before.push(nullifier@));
            assert forall|i: int, j: int|
                0 <= i < self@.len() && 0 <= j < self@.len() && i != j implies self@[i]
                != self@[j] by {
                if i < before.len() {
                    assert(before[i] == self@[i]);
                }
                if j < before.len() {
                    assert(before[j] == self@[j]);
                }
            }
        }
        Ok(())
    }
}

} // verus!
