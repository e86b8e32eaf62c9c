//! The snapshot store contract and the snapshotting policy.  Snapshots are a
//! pure replay-cost optimization: losing every snapshot never changes what
//! replay computes, only how much of the history it has to fold.

use vstd::prelude::*;

use crate::aggregate::{opt_view, Aggregate};
use crate::envelope::{SnapshotEnvelope, SnapshotEnvelopeView};
use crate::Error;

verus! {

/// A pluggable policy deciding when to persist a snapshot after a successful
/// event write.  It is evaluated on the count of events folded in the current
/// cycle — not on a global counter — so it is stateless and replay-consistent.
pub enum SnapshotStrategy {
    /// Snapshot once at least this many events were folded in one cycle.
    NumberOfEvents(i32),
}

impl SnapshotStrategy {
    /// Whether a snapshot is due after a cycle that folded `events_folded`
    /// events.
    pub open spec fn due_spec(&self, events_folded: int) -> bool {
        match self {
            SnapshotStrategy::NumberOfEvents(n) => events_folded >= *n as int,
        }
    }

    pub fn due(&self, events_folded: usize) -> (r: bool)
        ensures
            r == self.due_spec(events_folded as int),
    {
        match self {
            SnapshotStrategy::NumberOfEvents(n) => {
                if *n <= 0 {
                    true
                } else {
                    events_folded >= (*n as usize)
                }
            },
        }
    }
}

/// The conditional write of the snapshot store: a snapshot is accepted
/// exactly when it is strictly newer than the one held.  This is stricter
/// than insert-if-absent on the `(aggregate_id, sequence)` key: a stale
/// snapshot under an unused key is refused too, since reads only ever return
/// the most recent one and an older state would be dead weight.
pub open spec fn snapshot_accepts<AV>(
    current: Option<SnapshotEnvelopeView<AV>>,
    env: SnapshotEnvelopeView<AV>,
) -> bool {
    match current {
        None => true,
        Some(s) => env.sequence > s.sequence,
    }
}

/// Storage for the most recent materialization of each aggregate.
///
/// A failed write is never fatal to a command cycle: the event history is
/// the durable source of truth, a missed snapshot only costs replay work.
pub trait SnapshotStore<A: Aggregate>: Sized {
    /// The most recent snapshot held for one aggregate.
    spec fn latest(&self, aggregate_id: Seq<char>) -> Option<SnapshotEnvelopeView<A::V>>;

    /// The store's internal invariant.
    spec fn inv(&self) -> bool;

    /// What is held for an aggregate is a well-formed snapshot of it.
    proof fn lemma_inv_latest(&self, aggregate_id: Seq<char>)
        requires
            self.inv(),
        ensures
            (match self.latest(aggregate_id) {
                Some(s) => s.wf() && s.aggregate_id == aggregate_id,
                None => true,
            }),
    ;

    /// The single most recent snapshot for the aggregate, or none.
    fn read(&self, aggregate_id: &String) -> (r: Result<Option<SnapshotEnvelope<A>>, Error>)
        requires
            self.inv(),
        ensures
            (match r {
                Ok(v) => opt_view(v) == self.latest(aggregate_id@),
                Err(e) => e == Error::InfrastructureError,
            }),
    ;

    /// Writes a snapshot, conditionally: accepted exactly when it is newer
    /// than the snapshot held, refused with `ConcurrencyConflict` otherwise.
    fn persist(&mut self, envelope: &SnapshotEnvelope<A>) -> (r: Result<(), Error>)
        requires
            old(self).inv(),
            envelope@.wf(),
        ensures
            final(self).inv(),
            (match r {
                Ok(()) => {
                    &&& snapshot_accepts(old(self).latest(envelope.aggregate_id@), envelope@)
                    &&& final(self).latest(envelope.aggregate_id@) == Some(envelope@)
                    &&& forall|id: Seq<char>|
                        id != envelope.aggregate_id@ ==> final(self).latest(id) == old(
                            self,
                        ).latest(id)
                },
                Err(Error::ConcurrencyConflict) => {
                    &&& !snapshot_accepts(old(self).latest(envelope.aggregate_id@), envelope@)
                    &&& forall|id: Seq<char>| final(self).latest(id) == old(self).latest(id)
                },
                Err(Error::InfrastructureError) => forall|id: Seq<char>|
                    final(self).latest(id) == old(self).latest(id),
                _ => false,
            }),
    ;
}

} // verus!
