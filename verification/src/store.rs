//! The event store contract: per-aggregate, gap-free histories with an
//! optimistic-concurrency write.  `persist` is a conditional write on the
//! `(aggregate_id, sequence)` key: it accepts an envelope exactly when the
//! envelope extends its aggregate's contiguous run by one, and a losing
//! writer observes `ConcurrencyConflict` — the sole conflict-detection
//! mechanism of the engine.

use vstd::prelude::*;

use crate::aggregate::views;
use crate::envelope::{EventEnvelope, EventEnvelopeView};
use crate::event::Event;
use crate::Error;

verus! {

/// Well-formedness of one aggregate's history: every envelope is
/// well-formed, belongs to that aggregate, and sits at the position its
/// sequence names — the sequences are exactly `1..=len`, ascending.
pub open spec fn history_wf<EV>(h: Seq<EventEnvelopeView<EV>>, id: Seq<char>) -> bool {
    forall|i: int|
        0 <= i < h.len() ==> {
            &&& (#[trigger] h[i]).wf()
            &&& h[i].aggregate_id == id
            &&& h[i].sequence == i + 1
        }
}

/// The conditional write of the store: an envelope is accepted exactly when
/// its sequence extends the aggregate's contiguous run by one.  Under
/// `history_wf` this is insert-if-absent on the `(aggregate_id, sequence)`
/// key — a key at or below `len` already exists — strengthened to refuse a
/// write that would leave a gap, which the data model's contiguity invariant
/// rules out.
pub open spec fn persist_accepts<EV>(
    h: Seq<EventEnvelopeView<EV>>,
    env: EventEnvelopeView<EV>,
) -> bool {
    env.sequence == h.len() + 1
}

/// The tail of a history from a 1-based sequence value on: the envelopes
/// with `sequence >= from`.  Meaningful for well-formed histories, where the
/// envelope with sequence `s` sits at position `s - 1`.
pub open spec fn suffix_from<EV>(h: Seq<EventEnvelopeView<EV>>, from: int) -> Seq<
    EventEnvelopeView<EV>,
> {
    if from <= 1 {
        h
    } else if from - 1 <= h.len() {
        h.skip(from - 1)
    } else {
        Seq::empty()
    }
}

/// Storage for per-aggregate event histories.
///
/// Reads may fail with `InfrastructureError` and report nothing about the
/// store; a successful read returns exactly the aggregate's history.  A
/// successful `persist` appends the envelope to its aggregate's history and
/// touches no other; a failed one leaves every history unchanged, with
/// `ConcurrencyConflict` marking a refused conditional write.
pub trait EventStore<E: Event>: Sized {
    /// The persisted envelopes of one aggregate, ascending by sequence.
    spec fn history(&self, aggregate_id: Seq<char>) -> Seq<EventEnvelopeView<E::V>>;

    /// The store's internal invariant.
    spec fn inv(&self) -> bool;

    /// Every history of a store that satisfies its invariant is well-formed.
    proof fn lemma_inv_histories(&self, aggregate_id: Seq<char>)
        requires
            self.inv(),
        ensures
            history_wf(self.history(aggregate_id), aggregate_id),
    ;

    /// All events of the aggregate, ascending by sequence; an empty vector
    /// when none exist (not an error).
    fn read(&self, aggregate_id: &String) -> (r: Result<Vec<EventEnvelope<E>>, Error>)
        requires
            self.inv(),
        ensures
            (match r {
                Ok(v) => views(v@) == self.history(aggregate_id@),
                Err(e) => e == Error::InfrastructureError,
            }),
    ;

    /// The events of the aggregate with `sequence >= sequence`, ascending;
    /// used to read only the tail not covered by a snapshot.
    fn read_from(&self, aggregate_id: &String, sequence: i64) -> (r: Result<
        Vec<EventEnvelope<E>>,
        Error,
    >)
        requires
            self.inv(),
        ensures
            (match r {
                Ok(v) => views(v@) == suffix_from(self.history(aggregate_id@), sequence as int),
                Err(e) => e == Error::InfrastructureError,
            }),
    ;

    /// Writes exactly one envelope, conditionally: accepted exactly when it
    /// extends its aggregate's contiguous run, refused with
    /// `ConcurrencyConflict` otherwise.  The caller supplies the sequence;
    /// the store never assigns one.
    fn persist(&mut self, envelope: &EventEnvelope<E>) -> (r: Result<(), Error>)
        requires
            old(self).inv(),
            envelope@.wf(),
        ensures
            final(self).inv(),
            (match r {
                Ok(()) => {
                    &&& persist_accepts(old(self).history(envelope.aggregate_id@), envelope@)
                    &&& final(self).history(envelope.aggregate_id@) == old(self).history(
                        envelope.aggregate_id@,
                    ).push(envelope@)
                    &&& forall|id: Seq<char>|
                        id != envelope.aggregate_id@ ==> final(self).history(id) == old(
                            self,
                        ).history(id)
                },
                Err(Error::ConcurrencyConflict) => {
                    &&& !persist_accepts(old(self).history(envelope.aggregate_id@), envelope@)
                    &&& forall|id: Seq<char>| final(self).history(id) == old(self).history(id)
                },
                Err(Error::InfrastructureError) => forall|id: Seq<char>|
                    final(self).history(id) == old(self).history(id),
                _ => false,
            }),
    ;
}

/// Sequence contiguity: a well-formed history of length `n` carries exactly
/// the sequences `1..=n`, in ascending order — no gaps, no duplicates.
pub proof fn lemma_sequence_contiguity<EV>(h: Seq<EventEnvelopeView<EV>>, id: Seq<char>)
    requires
        history_wf(h, id),
    ensures
        forall|i: int| 0 <= i < h.len() ==> (#[trigger] h[i]).sequence == i + 1,
        forall|i: int, j: int| 0 <= i < j < h.len() ==> h[i].sequence < h[j].sequence,
{
}

/// Sequence contiguity across writes: a history carrying exactly the
/// sequences `1..=n`, extended by an envelope the conditional write accepts,
/// carries exactly `1..=n+1` — so any run of accepted writes against a fresh
/// aggregate reads back as `1..=n`, gap-free and duplicate-free.
pub proof fn lemma_contiguity_extends<EV>(
    h: Seq<EventEnvelopeView<EV>>,
    env: EventEnvelopeView<EV>,
    id: Seq<char>,
)
    requires
        history_wf(h, id),
        persist_accepts(h, env),
        env.wf(),
        env.aggregate_id == id,
    ensures
        history_wf(h.push(env), id),
{
}

/// Conflict exclusivity: of two envelopes racing for the same position of
/// one aggregate, the conditional write accepts at most the one applied
/// first; applied second, the other is refused.
pub proof fn lemma_conflict_exclusivity<EV>(
    h: Seq<EventEnvelopeView<EV>>,
    first: EventEnvelopeView<EV>,
    second: EventEnvelopeView<EV>,
)
    requires
        first.sequence == second.sequence,
        persist_accepts(h, first),
    ensures
        !persist_accepts(h.push(first), second),
{
}

/// Copies of the given envelopes, with the same contents.
pub fn dup_envelopes<E: Event>(v: &Vec<EventEnvelope<E>>) -> (r: Vec<EventEnvelope<E>>)
    ensures
        views(r@) == views(v@),
{
    let mut r: Vec<EventEnvelope<E>> = Vec::new();
    let mut i: usize = 0;
    while i < v.len()
        invariant
            i <= v@.len(),
            views(r@) == views(v@).take(i as int),
        decreases v@.len() - i,
    {
        let d = v[i].dup();
        let ghost r0 = r@;
        r.push(d);
        proof {
            crate::aggregate::lemma_views_push(r0, d);
            assert(views(v@).take(i + 1) =~= views(v@).take(i as int).push(views(v@)[i as int]));
            assert(views(v@)[i as int] == d@);
        }
        i = i + 1;
    }
    proof {
        assert(views(v@).take(v@.len() as int) =~= views(v@));
    }
    r
}

} // verus!
