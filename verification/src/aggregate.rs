//! The replay contract: an aggregate is a domain entity whose current state
//! is the left fold of its event history.  `fold_events` is the mathematical
//! fold; `apply_all` is the executable replay, proved equal to it.  The
//! sequence engine computes the current and next per-aggregate positions from
//! a snapshot and the events newer than it.

use vstd::prelude::*;

use crate::envelope::{EventEnvelope, EventEnvelopeView, SnapshotEnvelope, SnapshotEnvelopeView};
use crate::event::Event;
use crate::Error;

verus! {

/// The view of an optional value.
pub open spec fn opt_view<T: View>(s: Option<T>) -> Option<T::V> {
    match s {
        Some(t) => Some(t@),
        None => None,
    }
}

/// The views of the elements of a sequence.
pub open spec fn views<T: View>(s: Seq<T>) -> Seq<T::V> {
    s.map_values(|t: T| t@)
}

/// Taking views commutes with appending one element.
pub proof fn lemma_views_push<T: View>(s: Seq<T>, x: T)
    ensures
        views(s.push(x)) == views(s).push(x@),
{
    assert(views(s.push(x)) =~~= views(s).push(x@));
}

/// A cluster of associated events treated as a unit for data changes: state
/// is reconstructed by folding an ordered event sequence, starting from
/// nothing or from a snapshot, and is never mutated in place.
///
/// All specifications speak about the aggregate's view (`Self::V`), so replay
/// is a mathematical function of its inputs: no clock, no randomness, no
/// input/output.
pub trait Aggregate: View + Sized {
    type Event: Event;

    /// The identity of an aggregate.
    spec fn aggregate_id_of(v: Self::V) -> Seq<char>;

    /// The discriminator of this aggregate kind.
    spec fn aggregate_type_of() -> Seq<char>;

    /// The replay step: the state after one event, or the domain error that
    /// rejects the event for this state.
    spec fn apply_of(state: Option<Self::V>, event: <Self::Event as View>::V) -> Result<
        Self::V,
        Error,
    >;

    /// The canonical text of an aggregate state, used by snapshots.
    spec fn serial_of(v: Self::V) -> Seq<char>;

    /// The parse of a state text: the state it denotes, or `DecodeError`.
    spec fn parse_of(text: Seq<char>) -> Result<Self::V, Error>;

    fn aggregate_id(&self) -> (r: &String)
        ensures
            r@ == Self::aggregate_id_of(self@),
    ;

    fn aggregate_type(&self) -> (r: String)
        ensures
            r@ == Self::aggregate_type_of(),
    ;

    /// Applies one event to an optional prior state.
    fn apply(state: Option<Self>, event: Self::Event) -> (r: Result<Self, Error>)
        ensures
            (match r {
                Ok(a) => Self::apply_of(opt_view(state), event@) == Ok::<Self::V, Error>(a@),
                Err(e) => Self::apply_of(opt_view(state), event@) == Err::<Self::V, Error>(e),
            }),
    ;

    fn serialize(&self) -> (r: String)
        ensures
            r@ == Self::serial_of(self@),
    ;

    fn parse(text: &str) -> (r: Result<Self, Error>)
        ensures
            (match r {
                Ok(a) => Self::parse_of(text@) == Ok::<Self::V, Error>(a@),
                Err(e) => Self::parse_of(text@) == Err::<Self::V, Error>(e),
            }),
    ;

    /// An explicit copy with the same contents.
    fn dup(&self) -> (r: Self)
        ensures
            r@ == self@,
    ;

    /// Parsing the canonical text of a state yields that state again.
    proof fn lemma_round_trip(v: Self::V)
        ensures
            Self::parse_of(Self::serial_of(v)) == Ok::<Self::V, Error>(v),
    ;
}

impl<A: Aggregate> SnapshotEnvelope<A> {
    /// An explicit copy with the same contents.
    pub fn dup(&self) -> (r: SnapshotEnvelope<A>)
        ensures
            r@ == self@,
            r.sequence == self.sequence,
            r.state_time == self.state_time,
    {
        let r = SnapshotEnvelope::new(
            self.aggregate_id.clone(),
            self.aggregate_type.clone(),
            self.state.dup(),
            self.state_time,
            self.sequence,
        );
        proof {
            assert(r@ =~= self@);
        }
        r
    }
}

/// The left fold of `apply_of` over an event sequence: the optional state it
/// reaches, or the error of the first rejected event.
pub open spec fn fold_events<A: Aggregate>(
    state: Option<A::V>,
    events: Seq<<A::Event as View>::V>,
) -> Result<Option<A::V>, Error>
    decreases events.len(),
{
    if events.len() == 0 {
        Ok(state)
    } else {
        match A::apply_of(state, events[0]) {
            Ok(next) => fold_events::<A>(Some(next), events.skip(1)),
            Err(e) => Err(e),
        }
    }
}

/// The replay outcome: as `fold_events`, but an aggregate must exist after
/// replay — reaching no state is `InvalidState`.
pub open spec fn apply_all_of<A: Aggregate>(
    state: Option<A::V>,
    events: Seq<<A::Event as View>::V>,
) -> Result<A::V, Error> {
    match fold_events::<A>(state, events) {
        Ok(Some(a)) => Ok(a),
        Ok(None) => Err(Error::InvalidState),
        Err(e) => Err(e),
    }
}

/// Folds `apply` left-to-right over `events` starting from `state`; fails on
/// the first event that `apply` rejects, and with `InvalidState` when the
/// fold ends without an aggregate.
#[verifier::loop_isolation(false)]
pub fn apply_all<A: Aggregate>(state: Option<A>, events: Vec<A::Event>) -> (r: Result<A, Error>)
    ensures
        (match r {
            Ok(a) => apply_all_of::<A>(opt_view(state), views(events@)) == Ok::<A::V, Error>(a@),
            Err(e) => apply_all_of::<A>(opt_view(state), views(events@)) == Err::<A::V, Error>(e),
        }),
{
    let ghost init = opt_view(state);
    let ghost evs = views(events@);
    let mut cur: Option<A> = state;
    let mut i: usize = 0;
    proof {
        assert(evs.skip(0) =~= evs);
    }
    while i < events.len()
        invariant
            i <= events@.len(),
            evs == views(events@),
            evs.len() == events@.len(),
            fold_events::<A>(init, evs) == fold_events::<A>(opt_view(cur), evs.skip(i as int)),
        decreases events@.len() - i,
    {
        proof {
            assert(evs.skip(i as int)[0] == evs[i as int]);
            assert(evs[i as int] == events@[i as int]@);
            assert(evs.skip(i as int).skip(1) =~= evs.skip(i + 1));
        }
        let ghost curv = opt_view(cur);
        let event = events[i].dup();
        match A::apply(cur, event) {
            Ok(next) => {
                proof {
                    assert(fold_events::<A>(curv, evs.skip(i as int)) == fold_events::<A>(
                        Some(next@),
                        evs.skip(i + 1),
                    ));
                }
                cur = Some(next);
            },
            Err(e) => {
                proof {
                    assert(fold_events::<A>(curv, evs.skip(i as int)) == Err::<
                        Option<A::V>,
                        Error,
                    >(e));
                    assert(fold_events::<A>(init, evs) == Err::<Option<A::V>, Error>(e));
                }
                return Err(e);
            },
        }
        i = i + 1;
    }
    proof {
        assert(evs.skip(evs.len() as int) =~= Seq::<<A::Event as View>::V>::empty());
    }
    match cur {
        Some(a) => Ok(a),
        None => Err(Error::InvalidState),
    }
}

/// Splitting a fold: folding `a + b` is folding `a`, then folding `b` from
/// where `a` ended.
pub proof fn lemma_fold_append<A: Aggregate>(
    state: Option<A::V>,
    a: Seq<<A::Event as View>::V>,
    b: Seq<<A::Event as View>::V>,
)
    ensures
        fold_events::<A>(state, a + b) == (match fold_events::<A>(state, a) {
            Ok(m) => fold_events::<A>(m, b),
            Err(e) => Err(e),
        }),
    decreases a.len(),
{
    if a.len() == 0 {
        assert(a + b =~= b);
    } else {
        assert((a + b)[0] == a[0]);
        assert((a + b).skip(1) =~= a.skip(1) + b);
        match A::apply_of(state, a[0]) {
            Ok(next) => {
                lemma_fold_append::<A>(Some(next), a.skip(1), b);
            },
            Err(e) => {},
        }
    }
}

/// Replay determinism: replaying equal event sequences from nothing reaches
/// equal outcomes.  Replay is a mathematical function of its inputs, and the
/// executable `apply_all` is proved equal to it, so two runs over one history
/// cannot diverge.
pub proof fn lemma_replay_deterministic<A: Aggregate>(
    events: Seq<<A::Event as View>::V>,
    events_again: Seq<<A::Event as View>::V>,
)
    requires
        events == events_again,
    ensures
        apply_all_of::<A>(None, events) == apply_all_of::<A>(None, events_again),
{
}

/// Fold equivalence: replaying from a state reached at position `k` of a
/// history, over the rest of that history, equals replaying the whole
/// history from nothing.  A snapshot therefore never changes the outcome of
/// replay — it only bounds its cost.
pub proof fn lemma_fold_equivalence<A: Aggregate>(
    all: Seq<<A::Event as View>::V>,
    k: int,
    s: A::V,
)
    requires
        0 <= k <= all.len(),
        fold_events::<A>(None, all.take(k)) == Ok::<Option<A::V>, Error>(Some(s)),
    ensures
        apply_all_of::<A>(Some(s), all.skip(k)) == apply_all_of::<A>(None, all),
{
    assert(all.take(k) + all.skip(k) =~= all);
    lemma_fold_append::<A>(None, all.take(k), all.skip(k));
}

// ---------------------------------------------------------------------------
// Sequence engine
// ---------------------------------------------------------------------------

/// The greatest sequence value among the envelopes; 0 when there are none.
pub open spec fn max_sequence_of<EV>(envs: Seq<EventEnvelopeView<EV>>) -> int
    decreases envs.len(),
{
    if envs.len() == 0 {
        0
    } else if envs.len() == 1 {
        envs[0].sequence
    } else {
        let m = max_sequence_of(envs.drop_last());
        if envs.last().sequence > m {
            envs.last().sequence
        } else {
            m
        }
    }
}

/// The current position of an aggregate: the greatest sequence among the
/// events, or the snapshot's sequence when there are no events, or 0 when
/// there is neither.
pub open spec fn current_sequence_of<EV, AV>(
    envs: Seq<EventEnvelopeView<EV>>,
    snap: Option<SnapshotEnvelopeView<AV>>,
) -> int {
    if envs.len() > 0 {
        max_sequence_of(envs)
    } else {
        match snap {
            Some(s) => s.sequence,
            None => 0,
        }
    }
}

/// The position of the next event to be persisted.
pub open spec fn next_sequence_of<EV, AV>(
    envs: Seq<EventEnvelopeView<EV>>,
    snap: Option<SnapshotEnvelopeView<AV>>,
) -> int {
    current_sequence_of(envs, snap) + 1
}

/// The current position of an aggregate, computed from the events read and
/// the snapshot they were read after.  Stores are expected to return events
/// in ascending order, but the computation does not assume it: it takes the
/// greatest sequence value, not the last.
pub fn current_sequence<E: Event, A: Aggregate>(
    event_envelopes: &Vec<EventEnvelope<E>>,
    snapshot_envelope: &Option<SnapshotEnvelope<A>>,
) -> (r: i64)
    ensures
        r as int == current_sequence_of(views(event_envelopes@), opt_view(*snapshot_envelope)),
{
    let ghost envs = views(event_envelopes@);
    if event_envelopes.len() == 0 {
        match snapshot_envelope {
            Some(s) => s.sequence,
            None => 0,
        }
    } else {
        let mut m: i64 = event_envelopes[0].sequence;
        let mut i: usize = 1;
        proof {
            assert(envs.take(1) =~= seq![envs[0]]);
            assert(m as int == max_sequence_of(envs.take(1)));
        }
        while i < event_envelopes.len()
            invariant
                1 <= i <= envs.len(),
                envs == views(event_envelopes@),
                envs.len() == event_envelopes@.len(),
                m as int == max_sequence_of(envs.take(i as int)),
            decreases envs.len() - i,
        {
            proof {
                assert(envs.take(i + 1).drop_last() =~= envs.take(i as int));
                assert(envs.take(i + 1).last() == envs[i as int]);
                assert(envs[i as int] == event_envelopes@[i as int]@);
            }
            if event_envelopes[i].sequence > m {
                m = event_envelopes[i].sequence;
            }
            i = i + 1;
        }
        proof {
            assert(envs.take(envs.len() as int) =~= envs);
        }
        m
    }
}

/// The position to assign to the event produced by the current cycle.  The
/// caller supplies it to the store atomically with the write; the store never
/// assigns positions itself.
pub fn next_sequence<E: Event, A: Aggregate>(
    event_envelopes: &Vec<EventEnvelope<E>>,
    snapshot_envelope: &Option<SnapshotEnvelope<A>>,
) -> (r: i64)
    requires
        current_sequence_of(views(event_envelopes@), opt_view(*snapshot_envelope)) < i64::MAX,
        current_sequence_of(views(event_envelopes@), opt_view(*snapshot_envelope)) >= i64::MIN,
    ensures
        r as int == next_sequence_of(views(event_envelopes@), opt_view(*snapshot_envelope)),
{
    let c = current_sequence(event_envelopes, snapshot_envelope);
    c + 1
}

} // verus!
