//! The command handling cycle: read the latest snapshot and the events newer
//! than it, replay them, decide the new event against current state, compute
//! its position, and write it under the store's conditional-write contract.
//! `prepare_command` is the pure decision kernel; `handle_command` and
//! `handle_creation` drive it against the stores.

use vstd::prelude::*;

use crate::aggregate::{
    apply_all, apply_all_of, current_sequence_of, fold_events, lemma_fold_append,
    lemma_views_push, max_sequence_of, next_sequence, next_sequence_of, opt_view, views,
    Aggregate,
};
use crate::command::CommandResponse;
use crate::envelope::{
    metadata_wf, EventEnvelope, EventEnvelopeView, Metadata, SnapshotEnvelope,
    SnapshotEnvelopeView,
};
use crate::event::Event;
use crate::snapshot::{SnapshotStore, SnapshotStrategy};
use crate::store::{suffix_from, EventStore};
use crate::Error;

verus! {

/// The event carried by each envelope.
pub open spec fn payloads<EV>(envs: Seq<EventEnvelopeView<EV>>) -> Seq<EV> {
    envs.map_values(|e: EventEnvelopeView<EV>| e.event)
}

pub proof fn lemma_payloads_split<EV>(h: Seq<EventEnvelopeView<EV>>, k: int)
    requires
        0 <= k <= h.len(),
    ensures
        payloads(h) == payloads(h.take(k)) + payloads(h.skip(k)),
{
    assert(payloads(h) =~~= payloads(h.take(k)) + payloads(h.skip(k)));
}

pub proof fn lemma_payloads_push<EV>(h: Seq<EventEnvelopeView<EV>>, env: EventEnvelopeView<EV>)
    ensures
        payloads(h.push(env)) == payloads(h).push(env.event),
{
    assert(payloads(h.push(env)) =~~= payloads(h).push(env.event));
}

/// The events of the given envelopes, in order.
pub fn envelope_events<E: Event>(envs: &Vec<EventEnvelope<E>>) -> (r: Vec<E>)
    ensures
        views(r@) == payloads(views(envs@)),
{
    let mut r: Vec<E> = Vec::new();
    let mut i: usize = 0;
    proof {
        assert(views(r@) =~= payloads(views(envs@)).take(0));
    }
    while i < envs.len()
        invariant
            i <= envs@.len(),
            views(r@) == payloads(views(envs@)).take(i as int),
        decreases envs@.len() - i,
    {
        let d = envs[i].event.dup();
        let ghost r0 = r@;
        r.push(d);
        proof {
            lemma_views_push(r0, d);
            assert(payloads(views(envs@)).take(i + 1) =~= payloads(views(envs@)).take(
                i as int,
            ).push(payloads(views(envs@))[i as int]));
            assert(payloads(views(envs@))[i as int] == envs@[i as int].event@);
        }
        i = i + 1;
    }
    proof {
        assert(payloads(views(envs@)).take(envs@.len() as int) =~= payloads(views(envs@)));
    }
    r
}

/// The events a cycle replays: the whole history when there is no snapshot,
/// its tail past the snapshot's position otherwise.
pub open spec fn cycle_tail<EV, AV>(
    h: Seq<EventEnvelopeView<EV>>,
    snapshot: Option<SnapshotEnvelopeView<AV>>,
) -> Seq<EventEnvelopeView<EV>> {
    match snapshot {
        Some(s) => suffix_from(h, s.sequence + 1),
        None => h,
    }
}

/// The replay state a cycle starts from.
pub open spec fn cycle_start<AV>(snapshot: Option<SnapshotEnvelopeView<AV>>) -> Option<AV> {
    match snapshot {
        Some(s) => Some(s.state),
        None => None,
    }
}

/// The decision of one cycle: replay the tail from the snapshot state, then
/// apply the new event to the current state.  An error here means nothing is
/// written.
pub open spec fn decide_of<A: Aggregate>(
    snapshot: Option<SnapshotEnvelopeView<A::V>>,
    tail: Seq<EventEnvelopeView<<A::Event as View>::V>>,
    new_event: <A::Event as View>::V,
) -> Result<A::V, Error> {
    match apply_all_of::<A>(cycle_start(snapshot), payloads(tail)) {
        Ok(current) => A::apply_of(Some(current), new_event),
        Err(e) => Err(e),
    }
}

/// The envelope one cycle builds and persists, as a function of what the
/// cycle read and was given.
pub open spec fn cycle_envelope<A: Aggregate>(
    aggregate_id: Seq<char>,
    snapshot: Option<SnapshotEnvelopeView<A::V>>,
    tail: Seq<EventEnvelopeView<<A::Event as View>::V>>,
    new_event: <A::Event as View>::V,
    event_time: int,
    metadata: Seq<(Seq<char>, Seq<char>)>,
) -> EventEnvelopeView<<A::Event as View>::V> {
    EventEnvelopeView {
        aggregate_id,
        aggregate_type: A::aggregate_type_of(),
        event: new_event,
        event_type: <A::Event as Event>::event_type_of(new_event),
        event_time,
        sequence: next_sequence_of(tail, snapshot),
        revision: <A::Event as Event>::revision_of(new_event),
        metadata,
    }
}

/// The outcome of the pure part of one cycle: the state after the new event,
/// the envelope to persist, and the response for the caller.
pub struct PreparedCommand<A: Aggregate> {
    pub state: A,
    pub envelope: EventEnvelope<A::Event>,
    pub response: CommandResponse,
}

/// The pure decision kernel of one cycle: replays the snapshot and tail,
/// decides the new event, computes the next position, and builds the
/// envelope and the response.  Returns the domain error of replay or
/// decision, exactly when the decision rejects; writes nothing.
pub fn prepare_command<A: Aggregate>(
    aggregate_id: &String,
    snapshot: Option<SnapshotEnvelope<A>>,
    tail: Vec<EventEnvelope<A::Event>>,
    new_event: A::Event,
    event_time: i64,
    metadata: Metadata,
) -> (r: Result<PreparedCommand<A>, Error>)
    requires
        event_time >= 0,
        metadata_wf(metadata@),
        <A::Event as Event>::revision_of(new_event@) >= 0,
        0 <= current_sequence_of(views(tail@), opt_view(snapshot)) < i64::MAX,
    ensures
        (match r {
            Ok(p) => {
                &&& decide_of::<A>(opt_view(snapshot), views(tail@), new_event@) == Ok::<
                    A::V,
                    Error,
                >(p.state@)
                &&& p.envelope@ == cycle_envelope::<A>(
                    aggregate_id@,
                    opt_view(snapshot),
                    views(tail@),
                    new_event@,
                    event_time as int,
                    metadata@,
                )
                &&& p.envelope@.wf()
                &&& p.response.aggregate_id@ == aggregate_id@
                &&& p.response.sequence as int == next_sequence_of(
                    views(tail@),
                    opt_view(snapshot),
                )
            },
            Err(e) => decide_of::<A>(opt_view(snapshot), views(tail@), new_event@) == Err::<
                A::V,
                Error,
            >(e),
        }),
{
    let sequence = next_sequence::<A::Event, A>(&tail, &snapshot);
    let events = envelope_events(&tail);
    let state0: Option<A> = match &snapshot {
        Some(s) => Some(s.state.dup()),
        None => None,
    };
    proof {
        assert(opt_view(state0) == cycle_start::<A::V>(opt_view(snapshot)));
    }
    let current = match apply_all::<A>(state0, events) {
        Ok(c) => c,
        Err(e) => {
            return Err(e);
        },
    };
    let new_state = match A::apply(Some(current), new_event.dup()) {
        Ok(s) => s,
        Err(e) => {
            return Err(e);
        },
    };
    let event_type = new_event.event_type();
    let revision = new_event.revision();
    let aggregate_type = new_state.aggregate_type();
    let envelope = EventEnvelope::new(
        aggregate_id.clone(),
        aggregate_type,
        new_event,
        event_type,
        event_time,
        sequence,
        revision,
        metadata,
    );
    let response = CommandResponse { aggregate_id: aggregate_id.clone(), sequence };
    Ok(PreparedCommand { state: new_state, envelope, response })
}

// ---------------------------------------------------------------------------
// Sequence lemmas
// ---------------------------------------------------------------------------

/// A history that satisfies `history_wf` has its greatest sequence at its
/// end: the history's length.
pub proof fn lemma_max_sequence_contiguous<EV>(t: Seq<EventEnvelopeView<EV>>, base: int)
    requires
        t.len() > 0,
        forall|i: int| 0 <= i < t.len() ==> (#[trigger] t[i]).sequence == base + i + 1,
    ensures
        max_sequence_of(t) == base + t.len(),
    decreases t.len(),
{
    if t.len() == 1 {
    } else {
        lemma_max_sequence_contiguous(t.drop_last(), base);
        assert(t.last().sequence == base + t.len());
    }
}

/// Under the store's contiguity invariant, the position a cycle computes is
/// exactly the one past the end of the aggregate's history: the conditional
/// write accepts it.
pub proof fn lemma_next_sequence_extends<EV, AV>(
    h: Seq<EventEnvelopeView<EV>>,
    snapshot: Option<SnapshotEnvelopeView<AV>>,
    id: Seq<char>,
)
    requires
        crate::store::history_wf(h, id),
        (match snapshot {
            Some(s) => 1 <= s.sequence <= h.len(),
            None => true,
        }),
    ensures
        next_sequence_of(cycle_tail(h, snapshot), snapshot) == h.len() + 1,
{
    let t = cycle_tail(h, snapshot);
    match snapshot {
        None => {
            if h.len() > 0 {
                lemma_max_sequence_contiguous(h, 0);
            }
        },
        Some(s) => {
            let k = s.sequence;
            if k == h.len() {
                assert(t =~= h.skip(k));
                assert(t.len() == 0);
            } else {
                assert(t =~= h.skip(k));
                assert(t.len() > 0);
                assert forall|i: int| 0 <= i < t.len() implies (#[trigger] t[i]).sequence == k + i
                    + 1 by {
                    assert(t[i] == h[k + i]);
                }
                lemma_max_sequence_contiguous(t, k);
            }
        },
    }
}

// ---------------------------------------------------------------------------
// Snapshot non-authority
// ---------------------------------------------------------------------------

/// Coherence of a snapshot with its aggregate's history: the snapshot covers
/// a prefix of the history and its state is the fold of exactly that prefix.
pub open spec fn snapshot_coherent<A: Aggregate>(
    h: Seq<EventEnvelopeView<<A::Event as View>::V>>,
    snapshot: Option<SnapshotEnvelopeView<A::V>>,
) -> bool {
    match snapshot {
        Some(s) => {
            &&& 1 <= s.sequence <= h.len()
            &&& fold_events::<A>(None, payloads(h.take(s.sequence))) == Ok::<
                Option<A::V>,
                Error,
            >(Some(s.state))
        },
        None => true,
    }
}

/// Snapshot non-authority: a snapshot never changes what replay computes.
/// Replaying the tail past a coherent snapshot, from its state, is exactly
/// replaying the full history from nothing — so deleting or losing every
/// snapshot leaves every replay outcome unchanged, and only costs work.
pub proof fn lemma_snapshot_non_authority<A: Aggregate>(
    h: Seq<EventEnvelopeView<<A::Event as View>::V>>,
    snapshot: Option<SnapshotEnvelopeView<A::V>>,
)
    requires
        snapshot_coherent::<A>(h, snapshot),
    ensures
        apply_all_of::<A>(cycle_start(snapshot), payloads(cycle_tail(h, snapshot)))
            == apply_all_of::<A>(None, payloads(h)),
{
    match snapshot {
        None => {
        },
        Some(s) => {
            let k = s.sequence;
            assert(cycle_tail(h, snapshot) =~= h.skip(k));
            lemma_payloads_split(h, k);
            lemma_fold_append::<A>(None, payloads(h.take(k)), payloads(h.skip(k)));
            assert(payloads(h.take(k)) + payloads(h.skip(k)) == payloads(h));
        },
    }
}

// ---------------------------------------------------------------------------
// The cycle against the stores
// ---------------------------------------------------------------------------

/// Coherence of the two stores: every snapshot held is coherent with its
/// aggregate's event history.  The command cycle preserves it.
pub open spec fn stores_coherent<A: Aggregate, ES: EventStore<A::Event>, SS: SnapshotStore<A>>(
    es: &ES,
    ss: &SS,
) -> bool {
    forall|id: Seq<char>| snapshot_coherent::<A>(es.history(id), #[trigger] ss.latest(id))
}

/// The snapshot a cycle writes when its strategy says one is due.
pub open spec fn cycle_snapshot<A: Aggregate>(
    aggregate_id: Seq<char>,
    state: A::V,
    event_time: int,
    sequence: int,
) -> SnapshotEnvelopeView<A::V> {
    SnapshotEnvelopeView {
        aggregate_id,
        aggregate_type: A::aggregate_type_of(),
        state,
        state_time: event_time,
        sequence,
    }
}

/// One full command cycle against an existing aggregate: read the latest
/// snapshot and the events past it, replay and decide, persist the new event
/// under the conditional write, and — when the strategy says one is due —
/// persist a snapshot of the new state, whose failure is swallowed: the
/// event write is the durable source of truth.
///
/// A caller that observes `ConcurrencyConflict` must restart the whole
/// cycle: only re-reading can observe the winning writer's events.
pub fn handle_command<A: Aggregate, ES: EventStore<A::Event>, SS: SnapshotStore<A>>(
    event_store: &mut ES,
    snapshot_store: &mut SS,
    target: Option<&String>,
    new_event: A::Event,
    event_time: i64,
    metadata: Metadata,
    strategy: &SnapshotStrategy,
) -> (r: Result<CommandResponse, Error>)
    requires
        old(event_store).inv(),
        old(snapshot_store).inv(),
        stores_coherent::<A, ES, SS>(old(event_store), old(snapshot_store)),
        event_time >= 0,
        metadata_wf(metadata@),
        <A::Event as Event>::revision_of(new_event@) >= 0,
        (match target {
            Some(tid) => old(event_store).history(tid@).len() < i64::MAX && old(
                event_store,
            ).history(tid@).len() < usize::MAX,
            None => true,
        }),
    ensures
        final(event_store).inv(),
        final(snapshot_store).inv(),
        stores_coherent::<A, ES, SS>(final(event_store), final(snapshot_store)),
        (match r {
            Ok(resp) => (match target {
                Some(tid) => {
                    let id = tid@;
                    let h = old(event_store).history(id);
                    let sn = old(snapshot_store).latest(id);
                    let tail = cycle_tail(h, sn);
                    &&& decide_of::<A>(sn, tail, new_event@) is Ok
                    &&& resp.aggregate_id@ == id
                    &&& resp.sequence as int == h.len() + 1
                    &&& final(event_store).history(id) == h.push(
                        cycle_envelope::<A>(
                            id,
                            sn,
                            tail,
                            new_event@,
                            event_time as int,
                            metadata@,
                        ),
                    )
                    &&& (final(snapshot_store).latest(id) == sn || (strategy.due_spec(
                        tail.len() as int + 1,
                    ) && final(snapshot_store).latest(id) == Some(
                        cycle_snapshot::<A>(
                            id,
                            decide_of::<A>(sn, tail, new_event@)->Ok_0,
                            event_time as int,
                            h.len() as int + 1,
                        ),
                    )))
                    &&& forall|id2: Seq<char>|
                        id2 != id ==> final(event_store).history(id2) == old(
                            event_store,
                        ).history(id2)
                    &&& forall|id2: Seq<char>|
                        id2 != id ==> final(snapshot_store).latest(id2) == old(
                            snapshot_store,
                        ).latest(id2)
                },
                None => false,
            }),
            Err(e) => {
                &&& forall|id2: Seq<char>|
                    final(event_store).history(id2) == old(event_store).history(id2)
                &&& forall|id2: Seq<char>|
                    final(snapshot_store).latest(id2) == old(snapshot_store).latest(id2)
                &&& (target is None ==> e == Error::MissingTargetAggregateIdentifier)
                &&& (match target {
                    Some(tid) => e == Error::InfrastructureError || decide_of::<A>(
                        old(snapshot_store).latest(tid@),
                        cycle_tail(old(event_store).history(tid@), old(snapshot_store).latest(tid@)),
                        new_event@,
                    ) == Err::<A::V, Error>(e),
                    None => true,
                })
            },
        }),
{
    let aggregate_id = match target {
        Some(tid) => tid,
        None => {
            return Err(Error::MissingTargetAggregateIdentifier);
        },
    };
    let ghost id = aggregate_id@;
    let ghost h = event_store.history(id);
    let ghost sn = snapshot_store.latest(id);
    proof {
        event_store.lemma_inv_histories(id);
        snapshot_store.lemma_inv_latest(id);
        assert(snapshot_coherent::<A>(h, sn));
    }
    // step 2: read the latest snapshot, then the events past it
    let snapshot = match snapshot_store.read(aggregate_id) {
        Ok(s) => s,
        Err(e) => {
            return Err(e);
        },
    };
    let from: i64 = match &snapshot {
        Some(s) => s.sequence + 1,
        None => 1,
    };
    let tail = match event_store.read_from(aggregate_id, from) {
        Ok(t) => t,
        Err(e) => {
            return Err(e);
        },
    };
    let ghost tailv = views(tail@);
    proof {
        assert(tailv == cycle_tail(h, sn));
        lemma_next_sequence_extends(h, sn, id);
    }
    let events_folded = tail.len() + 1;
    // steps 3-5: replay, decide, compute the position, build the envelope
    let prepared = match prepare_command::<A>(
        aggregate_id,
        snapshot,
        tail,
        new_event,
        event_time,
        metadata,
    ) {
        Ok(p) => p,
        Err(e) => {
            return Err(e);
        },
    };
    let PreparedCommand { state, envelope, response } = prepared;
    let ghost env = envelope@;
    // step 6: the conditional write
    match event_store.persist(&envelope) {
        Ok(()) => {},
        Err(e) => {
            proof {
                assert(e != Error::ConcurrencyConflict);
            }
            return Err(e);
        },
    }
    let ghost h2 = event_store.history(id);
    proof {
        assert(h2 == h.push(env));
        // the old snapshot stays coherent with the extended history
        assert forall|id2: Seq<char>| snapshot_coherent::<A>(
            event_store.history(id2),
            #[trigger] snapshot_store.latest(id2),
        ) by {
            if id2 == id {
                if let Some(s) = sn {
                    assert(h2.take(s.sequence) =~= h.take(s.sequence));
                }
            } else {
                assert(event_store.history(id2) == old(event_store).history(id2));
            }
        }
    }
    // step 7: a snapshot when the strategy says one is due; its failure does
    // not fail the command
    if strategy.due(events_folded) {
        let aggregate_type = state.aggregate_type();
        let snapshot_envelope = SnapshotEnvelope::new(
            aggregate_id.clone(),
            aggregate_type,
            state,
            event_time,
            response.sequence,
        );
        proof {
            // the new state is the fold of the whole extended history
            let start = cycle_start(sn);
            let pt = payloads(tailv);
            let out = snapshot_envelope@.state;
            assert(decide_of::<A>(sn, tailv, new_event@) == Ok::<A::V, Error>(out));
            assert(apply_all_of::<A>(start, pt) is Ok);
            let cur = apply_all_of::<A>(start, pt)->Ok_0;
            assert(A::apply_of(Some(cur), new_event@) == Ok::<A::V, Error>(out));
            lemma_snapshot_non_authority::<A>(h, sn);
            assert(apply_all_of::<A>(None, payloads(h)) == Ok::<A::V, Error>(cur));
            assert(fold_events::<A>(None, payloads(h)) == Ok::<Option<A::V>, Error>(Some(cur)));
            lemma_payloads_push(h, env);
            assert(payloads(h2) =~= payloads(h) + seq![new_event@]);
            lemma_fold_append::<A>(None, payloads(h), seq![new_event@]);
            let unit = seq![new_event@];
            assert(unit[0] == new_event@);
            assert(unit.skip(1) =~= Seq::<<A::Event as View>::V>::empty());
            assert(fold_events::<A>(Some(out), Seq::<<A::Event as View>::V>::empty()) == Ok::<
                Option<A::V>,
                Error,
            >(Some(out)));
            assert(fold_events::<A>(Some(cur), unit) == Ok::<Option<A::V>, Error>(Some(out)));
            assert(fold_events::<A>(None, payloads(h2)) == Ok::<Option<A::V>, Error>(Some(out)));
        }
        match snapshot_store.persist(&snapshot_envelope) {
            Ok(()) => {
                proof {
                    assert forall|id2: Seq<char>| snapshot_coherent::<A>(
                        event_store.history(id2),
                        #[trigger] snapshot_store.latest(id2),
                    ) by {
                        if id2 == id {
                            assert(h2.take(h2.len() as int) =~= h2);
                        }
                    }
                }
            },
            Err(_) => {},
        }
    }
    // step 8
    Ok(response)
}

/// One creation cycle: a command that brings a new aggregate into being
/// reads nothing — it applies its event to no prior state and persists at
/// position 1.  A second creator of the same aggregate loses the conditional
/// write and observes `ConcurrencyConflict`.
///
/// The snapshot store is read by the contract alone: coherence of the pair
/// of stores is preserved because a fresh aggregate has no snapshot.
pub fn handle_creation<A: Aggregate, ES: EventStore<A::Event>, SS: SnapshotStore<A>>(
    event_store: &mut ES,
    snapshot_store: &SS,
    aggregate_id: &String,
    new_event: A::Event,
    event_time: i64,
    metadata: Metadata,
) -> (r: Result<CommandResponse, Error>)
    requires
        old(event_store).inv(),
        snapshot_store.inv(),
        stores_coherent::<A, ES, SS>(old(event_store), snapshot_store),
        event_time >= 0,
        metadata_wf(metadata@),
        <A::Event as Event>::revision_of(new_event@) >= 0,
    ensures
        final(event_store).inv(),
        stores_coherent::<A, ES, SS>(final(event_store), snapshot_store),
        (match r {
            Ok(resp) => {
                let id = aggregate_id@;
                &&& A::apply_of(None, new_event@) is Ok
                &&& old(event_store).history(id).len() == 0
                &&& resp.aggregate_id@ == id
                &&& resp.sequence == 1
                &&& final(event_store).history(id) == old(event_store).history(id).push(
                    cycle_envelope::<A>(
                        id,
                        None,
                        Seq::empty(),
                        new_event@,
                        event_time as int,
                        metadata@,
                    ),
                )
                &&& forall|id2: Seq<char>|
                    id2 != id ==> final(event_store).history(id2) == old(event_store).history(
                        id2,
                    )
            },
            Err(e) => {
                &&& forall|id2: Seq<char>|
                    final(event_store).history(id2) == old(event_store).history(id2)
                &&& (A::apply_of(None, new_event@) == Err::<A::V, Error>(e) || (A::apply_of(
                    None,
                    new_event@,
                ) is Ok && ((e == Error::ConcurrencyConflict && old(event_store).history(
                    aggregate_id@,
                ).len() != 0) || e == Error::InfrastructureError)))
            },
        }),
{
    let ghost id = aggregate_id@;
    let ghost h = event_store.history(id);
    let state = match A::apply(None, new_event.dup()) {
        Ok(s) => s,
        Err(e) => {
            return Err(e);
        },
    };
    let event_type = new_event.event_type();
    let revision = new_event.revision();
    let aggregate_type = state.aggregate_type();
    let envelope = EventEnvelope::new(
        aggregate_id.clone(),
        aggregate_type,
        new_event,
        event_type,
        event_time,
        1,
        revision,
        metadata,
    );
    proof {
        assert(envelope@ == cycle_envelope::<A>(
            id,
            None,
            Seq::empty(),
            new_event@,
            event_time as int,
            metadata@,
        ));
    }
    match event_store.persist(&envelope) {
        Ok(()) => {
            proof {
                assert forall|id2: Seq<char>| snapshot_coherent::<A>(
                    event_store.history(id2),
                    #[trigger] snapshot_store.latest(id2),
                ) by {
                    assert(snapshot_coherent::<A>(h, snapshot_store.latest(id2)) || id2 != id);
                    if id2 == id {
                        assert(snapshot_coherent::<A>(h, snapshot_store.latest(id)));
                        assert(h.len() == 0);
                    } else {
                        assert(event_store.history(id2) == old(event_store).history(id2));
                    }
                }
            }
            Ok(CommandResponse { aggregate_id: aggregate_id.clone(), sequence: 1 })
        },
        Err(e) => Err(e),
    }
}

} // verus!
