//! The persisted unit of the engine: an `EventEnvelope` wraps one event with
//! the identity and position of its aggregate; a `SnapshotEnvelope` wraps a
//! materialized aggregate state.  Timestamps are epoch milliseconds supplied
//! by the caller (an injectable clock keeps replay deterministic in tests).
//!
//! Both envelopes have mathematical views, and every contract of the engine
//! speaks about those views.

use vstd::prelude::*;

use crate::event::Event;

verus! {

/// An open string-to-string mapping for cross-cutting concerns such as trace
/// or correlation identifiers.  Keys are unique; the order of entries carries
/// no meaning beyond round-trip fidelity.
#[derive(Debug)]
pub struct Metadata {
    entries: Vec<(String, String)>,
}

/// True when `s` holds an entry under the key `k`.
pub open spec fn has_key(s: Seq<(Seq<char>, Seq<char>)>, k: Seq<char>) -> bool {
    exists|i: int| 0 <= i < s.len() && s[i].0 == k
}

/// Keys are unique.
pub open spec fn metadata_wf(s: Seq<(Seq<char>, Seq<char>)>) -> bool {
    forall|i: int, j: int| 0 <= i < j < s.len() ==> s[i].0 != s[j].0
}

/// The views of a sequence of owned entries.
pub open spec fn entries_view(s: Seq<(String, String)>) -> Seq<(Seq<char>, Seq<char>)> {
    s.map_values(|p: (String, String)| (p.0@, p.1@))
}

impl View for Metadata {
    type V = Seq<(Seq<char>, Seq<char>)>;

    closed spec fn view(&self) -> Seq<(Seq<char>, Seq<char>)> {
        entries_view(self.entries@)
    }
}

impl Metadata {
    pub fn new() -> (r: Metadata)
        ensures
            r@ == Seq::<(Seq<char>, Seq<char>)>::empty(),
    {
        let r = Metadata { entries: Vec::new() };
        proof {
            assert(r@ =~= Seq::<(Seq<char>, Seq<char>)>::empty());
        }
        r
    }

    pub fn len(&self) -> (r: usize)
        ensures
            r == self@.len(),
    {
        self.entries.len()
    }

    /// True when an entry under `key` exists.
    pub fn contains_key(&self, key: &String) -> (r: bool)
        ensures
            r == has_key(self@, key@),
    {
        let mut i: usize = 0;
        while i < self.entries.len()
            invariant
                i <= self@.len(),
                self@.len() == self.entries@.len(),
                forall|t: int| 0 <= t < i ==> self@[t].0 != key@,
            decreases self@.len() - i,
        {
            if self.entries[i].0 == *key {
                assert(self@[i as int].0 == key@);
                return true;
            }
            i = i + 1;
        }
        false
    }

    /// Adds an entry under a key not yet present.
    pub fn insert(&mut self, key: String, value: String)
        requires
            !has_key(old(self)@, key@),
        ensures
            final(self)@ == old(self)@.push((key@, value@)),
    {
        let ghost k = key@;
        let ghost v = value@;
        self.entries.push((key, value));
        proof {
            assert(self@ =~= old(self)@.push((k, v)));
        }
    }

    /// The value stored under `key`, if any.
    pub fn get(&self, key: &String) -> (r: Option<&String>)
        ensures
            (match r {
                Some(v) => exists|i: int| 0 <= i < self@.len() && self@[i] == (key@, v@),
                None => !has_key(self@, key@),
            }),
    {
        let mut i: usize = 0;
        while i < self.entries.len()
            invariant
                i <= self@.len(),
                self@.len() == self.entries@.len(),
                forall|t: int| 0 <= t < i ==> self@[t].0 != key@,
            decreases self@.len() - i,
        {
            if self.entries[i].0 == *key {
                assert(self@[i as int] == (key@, self.entries[i as int].1@));
                return Some(&self.entries[i].1);
            }
            i = i + 1;
        }
        None
    }

    /// The entry at a position, in insertion order.
    pub fn entry_at(&self, i: usize) -> (r: (&String, &String))
        requires
            i < self@.len(),
        ensures
            (r.0@, r.1@) == self@[i as int],
    {
        let p = &self.entries[i];
        (&p.0, &p.1)
    }

    /// Builds a map from owned entries, refusing a duplicated key.
    pub fn from_entries(entries: Vec<(String, String)>) -> (r: Option<Metadata>)
        ensures
            (match r {
                Some(m) => m@ == entries_view(entries@) && metadata_wf(m@),
                None => !metadata_wf(entries_view(entries@)),
            }),
    {
        let ghost vw = entries_view(entries@);
        let mut i: usize = 0;
        while i < entries.len()
            invariant
                i <= entries@.len(),
                vw == entries_view(entries@),
                vw.len() == entries@.len(),
                forall|a: int, b: int| 0 <= a < b < i ==> vw[a].0 != vw[b].0,
            decreases entries@.len() - i,
        {
            let mut j: usize = 0;
            while j < i
                invariant
                    j <= i < entries@.len(),
                    vw == entries_view(entries@),
                    vw.len() == entries@.len(),
                    forall|t: int| 0 <= t < j ==> vw[t].0 != vw[i as int].0,
                decreases i - j,
            {
                if entries[j].0 == entries[i].0 {
                    proof {
                        assert(vw[j as int].0 == vw[i as int].0);
                    }
                    return None;
                }
                j = j + 1;
            }
            i = i + 1;
        }
        Some(Metadata { entries })
    }

    /// The entries as an owned vector, in insertion order.
    pub fn to_entries(&self) -> (r: Vec<(String, String)>)
        ensures
            entries_view(r@) == self@,
    {
        let mut entries: Vec<(String, String)> = Vec::new();
        let mut i: usize = 0;
        while i < self.entries.len()
            invariant
                i <= self.entries@.len(),
                entries@ == self.entries@.take(i as int),
            decreases self.entries@.len() - i,
        {
            let k = self.entries[i].0.clone();
            let v = self.entries[i].1.clone();
            entries.push((k, v));
            proof {
                assert(entries@ =~= self.entries@.take(i + 1));
            }
            i = i + 1;
        }
        proof {
            assert(self.entries@.take(self.entries@.len() as int) =~= self.entries@);
        }
        entries
    }

    /// An explicit copy with the same entries.
    pub fn dup(&self) -> (r: Metadata)
        ensures
            r@ == self@,
    {
        let mut entries: Vec<(String, String)> = Vec::new();
        let mut i: usize = 0;
        while i < self.entries.len()
            invariant
                i <= self.entries@.len(),
                entries@ == self.entries@.take(i as int),
            decreases self.entries@.len() - i,
        {
            let k = self.entries[i].0.clone();
            let v = self.entries[i].1.clone();
            entries.push((k, v));
            proof {
                assert(entries@ =~= self.entries@.take(i + 1));
            }
            i = i + 1;
        }
        proof {
            assert(self.entries@.take(self.entries@.len() as int) =~= self.entries@);
        }
        Metadata { entries }
    }
}

/// The mathematical view of an `EventEnvelope`.
#[verifier::ext_equal]
pub struct EventEnvelopeView<EV> {
    pub aggregate_id: Seq<char>,
    pub aggregate_type: Seq<char>,
    pub event: EV,
    pub event_type: Seq<char>,
    pub event_time: int,
    pub sequence: int,
    pub revision: int,
    pub metadata: Seq<(Seq<char>, Seq<char>)>,
}

impl<EV> EventEnvelopeView<EV> {
    /// Well-formedness of a persisted event record: a positive position, a
    /// non-negative schema revision and timestamp, unique metadata keys.
    pub open spec fn wf(&self) -> bool {
        &&& self.sequence >= 1
        &&& self.revision >= 0
        &&& self.event_time >= 0
        &&& metadata_wf(self.metadata)
    }
}

/// The persisted record of one event: the event plus the identity of its
/// aggregate and its position in that aggregate's history.
///
/// Invariant of a store: for a fixed `aggregate_id` the persisted sequence
/// values form a contiguous run starting at 1, with no duplicates.
#[derive(Debug)]
pub struct EventEnvelope<E> {
    /// Identity of the aggregate the event belongs to.
    pub aggregate_id: String,
    /// Discriminator of the aggregate kind.
    pub aggregate_type: String,
    /// The event itself.
    pub event: E,
    /// Discriminator of the event, used to dispatch deserialization.
    pub event_type: String,
    /// Creation time, as epoch milliseconds supplied by the caller.
    pub event_time: i64,
    /// 1-based, contiguous position within the aggregate's history.
    pub sequence: i64,
    /// Schema version of the event payload.
    pub revision: i64,
    /// Open map for cross-cutting concerns.
    pub metadata: Metadata,
}

impl<E: View> View for EventEnvelope<E> {
    type V = EventEnvelopeView<E::V>;

    open spec fn view(&self) -> EventEnvelopeView<E::V> {
        EventEnvelopeView {
            aggregate_id: self.aggregate_id@,
            aggregate_type: self.aggregate_type@,
            event: self.event@,
            event_type: self.event_type@,
            event_time: self.event_time as int,
            sequence: self.sequence as int,
            revision: self.revision as int,
            metadata: self.metadata@,
        }
    }
}

impl<E: Event> EventEnvelope<E> {
    pub fn new(
        aggregate_id: String,
        aggregate_type: String,
        event: E,
        event_type: String,
        event_time: i64,
        sequence: i64,
        revision: i64,
        metadata: Metadata,
    ) -> (r: EventEnvelope<E>)
        ensures
            r@ == (EventEnvelopeView {
                aggregate_id: aggregate_id@,
                aggregate_type: aggregate_type@,
                event: event@,
                event_type: event_type@,
                event_time: event_time as int,
                sequence: sequence as int,
                revision: revision as int,
                metadata: metadata@,
            }),
            r.sequence == sequence,
            r.event_time == event_time,
            r.revision == revision,
    {
        EventEnvelope { aggregate_id, aggregate_type, event, event_type, event_time, sequence, revision, metadata }
    }

    /// An explicit copy with the same contents.
    pub fn dup(&self) -> (r: EventEnvelope<E>)
        ensures
            r@ == self@,
            r.sequence == self.sequence,
            r.event_time == self.event_time,
            r.revision == self.revision,
    {
        let r = EventEnvelope {
            aggregate_id: self.aggregate_id.clone(),
            aggregate_type: self.aggregate_type.clone(),
            event: self.event.dup(),
            event_type: self.event_type.clone(),
            event_time: self.event_time,
            sequence: self.sequence,
            revision: self.revision,
            metadata: self.metadata.dup(),
        };
        proof {
            assert(r@ =~= self@);
        }
        r
    }

    /// The event time rendered as an RFC 3339 timestamp.
    pub fn event_time_rfc3339(&self) -> (r: String)
        requires
            0 <= self.event_time < 253402300800000,
        ensures
            r@ == rfc3339_of(self.event_time as int),
    {
        format_rfc3339(self.event_time)
    }
}

/// The mathematical view of a `SnapshotEnvelope`.
#[verifier::ext_equal]
pub struct SnapshotEnvelopeView<AV> {
    pub aggregate_id: Seq<char>,
    pub aggregate_type: Seq<char>,
    pub state: AV,
    pub state_time: int,
    pub sequence: int,
}

impl<AV> SnapshotEnvelopeView<AV> {
    /// Well-formedness of a snapshot record: it covers at least one event.
    pub open spec fn wf(&self) -> bool {
        &&& self.sequence >= 1
        &&& self.state_time >= 0
    }
}

/// A materialized aggregate state at a specific point of its history; a pure
/// replay-cost optimization, never a source of truth.
#[derive(Debug)]
pub struct SnapshotEnvelope<A> {
    /// Identity of the aggregate the snapshot belongs to.
    pub aggregate_id: String,
    /// Discriminator of the aggregate kind.
    pub aggregate_type: String,
    /// The full aggregate value.
    pub state: A,
    /// Creation time, as epoch milliseconds supplied by the caller.
    pub state_time: i64,
    /// The sequence of the last event folded into `state`.
    pub sequence: i64,
}

impl<A: View> View for SnapshotEnvelope<A> {
    type V = SnapshotEnvelopeView<A::V>;

    open spec fn view(&self) -> SnapshotEnvelopeView<A::V> {
        SnapshotEnvelopeView {
            aggregate_id: self.aggregate_id@,
            aggregate_type: self.aggregate_type@,
            state: self.state@,
            state_time: self.state_time as int,
            sequence: self.sequence as int,
        }
    }
}

impl<A: View> SnapshotEnvelope<A> {
    pub fn new(
        aggregate_id: String,
        aggregate_type: String,
        state: A,
        state_time: i64,
        sequence: i64,
    ) -> (r: SnapshotEnvelope<A>)
        ensures
            r@ == (SnapshotEnvelopeView {
                aggregate_id: aggregate_id@,
                aggregate_type: aggregate_type@,
                state: state@,
                state_time: state_time as int,
                sequence: sequence as int,
            }),
            r.sequence == sequence,
            r.state_time == state_time,
    {
        SnapshotEnvelope { aggregate_id, aggregate_type, state, state_time, sequence }
    }

    /// The snapshot time rendered as an RFC 3339 timestamp.
    pub fn state_time_rfc3339(&self) -> (r: String)
        requires
            0 <= self.state_time < 253402300800000,
        ensures
            r@ == rfc3339_of(self.state_time as int),
    {
        format_rfc3339(self.state_time)
    }
}

/// The RFC 3339 rendering, at millisecond precision in UTC, of an epoch
/// millisecond value.  The text is a function of the value alone.
pub uninterp spec fn rfc3339_of(millis: int) -> Seq<char>;

/// Relies on chrono: `Utc::now().timestamp_millis()`, the system clock at
/// millisecond precision.  Nothing is assumed of the value: it depends on
/// the machine's clock, and callers state what they need of every outcome.
#[verifier::external_body]
pub fn now_millis() -> i64 {
    chrono::Utc::now().timestamp_millis()
}

/// Relies on chrono: `DateTime::<Utc>::from_timestamp_millis` (defined on the
/// whole range this function admits) composed with
/// `to_rfc3339_opts(SecondsFormat::Millis, true)`, whose output depends on
/// the millisecond value alone.
#[verifier::external_body]
pub fn format_rfc3339(millis: i64) -> (r: String)
    requires
        0 <= millis < 253402300800000,
    ensures
        r@ == rfc3339_of(millis as int),
{
    let dt = chrono::DateTime::<chrono::Utc>::from_timestamp_millis(millis).unwrap();
    dt.to_rfc3339_opts(chrono::SecondsFormat::Millis, true)
}

} // verus!
