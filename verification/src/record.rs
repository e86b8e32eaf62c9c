//! Conversions between envelopes and the plain row shapes that storage
//! adapters read and write: an adapter binds these records to its statements
//! and leaves the checking and payload coding to the engine.

use vstd::prelude::*;

use crate::aggregate::Aggregate;
use crate::envelope::{
    entries_view, metadata_wf, EventEnvelope, Metadata, SnapshotEnvelope,
};
use crate::event::Event;
use crate::Error;

verus! {

/// One row of an events table, as plain values.  The payload is its
/// canonical text; the metadata is an open list of key-value entries.
pub struct EventRecord {
    pub aggregate_id: String,
    pub aggregate_type: String,
    pub event: String,
    pub event_type: String,
    pub event_time: i64,
    pub sequence: i64,
    pub revision: i64,
    pub metadata: Vec<(String, String)>,
}

/// One row of a snapshots table, as plain values.
pub struct SnapshotRecord {
    pub aggregate_id: String,
    pub aggregate_type: String,
    pub state: String,
    pub state_time: i64,
    pub sequence: i64,
}

/// Decodes a stored row into an envelope: the payload text is parsed by the
/// event type's own codec, and a repeated metadata key is data corruption.
pub fn envelope_from_record<E: Event>(record: EventRecord) -> (r: Result<EventEnvelope<E>, Error>)
    ensures
        (match r {
            Ok(env) => {
                &&& E::parse_of(record.event@) == Ok::<E::V, Error>(env@.event)
                &&& metadata_wf(entries_view(record.metadata@))
                &&& env@.aggregate_id == record.aggregate_id@
                &&& env@.aggregate_type == record.aggregate_type@
                &&& env@.event_type == record.event_type@
                &&& env@.event_time == record.event_time as int
                &&& env@.sequence == record.sequence as int
                &&& env@.revision == record.revision as int
                &&& env@.metadata == entries_view(record.metadata@)
            },
            Err(e) => (match E::parse_of(record.event@) {
                Err(pe) => e == pe,
                Ok(_) => e == Error::DecodeError && !metadata_wf(entries_view(record.metadata@)),
            }),
        }),
{
    let event: E = match E::parse(record.event.as_str()) {
        Ok(e) => e,
        Err(e) => {
            return Err(e);
        },
    };
    let metadata = match Metadata::from_entries(record.metadata) {
        Some(m) => m,
        None => {
            return Err(Error::DecodeError);
        },
    };
    Ok(
        EventEnvelope::new(
            record.aggregate_id,
            record.aggregate_type,
            event,
            record.event_type,
            record.event_time,
            record.sequence,
            record.revision,
            metadata,
        ),
    )
}

/// Encodes an envelope as a row: the payload as its canonical text.
pub fn record_from_envelope<E: Event>(envelope: &EventEnvelope<E>) -> (r: EventRecord)
    ensures
        r.aggregate_id@ == envelope@.aggregate_id,
        r.aggregate_type@ == envelope@.aggregate_type,
        r.event@ == E::serial_of(envelope@.event),
        r.event_type@ == envelope@.event_type,
        r.event_time as int == envelope@.event_time,
        r.sequence as int == envelope@.sequence,
        r.revision as int == envelope@.revision,
        entries_view(r.metadata@) == envelope@.metadata,
{
    EventRecord {
        aggregate_id: envelope.aggregate_id.clone(),
        aggregate_type: envelope.aggregate_type.clone(),
        event: envelope.event.serialize(),
        event_type: envelope.event_type.clone(),
        event_time: envelope.event_time,
        sequence: envelope.sequence,
        revision: envelope.revision,
        metadata: envelope.metadata.to_entries(),
    }
}

/// Decodes a stored row into a snapshot: the state text is parsed by the
/// aggregate's own codec.
pub fn snapshot_from_record<A: Aggregate>(record: SnapshotRecord) -> (r: Result<
    SnapshotEnvelope<A>,
    Error,
>)
    ensures
        (match r {
            Ok(env) => {
                &&& A::parse_of(record.state@) == Ok::<A::V, Error>(env@.state)
                &&& env@.aggregate_id == record.aggregate_id@
                &&& env@.aggregate_type == record.aggregate_type@
                &&& env@.state_time == record.state_time as int
                &&& env@.sequence == record.sequence as int
            },
            Err(e) => A::parse_of(record.state@) == Err::<A::V, Error>(e),
        }),
{
    let state: A = match A::parse(record.state.as_str()) {
        Ok(s) => s,
        Err(e) => {
            return Err(e);
        },
    };
    Ok(
        SnapshotEnvelope::new(
            record.aggregate_id,
            record.aggregate_type,
            state,
            record.state_time,
            record.sequence,
        ),
    )
}

/// Encodes a snapshot as a row: the state as its canonical text.
pub fn record_from_snapshot<A: Aggregate>(envelope: &SnapshotEnvelope<A>) -> (r: SnapshotRecord)
    ensures
        r.aggregate_id@ == envelope@.aggregate_id,
        r.aggregate_type@ == envelope@.aggregate_type,
        r.state@ == A::serial_of(envelope@.state),
        r.state_time as int == envelope@.state_time,
        r.sequence as int == envelope@.sequence,
{
    SnapshotRecord {
        aggregate_id: envelope.aggregate_id.clone(),
        aggregate_type: envelope.aggregate_type.clone(),
        state: envelope.state.serialize(),
        state_time: envelope.state_time,
        sequence: envelope.sequence,
    }
}

/// Interprets the applied flag a conditional write hands back: not applied
/// means a losing writer.
pub fn conditional_write_outcome(applied: bool) -> (r: Result<(), Error>)
    ensures
        r == (if applied {
            Ok::<(), Error>(())
        } else {
            Err::<(), Error>(Error::ConcurrencyConflict)
        }),
{
    if applied {
        Ok(())
    } else {
        Err(Error::ConcurrencyConflict)
    }
}

} // verus!
