//! The statement texts of the wide-column storage adapter.  The tables key
//! events and snapshots by `(aggregate_id, sequence)`, and the inserts are
//! conditional (`IF NOT EXISTS`): the storage's native insert-if-absent is
//! what realizes the engine's optimistic-concurrency contract.

use vstd::prelude::*;

use crate::text::{chars_to_string, dec_int, push_i64, push_str_chars};

verus! {

/// The text of the keyspace-creation statement for a replication factor.
pub open spec fn create_keyspace_text(replication_factor: int) -> Seq<char> {
    "CREATE KEYSPACE IF NOT EXISTS event_store WITH REPLICATION = {'class' : 'SimpleStrategy', 'replication_factor' : "@
        + dec_int(replication_factor) + "}"@
}

/// The keyspace-creation statement for the given replication factor.
pub fn create_keyspace(replication_factor: &i8) -> (r: String)
    ensures
        r@ == create_keyspace_text(*replication_factor as int),
{
    let mut out: Vec<char> = Vec::new();
    push_str_chars(
        &mut out,
        "CREATE KEYSPACE IF NOT EXISTS event_store WITH REPLICATION = {'class' : 'SimpleStrategy', 'replication_factor' : ",
    );
    push_i64(&mut out, *replication_factor as i64);
    push_str_chars(&mut out, "}");
    proof {
        assert(out@ =~= create_keyspace_text(*replication_factor as int));
    }
    chars_to_string(&out)
}

/// The text of the events-table creation statement.
pub open spec fn create_events_table_text() -> Seq<char> {
    "
CREATE TABLE IF NOT EXISTS event_store.events
(
    aggregate_id   VARCHAR,
    aggregate_type VARCHAR,
    event          TEXT,
    event_type     VARCHAR,
    event_time     TIMESTAMP,
    sequence       BIGINT,
    revision       BIGINT,
    metadata       MAP<VARCHAR, TEXT>,
    primary key (aggregate_id, sequence)
) WITH cdc = {'enabled': true}
"@
}

/// The events table: primary key `(aggregate_id, sequence)`.
pub fn create_events_table() -> (r: &'static str)
    ensures
        r@ == create_events_table_text(),
{
    "
CREATE TABLE IF NOT EXISTS event_store.events
(
    aggregate_id   VARCHAR,
    aggregate_type VARCHAR,
    event          TEXT,
    event_type     VARCHAR,
    event_time     TIMESTAMP,
    sequence       BIGINT,
    revision       BIGINT,
    metadata       MAP<VARCHAR, TEXT>,
    primary key (aggregate_id, sequence)
) WITH cdc = {'enabled': true}
"
}

/// The text of the conditional event insert.
pub open spec fn insert_event_text() -> Seq<char> {
    "
INSERT INTO event_store.events (aggregate_id, aggregate_type, event, event_type, event_time, sequence, revision, metadata)
VALUES (?, ?, ?, ?, ?, ?, ?, ?) IF NOT EXISTS
"@
}

/// The conditional insert of one event.
pub fn insert_event() -> (r: &'static str)
    ensures
        r@ == insert_event_text(),
{
    "
INSERT INTO event_store.events (aggregate_id, aggregate_type, event, event_type, event_time, sequence, revision, metadata)
VALUES (?, ?, ?, ?, ?, ?, ?, ?) IF NOT EXISTS
"
}

/// The text of the full-history read.
pub open spec fn read_events_text() -> Seq<char> {
    "
SELECT aggregate_id, aggregate_type, event, event_type, event_time, sequence, revision, metadata
FROM event_store.events
WHERE aggregate_id = ?
"@
}

/// All events of one aggregate.
pub fn read_events() -> (r: &'static str)
    ensures
        r@ == read_events_text(),
{
    "
SELECT aggregate_id, aggregate_type, event, event_type, event_time, sequence, revision, metadata
FROM event_store.events
WHERE aggregate_id = ?
"
}

/// The text of the history read from a sequence on.
pub open spec fn read_events_from_text() -> Seq<char> {
    "
SELECT aggregate_id, aggregate_type, event, event_type, event_time, sequence, revision, metadata
FROM event_store.events
WHERE aggregate_id = ? AND sequence >= ?
"@
}

/// The events of one aggregate from a sequence on.
pub fn read_events_from() -> (r: &'static str)
    ensures
        r@ == read_events_from_text(),
{
    "
SELECT aggregate_id, aggregate_type, event, event_type, event_time, sequence, revision, metadata
FROM event_store.events
WHERE aggregate_id = ? AND sequence >= ?
"
}

/// The text of the snapshots-table creation statement.
pub open spec fn create_snapshot_table_text() -> Seq<char> {
    "
CREATE TABLE IF NOT EXISTS event_store.snapshots
(
    aggregate_id   VARCHAR,
    aggregate_type VARCHAR,
    state          TEXT,
    state_time     TIMESTAMP,
    sequence       BIGINT,
    primary key (aggregate_id, sequence)
) WITH cdc = {'enabled': true}
"@
}

/// The snapshots table: primary key `(aggregate_id, sequence)`.
pub fn create_snapshot_table() -> (r: &'static str)
    ensures
        r@ == create_snapshot_table_text(),
{
    "
CREATE TABLE IF NOT EXISTS event_store.snapshots
(
    aggregate_id   VARCHAR,
    aggregate_type VARCHAR,
    state          TEXT,
    state_time     TIMESTAMP,
    sequence       BIGINT,
    primary key (aggregate_id, sequence)
) WITH cdc = {'enabled': true}
"
}

/// The text of the conditional snapshot insert.
pub open spec fn insert_snapshot_text() -> Seq<char> {
    "
INSERT INTO event_store.snapshots (aggregate_id, aggregate_type, state, state_time, sequence)
VALUES (?, ?, ?, ?, ?) IF NOT EXISTS
"@
}

/// The conditional insert of one snapshot.
pub fn insert_snapshot() -> (r: &'static str)
    ensures
        r@ == insert_snapshot_text(),
{
    "
INSERT INTO event_store.snapshots (aggregate_id, aggregate_type, state, state_time, sequence)
VALUES (?, ?, ?, ?, ?) IF NOT EXISTS
"
}

/// The text of the most-recent-snapshot read.
pub open spec fn read_snapshot_text() -> Seq<char> {
    "
SELECT aggregate_id, aggregate_type, state, state_time, sequence
FROM event_store.snapshots
WHERE aggregate_id = ?
ORDER BY sequence DESC
LIMIT 1
"@
}

/// The most recent snapshot of one aggregate.
pub fn read_snapshot() -> (r: &'static str)
    ensures
        r@ == read_snapshot_text(),
{
    "
SELECT aggregate_id, aggregate_type, state, state_time, sequence
FROM event_store.snapshots
WHERE aggregate_id = ?
ORDER BY sequence DESC
LIMIT 1
"
}

} // verus!
