use std::str::FromStr;

use event_sourcing::account::{Account, AccountEvent};
use event_sourcing::envelope::{EventEnvelope, Metadata, SnapshotEnvelope};
use event_sourcing::event::Event;
use event_sourcing::memory::{InMemoryEventStore, InMemorySnapshotStore};
use event_sourcing::snapshot::SnapshotStore;
use event_sourcing::store::EventStore;
use event_sourcing::Error;

fn envelope(aggregate_id: &str, sequence: i64, event: AccountEvent) -> EventEnvelope<AccountEvent> {
    let event_type = event.event_type();
    EventEnvelope::new(
        aggregate_id.to_string(),
        "BankAccount".to_string(),
        event,
        event_type,
        0,
        sequence,
        1,
        Metadata::new(),
    )
}

#[test]
fn it_persists_and_reads_events() {
    let id = uuid::Uuid::from_str("2e996ba1-03a6-47af-8fd1-2039c6708dd4").expect("expected uuid");
    let data = AccountEvent::Opened {
        account_id: id.to_string(),
        name: String::from("name"),
    };
    let event_envelope: EventEnvelope<AccountEvent> = EventEnvelope::new(
        String::from("aggregate_id"),
        String::from("aggregate_type"),
        data,
        String::from("event_type"),
        0,
        1,
        1,
        Metadata::new(),
    );
    let mut event_store = InMemoryEventStore::new();
    let _inserted_event_envelope_result = event_store.persist(&event_envelope);
    let event_envelopes_result: Result<Vec<EventEnvelope<AccountEvent>>, Error> =
        event_store.read(&String::from("aggregate_id"));
    assert_eq!(event_envelopes_result.expect("expected events").len(), 1)
}

#[test]
fn read_of_unknown_aggregate_is_empty_not_an_error() {
    let store: InMemoryEventStore<AccountEvent> = InMemoryEventStore::new();
    let events = store.read(&"nobody".to_string()).expect("expected a read");
    assert!(events.is_empty());
}

#[test]
fn sequences_are_contiguous_from_one() {
    // after three successful persists the history is exactly 1, 2, 3
    let mut store = InMemoryEventStore::new();
    let open = envelope("acc", 1, AccountEvent::Opened { account_id: "acc".into(), name: "n".into() });
    let dep = envelope("acc", 2, AccountEvent::Deposited { account_id: "acc".into(), amount: 10 });
    let wd = envelope("acc", 3, AccountEvent::Withdrew { account_id: "acc".into(), amount: 5 });
    assert!(store.persist(&open).is_ok());
    assert!(store.persist(&dep).is_ok());
    assert!(store.persist(&wd).is_ok());
    let events = store.read(&"acc".to_string()).unwrap();
    assert_eq!(events.len(), 3);
    for (i, e) in events.iter().enumerate() {
        assert_eq!(e.sequence, i as i64 + 1);
        assert_eq!(e.aggregate_id, "acc");
    }
}

#[test]
fn gap_or_duplicate_sequences_are_refused() {
    let mut store = InMemoryEventStore::new();
    let open = envelope("a", 1, AccountEvent::Opened { account_id: "a".into(), name: "n".into() });
    assert!(store.persist(&open).is_ok());
    // a duplicate key loses the conditional write
    let dup = envelope("a", 1, AccountEvent::Closed { account_id: "a".into() });
    assert_eq!(store.persist(&dup).unwrap_err(), Error::ConcurrencyConflict);
    // so does a write that would leave a gap
    let gap = envelope("a", 3, AccountEvent::Closed { account_id: "a".into() });
    assert_eq!(store.persist(&gap).unwrap_err(), Error::ConcurrencyConflict);
    // the history is unchanged
    assert_eq!(store.read(&"a".to_string()).unwrap().len(), 1);
}

#[test]
fn conflict_exclusivity_of_racing_writers() {
    // two writers both computed sequence 1 for a fresh aggregate: exactly one
    // wins, the other observes the conflict
    let mut store = InMemoryEventStore::new();
    let first = envelope("race", 1, AccountEvent::Opened { account_id: "race".into(), name: "x".into() });
    let second = envelope("race", 1, AccountEvent::Opened { account_id: "race".into(), name: "y".into() });
    let r1 = store.persist(&first);
    let r2 = store.persist(&second);
    assert!(r1.is_ok());
    assert_eq!(r2.unwrap_err(), Error::ConcurrencyConflict);
}

#[test]
fn read_from_returns_the_tail() {
    let mut store = InMemoryEventStore::new();
    for s in 1..=4 {
        let e = if s == 1 {
            AccountEvent::Opened { account_id: "t".into(), name: "n".into() }
        } else {
            AccountEvent::Deposited { account_id: "t".into(), amount: s }
        };
        assert!(store.persist(&envelope("t", s, e)).is_ok());
    }
    let tail = store.read_from(&"t".to_string(), 3).unwrap();
    assert_eq!(tail.len(), 2);
    assert_eq!(tail[0].sequence, 3);
    assert_eq!(tail[1].sequence, 4);
    let all = store.read_from(&"t".to_string(), 1).unwrap();
    assert_eq!(all.len(), 4);
    let none = store.read_from(&"t".to_string(), 9).unwrap();
    assert!(none.is_empty());
}

#[test]
fn snapshot_store_keeps_the_most_recent() {
    let mut store: InMemorySnapshotStore<Account> = InMemorySnapshotStore::new();
    assert!(store.read(&"s".to_string()).unwrap().is_none());
    let first = SnapshotEnvelope::new(
        "s".to_string(),
        "BankAccount".to_string(),
        Account { name: "n".into(), account_id: "s".into(), balance: 10 },
        0,
        2,
    );
    assert!(store.persist(&first).is_ok());
    // an older snapshot loses the conditional write
    let stale = SnapshotEnvelope::new(
        "s".to_string(),
        "BankAccount".to_string(),
        Account { name: "n".into(), account_id: "s".into(), balance: 5 },
        0,
        1,
    );
    assert_eq!(store.persist(&stale).unwrap_err(), Error::ConcurrencyConflict);
    let newer = SnapshotEnvelope::new(
        "s".to_string(),
        "BankAccount".to_string(),
        Account { name: "n".into(), account_id: "s".into(), balance: 30 },
        0,
        5,
    );
    assert!(store.persist(&newer).is_ok());
    let held = store.read(&"s".to_string()).unwrap().expect("expected a snapshot");
    assert_eq!(held.sequence, 5);
    assert_eq!(held.state.balance, 30);
}

#[test]
fn metadata_is_a_unique_key_map() {
    let mut metadata = Metadata::new();
    metadata.insert("trace-id".to_string(), "t-1".to_string());
    metadata.insert("correlation-id".to_string(), "c-1".to_string());
    assert_eq!(metadata.len(), 2);
    assert!(metadata.contains_key(&"trace-id".to_string()));
    assert!(!metadata.contains_key(&"span-id".to_string()));
    assert_eq!(metadata.get(&"correlation-id".to_string()).unwrap().as_str(), "c-1");
    assert!(metadata.get(&"span-id".to_string()).is_none());
    let copy = metadata.dup();
    assert_eq!(copy.len(), 2);
    // a repeated key is refused when building from raw entries
    let dup_entries = vec![
        ("k".to_string(), "1".to_string()),
        ("k".to_string(), "2".to_string()),
    ];
    assert!(Metadata::from_entries(dup_entries).is_none());
    let ok_entries = vec![
        ("a".to_string(), "1".to_string()),
        ("b".to_string(), "2".to_string()),
    ];
    assert!(Metadata::from_entries(ok_entries).is_some());
}

#[test]
fn error_messages_name_each_kind() {
    assert_eq!(
        Error::MissingTargetAggregateIdentifier.message(),
        "target aggregate identifier must be provided"
    );
    assert_eq!(Error::InvalidEvent.message(), "invalid event");
    assert_eq!(Error::InvalidState.message(), "invalid state");
    assert_eq!(Error::ConcurrencyConflict.message(), "concurrency conflict");
    assert_eq!(Error::InfrastructureError.message(), "infrastructure error");
    assert_eq!(Error::DecodeError.message(), "decode error");
}

#[test]
fn read_from_the_start_or_below_returns_everything() {
    let mut store = InMemoryEventStore::new();
    let open = envelope("z", 1, AccountEvent::Opened { account_id: "z".into(), name: "n".into() });
    let dep = envelope("z", 2, AccountEvent::Deposited { account_id: "z".into(), amount: 1 });
    assert!(store.persist(&open).is_ok());
    assert!(store.persist(&dep).is_ok());
    assert_eq!(store.read_from(&"z".to_string(), 0).unwrap().len(), 2);
    assert_eq!(store.read_from(&"z".to_string(), -5).unwrap().len(), 2);
    assert_eq!(store.read_from(&"z".to_string(), 2).unwrap().len(), 1);
}
