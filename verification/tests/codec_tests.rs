use event_sourcing::account::{Account, AccountEvent};
use event_sourcing::aggregate::Aggregate;
use event_sourcing::codec::{parse_envelope, serialize_envelope};
use event_sourcing::envelope::{EventEnvelope, Metadata};
use event_sourcing::event::Event;
use event_sourcing::query::create_keyspace;
use event_sourcing::record::{
    conditional_write_outcome, envelope_from_record, record_from_envelope,
    record_from_snapshot, snapshot_from_record, EventRecord, SnapshotRecord,
};
use event_sourcing::Error;

fn sample_envelope() -> EventEnvelope<AccountEvent> {
    let mut metadata = Metadata::new();
    metadata.insert("trace-id".to_string(), "trace \"quoted\"".to_string());
    metadata.insert("correlation-id".to_string(), "back\\slash".to_string());
    EventEnvelope::new(
        "acc-1".to_string(),
        "BankAccount".to_string(),
        AccountEvent::Deposited { account_id: "acc-1".to_string(), amount: -42 },
        "Deposited".to_string(),
        947638923004,
        3,
        1,
        metadata,
    )
}

#[test]
fn event_payloads_round_trip() {
    let cases = vec![
        AccountEvent::Opened { account_id: "a\"b".to_string(), name: "na\\me".to_string() },
        AccountEvent::Deposited { account_id: "a".to_string(), amount: i64::MAX },
        AccountEvent::Withdrew { account_id: "a".to_string(), amount: i64::MIN },
        AccountEvent::Closed { account_id: String::new() },
    ];
    for event in cases {
        let text = event.serialize();
        let back = AccountEvent::parse(text.as_str()).expect("expected the payload to parse");
        assert_eq!(back.serialize(), text);
    }
}

#[test]
fn event_payload_text_is_canonical() {
    let event = AccountEvent::Deposited { account_id: "acc-1".to_string(), amount: 100 };
    assert_eq!(
        event.serialize(),
        "{\"Deposited\":{\"account_id\":\"acc-1\",\"amount\":100}}"
    );
    let opened = AccountEvent::Opened { account_id: "x".to_string(), name: "He said \"hi\"".to_string() };
    assert_eq!(
        opened.serialize(),
        "{\"Opened\":{\"account_id\":\"x\",\"name\":\"He said \\\"hi\\\"\"}}"
    );
}

#[test]
fn malformed_payload_text_is_a_decode_error() {
    assert_eq!(
        AccountEvent::parse("not an event").unwrap_err(),
        Error::DecodeError
    );
    assert_eq!(
        AccountEvent::parse("{\"Deposited\":{\"account_id\":\"a\",\"amount\":12east}}").unwrap_err(),
        Error::DecodeError
    );
    assert_eq!(Account::parse("{\"name\":\"x\"").unwrap_err(), Error::DecodeError);
}

#[test]
fn aggregate_state_round_trips() {
    let account = Account {
        name: "strange \"name\"\\".to_string(),
        account_id: "id-9".to_string(),
        balance: -7,
    };
    let text = account.serialize();
    let back = Account::parse(text.as_str()).expect("expected the state to parse");
    assert_eq!(back.name, account.name);
    assert_eq!(back.account_id, account.account_id);
    assert_eq!(back.balance, account.balance);
}

#[test]
fn envelope_round_trips() {
    let envelope = sample_envelope();
    let text = serialize_envelope(&envelope);
    let back: EventEnvelope<AccountEvent> =
        parse_envelope(text.as_str()).expect("expected the envelope to parse");
    assert_eq!(back.aggregate_id, envelope.aggregate_id);
    assert_eq!(back.aggregate_type, envelope.aggregate_type);
    assert_eq!(back.event_type, envelope.event_type);
    assert_eq!(back.event_time, envelope.event_time);
    assert_eq!(back.sequence, envelope.sequence);
    assert_eq!(back.revision, envelope.revision);
    match &back.event {
        AccountEvent::Deposited { account_id, amount } => {
            assert_eq!(account_id, "acc-1");
            assert_eq!(*amount, -42);
        },
        _ => panic!("expected the deposited event"),
    }
    assert_eq!(back.metadata.len(), 2);
    assert_eq!(
        back.metadata.get(&"trace-id".to_string()).unwrap().as_str(),
        "trace \"quoted\""
    );
    assert_eq!(
        back.metadata.get(&"correlation-id".to_string()).unwrap().as_str(),
        "back\\slash"
    );
    // serializing the parse gives the same text again
    assert_eq!(serialize_envelope(&back), text);
}

#[test]
fn envelope_with_empty_metadata_round_trips() {
    let envelope = EventEnvelope::new(
        "e".to_string(),
        "BankAccount".to_string(),
        AccountEvent::Closed { account_id: "e".to_string() },
        "Closed".to_string(),
        0,
        1,
        1,
        Metadata::new(),
    );
    let text = serialize_envelope(&envelope);
    let back: EventEnvelope<AccountEvent> =
        parse_envelope(text.as_str()).expect("expected the envelope to parse");
    assert_eq!(back.metadata.len(), 0);
    assert_eq!(back.sequence, 1);
}

#[test]
fn envelope_text_has_the_wire_shape() {
    let envelope = EventEnvelope::new(
        "a".to_string(),
        "BankAccount".to_string(),
        AccountEvent::Closed { account_id: "a".to_string() },
        "Closed".to_string(),
        5,
        2,
        1,
        Metadata::new(),
    );
    assert_eq!(
        serialize_envelope(&envelope),
        "{\"aggregate_id\":\"a\",\"aggregate_type\":\"BankAccount\",\
         \"event\":\"{\\\"Closed\\\":{\\\"account_id\\\":\\\"a\\\"}}\",\
         \"event_type\":\"Closed\",\"event_time\":5,\"sequence\":2,\
         \"revision\":1,\"metadata\":{}}"
    );
}

#[test]
fn malformed_envelope_text_is_rejected() {
    assert!(parse_envelope::<AccountEvent>("").is_err());
    assert!(parse_envelope::<AccountEvent>("{\"aggregate_id\":\"a\"").is_err());
    // a repeated metadata key is data corruption
    let text = "{\"aggregate_id\":\"a\",\"aggregate_type\":\"B\",\
                \"event\":\"{\\\"Closed\\\":{\\\"account_id\\\":\\\"a\\\"}}\",\
                \"event_type\":\"Closed\",\"event_time\":1,\"sequence\":1,\
                \"revision\":1,\"metadata\":{\"k\":\"1\",\"k\":\"2\"}}";
    assert_eq!(
        parse_envelope::<AccountEvent>(text).unwrap_err(),
        Error::DecodeError
    );
}

#[test]
fn records_carry_envelopes_to_and_from_rows() {
    let envelope = sample_envelope();
    let record = record_from_envelope(&envelope);
    assert_eq!(record.aggregate_id, "acc-1");
    assert_eq!(record.sequence, 3);
    assert_eq!(record.event, envelope.event.serialize());
    let back: EventEnvelope<AccountEvent> =
        envelope_from_record(record).expect("expected the record to decode");
    assert_eq!(back.aggregate_id, envelope.aggregate_id);
    assert_eq!(back.event_time, envelope.event_time);
    match &back.event {
        AccountEvent::Deposited { amount, .. } => assert_eq!(*amount, -42),
        _ => panic!("expected the deposited event"),
    }
    // a corrupt payload column surfaces as a decode error
    let bad = EventRecord {
        aggregate_id: "a".to_string(),
        aggregate_type: "B".to_string(),
        event: "garbage".to_string(),
        event_type: "Closed".to_string(),
        event_time: 0,
        sequence: 1,
        revision: 1,
        metadata: Vec::new(),
    };
    assert_eq!(
        envelope_from_record::<AccountEvent>(bad).unwrap_err(),
        Error::DecodeError
    );
}

#[test]
fn snapshot_records_round_trip() {
    let snapshot = event_sourcing::envelope::SnapshotEnvelope::new(
        "s".to_string(),
        "BankAccount".to_string(),
        Account { name: "n".to_string(), account_id: "s".to_string(), balance: 12 },
        9,
        4,
    );
    let record = record_from_snapshot(&snapshot);
    assert_eq!(record.sequence, 4);
    let back: event_sourcing::envelope::SnapshotEnvelope<Account> =
        snapshot_from_record(record).expect("expected the record to decode");
    assert_eq!(back.state.balance, 12);
    assert_eq!(back.state_time, 9);
    let bad = SnapshotRecord {
        aggregate_id: "s".to_string(),
        aggregate_type: "B".to_string(),
        state: "not a state".to_string(),
        state_time: 0,
        sequence: 1,
    };
    assert_eq!(
        snapshot_from_record::<Account>(bad).unwrap_err(),
        Error::DecodeError
    );
}

#[test]
fn conditional_write_outcome_maps_the_applied_flag() {
    assert!(conditional_write_outcome(true).is_ok());
    assert_eq!(
        conditional_write_outcome(false).unwrap_err(),
        Error::ConcurrencyConflict
    );
}

#[test]
fn keyspace_statement_carries_the_replication_factor() {
    assert_eq!(
        create_keyspace(&3),
        "CREATE KEYSPACE IF NOT EXISTS event_store WITH REPLICATION = \
         {'class' : 'SimpleStrategy', 'replication_factor' : 3}"
    );
}

#[test]
fn timestamps_render_as_rfc3339() {
    let envelope = sample_envelope();
    assert_eq!(envelope.event_time_rfc3339(), "2000-01-12T01:02:03.004Z");
}

#[test]
fn snapshot_timestamps_render_as_rfc3339() {
    let snapshot = event_sourcing::envelope::SnapshotEnvelope::new(
        "s".to_string(),
        "BankAccount".to_string(),
        Account { name: "n".to_string(), account_id: "s".to_string(), balance: 0 },
        947638923004,
        1,
    );
    assert_eq!(snapshot.state_time_rfc3339(), "2000-01-12T01:02:03.004Z");
}

#[test]
fn texts_beyond_ascii_round_trip() {
    let event = AccountEvent::Opened {
        account_id: "konto-äöü-Δ-中文-🦀".to_string(),
        name: "quote \" back\\slash \n tab\t".to_string(),
    };
    let text = event.serialize();
    let back = AccountEvent::parse(text.as_str()).expect("expected the payload to parse");
    match back {
        AccountEvent::Opened { account_id, name } => {
            assert_eq!(account_id, "konto-äöü-Δ-中文-🦀");
            assert_eq!(name, "quote \" back\\slash \n tab\t");
        },
        _ => panic!("expected the opening event"),
    }
}

#[test]
fn envelope_fields_at_the_integer_bounds_round_trip() {
    let envelope = EventEnvelope::new(
        "b".to_string(),
        "BankAccount".to_string(),
        AccountEvent::Deposited { account_id: "b".to_string(), amount: i64::MIN },
        "Deposited".to_string(),
        i64::MAX,
        i64::MAX,
        i64::MAX,
        Metadata::new(),
    );
    let text = serialize_envelope(&envelope);
    let back: EventEnvelope<AccountEvent> =
        parse_envelope(text.as_str()).expect("expected the envelope to parse");
    assert_eq!(back.event_time, i64::MAX);
    assert_eq!(back.sequence, i64::MAX);
    assert_eq!(back.revision, i64::MAX);
    match back.event {
        AccountEvent::Deposited { amount, .. } => assert_eq!(amount, i64::MIN),
        _ => panic!("expected the deposited event"),
    }
}
