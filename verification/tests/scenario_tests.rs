use event_sourcing::account::{
    Account, AccountBalanceQueryHandler, AccountEvent, BalanceQuery, DepositCommand,
    DepositCommandHandler, OpenAccountCommand, OpenAccountCommandHandler, WithdrawCommand,
    WithdrawCommandHandler,
};
use event_sourcing::aggregate::{apply_all, current_sequence, next_sequence};
use event_sourcing::command::{CommandHandler, QueryHandler};
use event_sourcing::envelope::{EventEnvelope, Metadata, SnapshotEnvelope};
use event_sourcing::event::Event;
use event_sourcing::handler::{envelope_events, handle_command, handle_creation};
use event_sourcing::memory::{InMemoryEventStore, InMemorySnapshotStore};
use event_sourcing::snapshot::{SnapshotStore, SnapshotStrategy};
use event_sourcing::store::EventStore;
use event_sourcing::Error;

fn open_account(
    event_store: &mut InMemoryEventStore<AccountEvent>,
    snapshot_store: &InMemorySnapshotStore<Account>,
    id: &str,
    name: &str,
) -> Result<event_sourcing::command::CommandResponse, Error> {
    handle_creation::<Account, _, _>(
        event_store,
        snapshot_store,
        &id.to_string(),
        AccountEvent::Opened { account_id: id.to_string(), name: name.to_string() },
        7,
        Metadata::new(),
    )
}

fn run_command(
    event_store: &mut InMemoryEventStore<AccountEvent>,
    snapshot_store: &mut InMemorySnapshotStore<Account>,
    id: &str,
    event: AccountEvent,
    every: i32,
) -> Result<event_sourcing::command::CommandResponse, Error> {
    let target = id.to_string();
    handle_command::<Account, _, _>(
        event_store,
        snapshot_store,
        Some(&target),
        event,
        7,
        Metadata::new(),
        &SnapshotStrategy::NumberOfEvents(every),
    )
}

fn balance_of(event_store: &InMemoryEventStore<AccountEvent>, id: &str) -> i64 {
    let envelopes = event_store.read(&id.to_string()).expect("expected events");
    let events = envelope_events(&envelopes);
    apply_all::<Account>(None, events).expect("expected an account").balance
}

#[test]
fn open_deposit_withdraw_scenario() {
    // open account "A" -> sequence 1, balance 0; deposit 100 -> sequence 2,
    // balance 100; withdraw 150 -> rejected, nothing persisted; withdraw 50
    // -> sequence 3, balance 50
    let mut es = InMemoryEventStore::new();
    let mut ss = InMemorySnapshotStore::new();
    let opened = open_account(&mut es, &ss, "A", "holder").expect("expected the open to succeed");
    assert_eq!(opened.sequence, 1);
    assert_eq!(opened.aggregate_id, "A");
    assert_eq!(balance_of(&es, "A"), 0);

    let deposited = run_command(
        &mut es,
        &mut ss,
        "A",
        AccountEvent::Deposited { account_id: "A".into(), amount: 100 },
        1000,
    )
    .expect("expected the deposit to succeed");
    assert_eq!(deposited.sequence, 2);
    assert_eq!(balance_of(&es, "A"), 100);

    let rejected = run_command(
        &mut es,
        &mut ss,
        "A",
        AccountEvent::Withdrew { account_id: "A".into(), amount: 150 },
        1000,
    );
    assert_eq!(rejected.unwrap_err(), Error::InvalidState);
    assert_eq!(es.read(&"A".to_string()).unwrap().len(), 2);
    assert_eq!(balance_of(&es, "A"), 100);

    let withdrew = run_command(
        &mut es,
        &mut ss,
        "A",
        AccountEvent::Withdrew { account_id: "A".into(), amount: 50 },
        1000,
    )
    .expect("expected the withdrawal to succeed");
    assert_eq!(withdrew.sequence, 3);
    assert_eq!(balance_of(&es, "A"), 50);
}

#[test]
fn snapshot_cadence_scenario() {
    // with "every 3 events", the 3rd successful persist leaves a snapshot at
    // sequence 3, which stands until the 6th persist replaces it
    let mut es = InMemoryEventStore::new();
    let mut ss = InMemorySnapshotStore::new();
    open_account(&mut es, &mut ss, "C", "holder").expect("expected the open to succeed");
    for k in 2..=6 {
        let r = run_command(
            &mut es,
            &mut ss,
            "C",
            AccountEvent::Deposited { account_id: "C".into(), amount: 1 },
            3,
        )
        .expect("expected the deposit to succeed");
        assert_eq!(r.sequence, k);
        let snapshot = ss.read(&"C".to_string()).unwrap();
        if k < 3 {
            assert!(snapshot.is_none());
        } else if k < 6 {
            let s = snapshot.expect("expected a snapshot");
            assert_eq!(s.sequence, 3);
            assert_eq!(s.state.balance, 2);
        } else {
            let s = snapshot.expect("expected a snapshot");
            assert_eq!(s.sequence, 6);
            assert_eq!(s.state.balance, 5);
        }
    }
}

#[test]
fn conflicting_writers_scenario() {
    // two creators race for a brand-new identity: one returns sequence 1,
    // the other observes the concurrency conflict
    let mut es = InMemoryEventStore::new();
    let ss = InMemorySnapshotStore::new();
    let winner = open_account(&mut es, &ss, "fresh", "first");
    let loser = open_account(&mut es, &ss, "fresh", "second");
    assert_eq!(winner.expect("expected the first open to win").sequence, 1);
    assert_eq!(loser.unwrap_err(), Error::ConcurrencyConflict);
    // the history holds exactly the winning event
    let events = es.read(&"fresh".to_string()).unwrap();
    assert_eq!(events.len(), 1);
    match &events[0].event {
        AccountEvent::Opened { name, .. } => assert_eq!(name.as_str(), "first"),
        _ => panic!("expected the opening event"),
    }
}

#[test]
fn snapshot_non_authority_scenario() {
    // replay through the snapshot and replay of the full history agree, and
    // losing the snapshot store changes no outcome
    let mut es = InMemoryEventStore::new();
    let mut ss = InMemorySnapshotStore::new();
    open_account(&mut es, &mut ss, "N", "holder").expect("expected the open to succeed");
    for _ in 0..5 {
        run_command(
            &mut es,
            &mut ss,
            "N",
            AccountEvent::Deposited { account_id: "N".into(), amount: 7 },
            2,
        )
        .expect("expected the deposit to succeed");
    }
    assert!(ss.read(&"N".to_string()).unwrap().is_some());
    // replay from scratch, ignoring every snapshot
    assert_eq!(balance_of(&es, "N"), 35);
    // one more command against a fresh, empty snapshot store: same outcome
    let mut no_snapshots = InMemorySnapshotStore::new();
    let r = run_command(
        &mut es,
        &mut no_snapshots,
        "N",
        AccountEvent::Withdrew { account_id: "N".into(), amount: 35 },
        1000,
    )
    .expect("expected the withdrawal to succeed");
    assert_eq!(r.sequence, 7);
    assert_eq!(balance_of(&es, "N"), 0);
}

#[test]
fn replay_is_deterministic() {
    let events = vec![
        AccountEvent::Opened { account_id: "D".into(), name: "holder".into() },
        AccountEvent::Deposited { account_id: "D".into(), amount: 10 },
        AccountEvent::Withdrew { account_id: "D".into(), amount: 4 },
    ];

    let once = apply_all::<Account>(None, clone_events(&events)).expect("expected an account");
    let twice = apply_all::<Account>(None, clone_events(&events)).expect("expected an account");
    assert_eq!(once.balance, twice.balance);
    assert_eq!(once.account_id, twice.account_id);
    assert_eq!(once.name, twice.name);
    assert_eq!(once.balance, 6);
}

fn clone_events(events: &[AccountEvent]) -> Vec<AccountEvent> {
    events.iter().map(|e| e.dup()).collect()
}

#[test]
fn replay_rejects_what_the_domain_rejects() {
    // a deposit before the account exists fails replay with InvalidState
    let events = vec![AccountEvent::Deposited { account_id: "x".into(), amount: 1 }];
    assert_eq!(apply_all::<Account>(None, events).unwrap_err(), Error::InvalidEvent);
    // an empty history reaches no aggregate at all
    let none: Vec<AccountEvent> = Vec::new();
    assert_eq!(apply_all::<Account>(None, none).unwrap_err(), Error::InvalidState);
    // a negative amount violates the domain rules
    let bad = vec![
        AccountEvent::Opened { account_id: "x".into(), name: "n".into() },
        AccountEvent::Deposited { account_id: "x".into(), amount: -5 },
    ];
    assert_eq!(apply_all::<Account>(None, bad).unwrap_err(), Error::InvalidEvent);
}

#[test]
fn missing_target_is_rejected_before_any_read() {
    let mut es: InMemoryEventStore<AccountEvent> = InMemoryEventStore::new();
    let mut ss: InMemorySnapshotStore<Account> = InMemorySnapshotStore::new();
    let r = handle_command::<Account, _, _>(
        &mut es,
        &mut ss,
        None,
        AccountEvent::Deposited { account_id: "x".into(), amount: 1 },
        7,
        Metadata::new(),
        &SnapshotStrategy::NumberOfEvents(3),
    );
    assert_eq!(r.unwrap_err(), Error::MissingTargetAggregateIdentifier);
}

#[test]
fn command_handlers_drive_the_cycle() {
    let es = InMemoryEventStore::new();
    let ss = InMemorySnapshotStore::new();
    let mut open = OpenAccountCommandHandler { event_store: es, snapshot_store: ss };
    let response = open
        .handle(OpenAccountCommand { name: "holder".to_string() })
        .expect("expected the open to succeed");
    assert_eq!(response.sequence, 1);
    let account_id = response.aggregate_id;
    assert_eq!(account_id.len(), 36);

    let mut deposit = DepositCommandHandler {
        event_store: open.event_store,
        snapshot_store: open.snapshot_store,
        strategy: SnapshotStrategy::NumberOfEvents(3),
    };
    let response = deposit
        .handle(DepositCommand { account_id: account_id.clone(), amount: 100 })
        .expect("expected the deposit to succeed");
    assert_eq!(response.sequence, 2);

    let mut withdraw = WithdrawCommandHandler {
        event_store: deposit.event_store,
        snapshot_store: deposit.snapshot_store,
        strategy: SnapshotStrategy::NumberOfEvents(3),
    };
    let rejected = withdraw.handle(WithdrawCommand { account_id: account_id.clone(), amount: 101 });
    assert_eq!(rejected.unwrap_err(), Error::InvalidState);
    let response = withdraw
        .handle(WithdrawCommand { account_id: account_id.clone(), amount: 40 })
        .expect("expected the withdrawal to succeed");
    assert_eq!(response.sequence, 3);

    let mut query = AccountBalanceQueryHandler { event_store: withdraw.event_store };
    let balance = query
        .handle(BalanceQuery { account_id: account_id.clone() })
        .expect("expected a balance");
    assert_eq!(balance, 60);
}

#[test]
fn sequence_engine_takes_the_greatest_position() {
    // the store is expected to return events sorted, but the computation
    // must not assume it
    let mk = |s: i64| {
        EventEnvelope::new(
            "q".to_string(),
            "BankAccount".to_string(),
            AccountEvent::Deposited { account_id: "q".into(), amount: 1 },
            "Deposited".to_string(),
            0,
            s,
            1,
            Metadata::new(),
        )
    };
    let shuffled = vec![mk(2), mk(4), mk(1), mk(3)];
    let no_snapshot: Option<SnapshotEnvelope<Account>> = None;
    assert_eq!(current_sequence::<AccountEvent, Account>(&shuffled, &no_snapshot), 4);
    assert_eq!(next_sequence::<AccountEvent, Account>(&shuffled, &no_snapshot), 5);

    let empty: Vec<EventEnvelope<AccountEvent>> = Vec::new();
    assert_eq!(current_sequence::<AccountEvent, Account>(&empty, &no_snapshot), 0);
    assert_eq!(next_sequence::<AccountEvent, Account>(&empty, &no_snapshot), 1);

    let snapshot = Some(SnapshotEnvelope::new(
        "q".to_string(),
        "BankAccount".to_string(),
        Account { name: "n".into(), account_id: "q".into(), balance: 0 },
        0,
        9,
    ));
    assert_eq!(current_sequence::<AccountEvent, Account>(&empty, &snapshot), 9);
    assert_eq!(next_sequence::<AccountEvent, Account>(&empty, &snapshot), 10);
}
