//! The worked bank-account domain: an aggregate whose state is the fold of
//! open, deposit, withdraw and close events, with the command handlers that
//! drive it through the engine.  It exercises every contract of the engine
//! and is the reference for writing a domain of one's own.

use vstd::prelude::*;

use crate::aggregate::{apply_all, apply_all_of, next_sequence_of, Aggregate};
use crate::codec::{
    lemma_rt_one_text, lemma_rt_text_int, lemma_rt_two_texts, lemma_rt_two_texts_int,
    parse_one_text, parse_text_int, parse_two_texts, parse_two_texts_int, scan_one_text,
    scan_text_int, scan_two_texts, scan_two_texts_int, ser_one_text, ser_text_int, ser_two_texts,
    ser_two_texts_int,
};
use crate::command::{Command, CommandHandler, CommandResponse, QueryHandler, fresh_identifier};
use crate::envelope::{has_key, now_millis, EventEnvelopeView, Metadata, SnapshotEnvelopeView};
use crate::event::Event;
use crate::handler::{
    envelope_events, handle_command, handle_creation, lemma_next_sequence_extends, payloads,
    snapshot_coherent, stores_coherent,
};
use crate::snapshot::{SnapshotStore, SnapshotStrategy};
use crate::store::EventStore;
use crate::text::{chars_to_string, expect_lit, is_digit, match_at, push_escaped_str, push_i64_full,
    push_str_chars, str_to_chars};
use crate::Error;

verus! {

/// A fact about one account: opened under a name, money moved, or closed.
#[derive(Debug)]
pub enum AccountEvent {
    Opened { account_id: String, name: String },
    Deposited { account_id: String, amount: i64 },
    Withdrew { account_id: String, amount: i64 },
    Closed { account_id: String },
}

/// The mathematical view of an `AccountEvent`.
#[verifier::ext_equal]
pub enum AccountEventView {
    Opened { account_id: Seq<char>, name: Seq<char> },
    Deposited { account_id: Seq<char>, amount: i64 },
    Withdrew { account_id: Seq<char>, amount: i64 },
    Closed { account_id: Seq<char> },
}

impl View for AccountEvent {
    type V = AccountEventView;

    open spec fn view(&self) -> AccountEventView {
        match self {
            AccountEvent::Opened { account_id, name } => AccountEventView::Opened {
                account_id: account_id@,
                name: name@,
            },
            AccountEvent::Deposited { account_id, amount } => AccountEventView::Deposited {
                account_id: account_id@,
                amount: *amount,
            },
            AccountEvent::Withdrew { account_id, amount } => AccountEventView::Withdrew {
                account_id: account_id@,
                amount: *amount,
            },
            AccountEvent::Closed { account_id } => AccountEventView::Closed {
                account_id: account_id@,
            },
        }
    }
}

impl Event for AccountEvent {
    open spec fn event_type_of(v: AccountEventView) -> Seq<char> {
        match v {
            AccountEventView::Opened { .. } => "Opened"@,
            AccountEventView::Deposited { .. } => "Deposited"@,
            AccountEventView::Withdrew { .. } => "Withdrew"@,
            AccountEventView::Closed { .. } => "Closed"@,
        }
    }

    open spec fn revision_of(v: AccountEventView) -> int {
        1
    }

    open spec fn serial_of(v: AccountEventView) -> Seq<char> {
        match v {
            AccountEventView::Opened { account_id, name } => "{\"Opened\":{\"account_id\":\""@
                + ser_two_texts(account_id, ",\"name\":\""@, name, "}}"@),
            AccountEventView::Deposited { account_id, amount } =>
                "{\"Deposited\":{\"account_id\":\""@ + ser_text_int(
                account_id,
                ",\"amount\":"@,
                amount as int,
                "}}"@,
            ),
            AccountEventView::Withdrew { account_id, amount } =>
                "{\"Withdrew\":{\"account_id\":\""@ + ser_text_int(
                account_id,
                ",\"amount\":"@,
                amount as int,
                "}}"@,
            ),
            AccountEventView::Closed { account_id } => "{\"Closed\":{\"account_id\":\""@
                + ser_one_text(account_id, "}}"@),
        }
    }

    open spec fn parse_of(text: Seq<char>) -> Result<AccountEventView, Error> {
        if match_at(text, 0, "{\"Opened\":{\"account_id\":\""@) {
            match parse_two_texts(
                text,
                "{\"Opened\":{\"account_id\":\""@.len() as int,
                ",\"name\":\""@,
                "}}"@,
            ) {
                Ok((account_id, name)) => Ok(AccountEventView::Opened { account_id, name }),
                Err(e) => Err(e),
            }
        } else if match_at(text, 0, "{\"Deposited\":{\"account_id\":\""@) {
            match parse_text_int(
                text,
                "{\"Deposited\":{\"account_id\":\""@.len() as int,
                ",\"amount\":"@,
                "}}"@,
            ) {
                Ok((account_id, amount)) => Ok(
                    AccountEventView::Deposited { account_id, amount: amount as i64 },
                ),
                Err(e) => Err(e),
            }
        } else if match_at(text, 0, "{\"Withdrew\":{\"account_id\":\""@) {
            match parse_text_int(
                text,
                "{\"Withdrew\":{\"account_id\":\""@.len() as int,
                ",\"amount\":"@,
                "}}"@,
            ) {
                Ok((account_id, amount)) => Ok(
                    AccountEventView::Withdrew { account_id, amount: amount as i64 },
                ),
                Err(e) => Err(e),
            }
        } else if match_at(text, 0, "{\"Closed\":{\"account_id\":\""@) {
            match parse_one_text(text, "{\"Closed\":{\"account_id\":\""@.len() as int, "}}"@) {
                Ok(account_id) => Ok(AccountEventView::Closed { account_id }),
                Err(e) => Err(e),
            }
        } else {
            Err(Error::DecodeError)
        }
    }

    fn event_type(&self) -> (r: String) {
        match self {
            AccountEvent::Opened { .. } => "Opened".to_owned(),
            AccountEvent::Deposited { .. } => "Deposited".to_owned(),
            AccountEvent::Withdrew { .. } => "Withdrew".to_owned(),
            AccountEvent::Closed { .. } => "Closed".to_owned(),
        }
    }

    fn revision(&self) -> (r: i64) {
        1
    }

    fn serialize(&self) -> (r: String) {
        let mut out: Vec<char> = Vec::new();
        match self {
            AccountEvent::Opened { account_id, name } => {
                push_str_chars(&mut out, "{\"Opened\":{\"account_id\":\"");
                push_escaped_str(&mut out, account_id.as_str());
                out.push('"');
                push_str_chars(&mut out, ",\"name\":\"");
                push_escaped_str(&mut out, name.as_str());
                out.push('"');
                push_str_chars(&mut out, "}}");
                proof {
                    assert(out@ =~= Self::serial_of(self@));
                }
            },
            AccountEvent::Deposited { account_id, amount } => {
                push_str_chars(&mut out, "{\"Deposited\":{\"account_id\":\"");
                push_escaped_str(&mut out, account_id.as_str());
                out.push('"');
                push_str_chars(&mut out, ",\"amount\":");
                push_i64_full(&mut out, *amount);
                push_str_chars(&mut out, "}}");
                proof {
                    assert(out@ =~= Self::serial_of(self@));
                }
            },
            AccountEvent::Withdrew { account_id, amount } => {
                push_str_chars(&mut out, "{\"Withdrew\":{\"account_id\":\"");
                push_escaped_str(&mut out, account_id.as_str());
                out.push('"');
                push_str_chars(&mut out, ",\"amount\":");
                push_i64_full(&mut out, *amount);
                push_str_chars(&mut out, "}}");
                proof {
                    assert(out@ =~= Self::serial_of(self@));
                }
            },
            AccountEvent::Closed { account_id } => {
                push_str_chars(&mut out, "{\"Closed\":{\"account_id\":\"");
                push_escaped_str(&mut out, account_id.as_str());
                out.push('"');
                push_str_chars(&mut out, "}}");
                proof {
                    assert(out@ =~= Self::serial_of(self@));
                }
            },
        }
        chars_to_string(&out)
    }

    fn parse(text: &str) -> (r: Result<AccountEvent, Error>) {
        let s = str_to_chars(text);
        if let Some(p) = expect_lit(&s, 0, "{\"Opened\":{\"account_id\":\"") {
            match scan_two_texts(&s, p, ",\"name\":\"", "}}") {
                Ok((a, n)) => Ok(
                    AccountEvent::Opened {
                        account_id: chars_to_string(&a),
                        name: chars_to_string(&n),
                    },
                ),
                Err(e) => Err(e),
            }
        } else if let Some(p) = expect_lit(&s, 0, "{\"Deposited\":{\"account_id\":\"") {
            match scan_text_int(&s, p, ",\"amount\":", "}}") {
                Ok((a, amount)) => Ok(
                    AccountEvent::Deposited { account_id: chars_to_string(&a), amount },
                ),
                Err(e) => Err(e),
            }
        } else if let Some(p) = expect_lit(&s, 0, "{\"Withdrew\":{\"account_id\":\"") {
            match scan_text_int(&s, p, ",\"amount\":", "}}") {
                Ok((a, amount)) => Ok(
                    AccountEvent::Withdrew { account_id: chars_to_string(&a), amount },
                ),
                Err(e) => Err(e),
            }
        } else if let Some(p) = expect_lit(&s, 0, "{\"Closed\":{\"account_id\":\"") {
            match scan_one_text(&s, p, "}}") {
                Ok(a) => Ok(AccountEvent::Closed { account_id: chars_to_string(&a) }),
                Err(e) => Err(e),
            }
        } else {
            Err(Error::DecodeError)
        }
    }

    fn dup(&self) -> (r: AccountEvent) {
        let r = match self {
            AccountEvent::Opened { account_id, name } => AccountEvent::Opened {
                account_id: account_id.clone(),
                name: name.clone(),
            },
            AccountEvent::Deposited { account_id, amount } => AccountEvent::Deposited {
                account_id: account_id.clone(),
                amount: *amount,
            },
            AccountEvent::Withdrew { account_id, amount } => AccountEvent::Withdrew {
                account_id: account_id.clone(),
                amount: *amount,
            },
            AccountEvent::Closed { account_id } => AccountEvent::Closed {
                account_id: account_id.clone(),
            },
        };
        proof {
            assert(r@ =~= self@);
        }
        r
    }

    proof fn lemma_round_trip(v: AccountEventView) {
        let op = "{\"Opened\":{\"account_id\":\""@;
        let de = "{\"Deposited\":{\"account_id\":\""@;
        let wi = "{\"Withdrew\":{\"account_id\":\""@;
        let cl = "{\"Closed\":{\"account_id\":\""@;
        reveal_strlit("{\"Opened\":{\"account_id\":\"");
        reveal_strlit("{\"Deposited\":{\"account_id\":\"");
        reveal_strlit("{\"Withdrew\":{\"account_id\":\"");
        reveal_strlit("{\"Closed\":{\"account_id\":\"");
        reveal_strlit("}}");
        let text = Self::serial_of(v);
        match v {
            AccountEventView::Opened { account_id, name } => {
                assert(text.subrange(0, op.len() as int) =~= op);
                lemma_rt_two_texts(op, account_id, ",\"name\":\""@, name, "}}"@);
            },
            AccountEventView::Deposited { account_id, amount } => {
                assert(text.subrange(0, de.len() as int) =~= de);
                assert(!match_at(text, 0, op)) by {
                    if match_at(text, 0, op) {
                        assert(text.subrange(0, op.len() as int)[2] == text[2]);
                        assert(text[2] == de[2]);
                    }
                }
                assert(!is_digit("}}"@[0]));
                lemma_rt_text_int(de, account_id, ",\"amount\":"@, amount as int, "}}"@);
            },
            AccountEventView::Withdrew { account_id, amount } => {
                assert(text.subrange(0, wi.len() as int) =~= wi);
                assert(!match_at(text, 0, op)) by {
                    if match_at(text, 0, op) {
                        assert(text.subrange(0, op.len() as int)[2] == text[2]);
                        assert(text[2] == wi[2]);
                    }
                }
                assert(!match_at(text, 0, de)) by {
                    if match_at(text, 0, de) {
                        assert(text.subrange(0, de.len() as int)[2] == text[2]);
                        assert(text[2] == wi[2]);
                    }
                }
                assert(!is_digit("}}"@[0]));
                lemma_rt_text_int(wi, account_id, ",\"amount\":"@, amount as int, "}}"@);
            },
            AccountEventView::Closed { account_id } => {
                assert(text.subrange(0, cl.len() as int) =~= cl);
                assert(!match_at(text, 0, op)) by {
                    if match_at(text, 0, op) {
                        assert(text.subrange(0, op.len() as int)[2] == text[2]);
                        assert(text[2] == cl[2]);
                    }
                }
                assert(!match_at(text, 0, de)) by {
                    if match_at(text, 0, de) {
                        assert(text.subrange(0, de.len() as int)[2] == text[2]);
                        assert(text[2] == cl[2]);
                    }
                }
                assert(!match_at(text, 0, wi)) by {
                    if match_at(text, 0, wi) {
                        assert(text.subrange(0, wi.len() as int)[2] == text[2]);
                        assert(text[2] == cl[2]);
                    }
                }
                lemma_rt_one_text(cl, account_id, "}}"@);
            },
        }
    }
}

/// A bank account: the running state folded from its events.
#[derive(Debug)]
pub struct Account {
    pub name: String,
    pub account_id: String,
    pub balance: i64,
}

/// The mathematical view of an `Account`.
#[verifier::ext_equal]
pub struct AccountView {
    pub name: Seq<char>,
    pub account_id: Seq<char>,
    pub balance: i64,
}

impl View for Account {
    type V = AccountView;

    open spec fn view(&self) -> AccountView {
        AccountView { name: self.name@, account_id: self.account_id@, balance: self.balance }
    }
}

impl Aggregate for Account {
    type Event = AccountEvent;

    open spec fn aggregate_id_of(v: AccountView) -> Seq<char> {
        v.account_id
    }

    open spec fn aggregate_type_of() -> Seq<char> {
        "BankAccount"@
    }

    /// Opening requires no prior state and starts at balance zero; deposits
    /// and withdrawals require an account and a non-negative amount that
    /// keeps the balance within its range — a withdrawal beyond the balance
    /// is a domain-invariant violation (`InvalidState`); everything else is
    /// an event arriving in a state it is not valid for (`InvalidEvent`).
    open spec fn apply_of(state: Option<AccountView>, event: AccountEventView) -> Result<
        AccountView,
        Error,
    > {
        match (state, event) {
            (None, AccountEventView::Opened { account_id, name }) => Ok(
                AccountView { name, account_id, balance: 0 },
            ),
            (Some(a), AccountEventView::Deposited { account_id, amount }) => {
                if amount < 0 {
                    Err(Error::InvalidEvent)
                } else if a.balance + amount > i64::MAX {
                    Err(Error::InvalidEvent)
                } else {
                    Ok(AccountView { balance: (a.balance + amount) as i64, ..a })
                }
            },
            (Some(a), AccountEventView::Withdrew { account_id, amount }) => {
                if amount < 0 {
                    Err(Error::InvalidEvent)
                } else if a.balance - amount < 0 {
                    Err(Error::InvalidState)
                } else {
                    Ok(AccountView { balance: (a.balance - amount) as i64, ..a })
                }
            },
            (Some(a), AccountEventView::Closed { .. }) => Ok(a),
            _ => Err(Error::InvalidEvent),
        }
    }

    open spec fn serial_of(v: AccountView) -> Seq<char> {
        "{\"name\":\""@ + ser_two_texts_int(
            v.name,
            ",\"account_id\":\""@,
            v.account_id,
            ",\"balance\":"@,
            v.balance as int,
            "}"@,
        )
    }

    open spec fn parse_of(text: Seq<char>) -> Result<AccountView, Error> {
        if match_at(text, 0, "{\"name\":\""@) {
            match parse_two_texts_int(
                text,
                "{\"name\":\""@.len() as int,
                ",\"account_id\":\""@,
                ",\"balance\":"@,
                "}"@,
            ) {
                Ok((name, account_id, balance)) => Ok(
                    AccountView { name, account_id, balance: balance as i64 },
                ),
                Err(e) => Err(e),
            }
        } else {
            Err(Error::DecodeError)
        }
    }

    fn aggregate_id(&self) -> (r: &String) {
        &self.account_id
    }

    fn aggregate_type(&self) -> (r: String) {
        "BankAccount".to_owned()
    }

    fn apply(state: Option<Account>, event: AccountEvent) -> (r: Result<Account, Error>) {
        match (state, event) {
            (None, AccountEvent::Opened { account_id, name }) => Ok(
                Account { name, account_id, balance: 0 },
            ),
            (Some(a), AccountEvent::Deposited { account_id: _, amount }) => {
                if amount < 0 {
                    Err(Error::InvalidEvent)
                } else if a.balance > i64::MAX - amount {
                    Err(Error::InvalidEvent)
                } else {
                    Ok(Account { balance: a.balance + amount, ..a })
                }
            },
            (Some(a), AccountEvent::Withdrew { account_id: _, amount }) => {
                if amount < 0 {
                    Err(Error::InvalidEvent)
                } else if a.balance < amount {
                    Err(Error::InvalidState)
                } else {
                    Ok(Account { balance: a.balance - amount, ..a })
                }
            },
            (Some(a), AccountEvent::Closed { .. }) => Ok(a),
            (None, _) => Err(Error::InvalidEvent),
            (Some(_), AccountEvent::Opened { .. }) => Err(Error::InvalidEvent),
        }
    }

    fn serialize(&self) -> (r: String) {
        let mut out: Vec<char> = Vec::new();
        push_str_chars(&mut out, "{\"name\":\"");
        push_escaped_str(&mut out, self.name.as_str());
        out.push('"');
        push_str_chars(&mut out, ",\"account_id\":\"");
        push_escaped_str(&mut out, self.account_id.as_str());
        out.push('"');
        push_str_chars(&mut out, ",\"balance\":");
        push_i64_full(&mut out, self.balance);
        push_str_chars(&mut out, "}");
        proof {
            assert(out@ =~= Self::serial_of(self@));
        }
        chars_to_string(&out)
    }

    fn parse(text: &str) -> (r: Result<Account, Error>) {
        let s = str_to_chars(text);
        if let Some(p) = expect_lit(&s, 0, "{\"name\":\"") {
            match scan_two_texts_int(&s, p, ",\"account_id\":\"", ",\"balance\":", "}") {
                Ok((n, a, balance)) => Ok(
                    Account {
                        name: chars_to_string(&n),
                        account_id: chars_to_string(&a),
                        balance,
                    },
                ),
                Err(e) => Err(e),
            }
        } else {
            Err(Error::DecodeError)
        }
    }

    fn dup(&self) -> (r: Account) {
        let r = Account {
            name: self.name.clone(),
            account_id: self.account_id.clone(),
            balance: self.balance,
        };
        proof {
            assert(r@ =~= self@);
        }
        r
    }

    proof fn lemma_round_trip(v: AccountView) {
        let pre = "{\"name\":\""@;
        reveal_strlit("{\"name\":\"");
        reveal_strlit("}");
        let text = Self::serial_of(v);
        assert(text.subrange(0, pre.len() as int) =~= pre);
        assert(!is_digit("}"@[0]));
        lemma_rt_two_texts_int(
            pre,
            v.name,
            ",\"account_id\":\""@,
            v.account_id,
            ",\"balance\":"@,
            v.balance as int,
            "}"@,
        );
    }
}

// ---------------------------------------------------------------------------
// Commands and handlers
// ---------------------------------------------------------------------------

/// Opens a new account under a fresh identity.
pub struct OpenAccountCommand {
    pub name: String,
}

impl Command for OpenAccountCommand {
    open spec fn target_of(&self) -> Option<Seq<char>> {
        None
    }

    fn target_aggregate_identifier(&self) -> (r: Option<&String>) {
        None
    }
}

/// Deposits an amount into an existing account.
pub struct DepositCommand {
    pub account_id: String,
    pub amount: i64,
}

impl Command for DepositCommand {
    open spec fn target_of(&self) -> Option<Seq<char>> {
        Some(self.account_id@)
    }

    fn target_aggregate_identifier(&self) -> (r: Option<&String>) {
        Some(&self.account_id)
    }
}

/// Withdraws an amount from an existing account.
pub struct WithdrawCommand {
    pub account_id: String,
    pub amount: i64,
}

impl Command for WithdrawCommand {
    open spec fn target_of(&self) -> Option<Seq<char>> {
        Some(self.account_id@)
    }

    fn target_aggregate_identifier(&self) -> (r: Option<&String>) {
        Some(&self.account_id)
    }
}

/// Metadata for one write: a fresh trace identifier and an empty correlation
/// identifier, as cross-cutting concerns for consumers of the stream.
fn cycle_metadata() -> (r: Metadata)
    ensures
        r@.len() == 2,
        crate::envelope::metadata_wf(r@),
{
    let mut metadata = Metadata::new();
    proof {
        reveal_strlit("trace-id");
        reveal_strlit("correlation-id");
        assert("trace-id"@.len() == 8);
        assert("correlation-id"@.len() == 14);
    }
    metadata.insert("trace-id".to_owned(), fresh_identifier());
    proof {
        assert(metadata@.len() == 1 && metadata@[0].0 == "trace-id"@);
        assert(!has_key(metadata@, "correlation-id"@));
    }
    metadata.insert("correlation-id".to_owned(), String::new());
    proof {
        assert(metadata@[0].0 == "trace-id"@ && metadata@[1].0 == "correlation-id"@);
    }
    metadata
}

/// The write-time clock: the system time, clamped to the epoch so that
/// envelope timestamps are never negative.
fn write_time() -> (r: i64)
    ensures
        r >= 0,
{
    let t = now_millis();
    if t < 0 {
        0
    } else {
        t
    }
}

/// Handles `OpenAccountCommand`: mints a fresh account identity, applies the
/// opening event to no prior state, and persists it at position 1.
pub struct OpenAccountCommandHandler<ES, SS> {
    pub event_store: ES,
    pub snapshot_store: SS,
}

impl<
    ES: EventStore<AccountEvent>,
    SS: SnapshotStore<Account>,
> CommandHandler<OpenAccountCommand> for OpenAccountCommandHandler<ES, SS> {
    open spec fn wf(&self) -> bool {
        &&& self.event_store.inv()
        &&& self.snapshot_store.inv()
        &&& stores_coherent::<Account, ES, SS>(&self.event_store, &self.snapshot_store)
    }

    open spec fn ready(&self, command: &OpenAccountCommand) -> bool {
        true
    }

    fn handle(&mut self, command: OpenAccountCommand) -> (r: Result<CommandResponse, Error>)
        ensures
            (match r {
                Ok(resp) => {
                    let id = resp.aggregate_id@;
                    let h0 = old(self).event_store.history(id);
                    let h1 = final(self).event_store.history(id);
                    &&& id.len() == 36
                    &&& h0.len() == 0
                    &&& resp.sequence == 1
                    &&& h1.len() == 1
                    &&& h1.last().aggregate_id == id
                    &&& h1.last().sequence == 1
                    &&& h1.last().event == (AccountEventView::Opened {
                        account_id: id,
                        name: command.name@,
                    })
                    &&& forall|other: Seq<char>|
                        other != id ==> final(self).event_store.history(other) == old(
                            self,
                        ).event_store.history(other)
                    &&& forall|other: Seq<char>|
                        final(self).snapshot_store.latest(other) == old(
                            self,
                        ).snapshot_store.latest(other)
                },
                Err(e) => {
                    &&& forall|other: Seq<char>|
                        final(self).event_store.history(other) == old(self).event_store.history(
                            other,
                        )
                    &&& forall|other: Seq<char>|
                        final(self).snapshot_store.latest(other) == old(
                            self,
                        ).snapshot_store.latest(other)
                },
            }),
    {
        let account_id = fresh_identifier();
        let ghost id = account_id@;
        let event = AccountEvent::Opened { account_id: account_id.clone(), name: command.name };
        let r = handle_creation::<Account, ES, SS>(
            &mut self.event_store,
            &self.snapshot_store,
            &account_id,
            event,
            write_time(),
            cycle_metadata(),
        );
        proof {
            assert(self.snapshot_store == old(self).snapshot_store);
            if r is Ok {
                assert(next_sequence_of(
                    Seq::<EventEnvelopeView<AccountEventView>>::empty(),
                    Option::<SnapshotEnvelopeView<AccountView>>::None,
                ) == 1);
            }
        }
        r
    }
}

/// Handles `DepositCommand` through the full read-decide-write cycle.
pub struct DepositCommandHandler<ES, SS> {
    pub event_store: ES,
    pub snapshot_store: SS,
    pub strategy: SnapshotStrategy,
}

impl<
    ES: EventStore<AccountEvent>,
    SS: SnapshotStore<Account>,
> CommandHandler<DepositCommand> for DepositCommandHandler<ES, SS> {
    open spec fn wf(&self) -> bool {
        &&& self.event_store.inv()
        &&& self.snapshot_store.inv()
        &&& stores_coherent::<Account, ES, SS>(&self.event_store, &self.snapshot_store)
    }

    open spec fn ready(&self, command: &DepositCommand) -> bool {
        &&& self.event_store.history(command.account_id@).len() < i64::MAX
        &&& self.event_store.history(command.account_id@).len() < usize::MAX
    }

    fn handle(&mut self, command: DepositCommand) -> (r: Result<CommandResponse, Error>)
        ensures
            (match r {
                Ok(resp) => {
                    let id = command.account_id@;
                    let h0 = old(self).event_store.history(id);
                    let h1 = final(self).event_store.history(id);
                    &&& resp.aggregate_id@ == id
                    &&& resp.sequence as int == h0.len() + 1
                    &&& h1.len() == h0.len() + 1
                    &&& h1.take(h0.len() as int) == h0
                    &&& h1.last().aggregate_id == id
                    &&& h1.last().sequence == h0.len() + 1
                    &&& h1.last().event == (AccountEventView::Deposited {
                        account_id: id,
                        amount: command.amount,
                    })
                    &&& forall|other: Seq<char>|
                        other != id ==> final(self).event_store.history(other) == old(
                            self,
                        ).event_store.history(other)
                    &&& forall|other: Seq<char>|
                        other != id ==> final(self).snapshot_store.latest(other) == old(
                            self,
                        ).snapshot_store.latest(other)
                },
                Err(e) => {
                    &&& forall|other: Seq<char>|
                        final(self).event_store.history(other) == old(self).event_store.history(
                            other,
                        )
                    &&& forall|other: Seq<char>|
                        final(self).snapshot_store.latest(other) == old(
                            self,
                        ).snapshot_store.latest(other)
                },
            }),
    {
        let ghost id = command.account_id@;
        let event = AccountEvent::Deposited {
            account_id: command.account_id.clone(),
            amount: command.amount,
        };
        let target = command.target_aggregate_identifier();
        let r = handle_command::<Account, ES, SS>(
            &mut self.event_store,
            &mut self.snapshot_store,
            target,
            event,
            write_time(),
            cycle_metadata(),
            &self.strategy,
        );
        proof {
            if r is Ok {
                let h0 = old(self).event_store.history(id);
                let sn0 = old(self).snapshot_store.latest(id);
                old(self).event_store.lemma_inv_histories(id);
                assert(snapshot_coherent::<Account>(h0, sn0));
                lemma_next_sequence_extends(h0, sn0, id);
                assert(self.event_store.history(id).take(h0.len() as int) =~= h0);
            }
        }
        r
    }
}

/// Handles `WithdrawCommand` through the full read-decide-write cycle.
pub struct WithdrawCommandHandler<ES, SS> {
    pub event_store: ES,
    pub snapshot_store: SS,
    pub strategy: SnapshotStrategy,
}

impl<
    ES: EventStore<AccountEvent>,
    SS: SnapshotStore<Account>,
> CommandHandler<WithdrawCommand> for WithdrawCommandHandler<ES, SS> {
    open spec fn wf(&self) -> bool {
        &&& self.event_store.inv()
        &&& self.snapshot_store.inv()
        &&& stores_coherent::<Account, ES, SS>(&self.event_store, &self.snapshot_store)
    }

    open spec fn ready(&self, command: &WithdrawCommand) -> bool {
        &&& self.event_store.history(command.account_id@).len() < i64::MAX
        &&& self.event_store.history(command.account_id@).len() < usize::MAX
    }

    fn handle(&mut self, command: WithdrawCommand) -> (r: Result<CommandResponse, Error>)
        ensures
            (match r {
                Ok(resp) => {
                    let id = command.account_id@;
                    let h0 = old(self).event_store.history(id);
                    let h1 = final(self).event_store.history(id);
                    &&& resp.aggregate_id@ == id
                    &&& resp.sequence as int == h0.len() + 1
                    &&& h1.len() == h0.len() + 1
                    &&& h1.take(h0.len() as int) == h0
                    &&& h1.last().aggregate_id == id
                    &&& h1.last().sequence == h0.len() + 1
                    &&& h1.last().event == (AccountEventView::Withdrew {
                        account_id: id,
                        amount: command.amount,
                    })
                    &&& forall|other: Seq<char>|
                        other != id ==> final(self).event_store.history(other) == old(
                            self,
                        ).event_store.history(other)
                    &&& forall|other: Seq<char>|
                        other != id ==> final(self).snapshot_store.latest(other) == old(
                            self,
                        ).snapshot_store.latest(other)
                },
                Err(e) => {
                    &&& forall|other: Seq<char>|
                        final(self).event_store.history(other) == old(self).event_store.history(
                            other,
                        )
                    &&& forall|other: Seq<char>|
                        final(self).snapshot_store.latest(other) == old(
                            self,
                        ).snapshot_store.latest(other)
                },
            }),
    {
        let ghost id = command.account_id@;
        let event = AccountEvent::Withdrew {
            account_id: command.account_id.clone(),
            amount: command.amount,
        };
        let target = command.target_aggregate_identifier();
        let r = handle_command::<Account, ES, SS>(
            &mut self.event_store,
            &mut self.snapshot_store,
            target,
            event,
            write_time(),
            cycle_metadata(),
            &self.strategy,
        );
        proof {
            if r is Ok {
                let h0 = old(self).event_store.history(id);
                let sn0 = old(self).snapshot_store.latest(id);
                old(self).event_store.lemma_inv_histories(id);
                assert(snapshot_coherent::<Account>(h0, sn0));
                lemma_next_sequence_extends(h0, sn0, id);
                assert(self.event_store.history(id).take(h0.len() as int) =~= h0);
            }
        }
        r
    }
}

/// Asks for the current balance of one account.
pub struct BalanceQuery {
    pub account_id: String,
}

/// Answers `BalanceQuery` by replaying the account's full history.
pub struct AccountBalanceQueryHandler<ES> {
    pub event_store: ES,
}

impl<ES: EventStore<AccountEvent>> QueryHandler<BalanceQuery, i64> for AccountBalanceQueryHandler<
    ES,
> {
    open spec fn wf(&self) -> bool {
        self.event_store.inv()
    }

    fn handle(&mut self, query: BalanceQuery) -> (r: Result<i64, Error>)
        ensures
            *final(self) == *old(self),
            (match r {
                Ok(balance) => (match apply_all_of::<Account>(
                    None,
                    payloads(old(self).event_store.history(query.account_id@)),
                ) {
                    Ok(a) => a.balance == balance,
                    Err(_) => false,
                }),
                Err(e) => e == Error::InfrastructureError || apply_all_of::<Account>(
                    None,
                    payloads(old(self).event_store.history(query.account_id@)),
                ) == Err::<AccountView, Error>(e),
            }),
    {
        let envelopes = match self.event_store.read(&query.account_id) {
            Ok(v) => v,
            Err(e) => {
                return Err(e);
            },
        };
        let events = envelope_events(&envelopes);
        match apply_all::<Account>(None, events) {
            Ok(a) => Ok(a.balance),
            Err(e) => Err(e),
        }
    }
}

} // verus!
