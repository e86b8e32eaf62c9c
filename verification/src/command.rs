//! The write side's caller-facing contracts: commands, the response returned
//! after a successful write, and the handler interfaces.

use vstd::prelude::*;

use crate::Error;

verus! {

/// A write-intent from a caller: optionally names the aggregate it targets.
/// Absent when the command creates a new aggregate.  Commands are not
/// persisted; they live for the duration of one handling cycle.
pub trait Command: Sized {
    /// The identity of the aggregate the command targets, if any.
    spec fn target_of(&self) -> Option<Seq<char>>;

    fn target_aggregate_identifier(&self) -> (r: Option<&String>)
        ensures
            (match r {
                Some(s) => self.target_of() == Some(s@),
                None => self.target_of() is None,
            }),
    ;
}

/// Returned to the caller after a successful write: the aggregate identity
/// and the sequence assigned to the new event, so the caller can poll read
/// models for catch-up without a second full query.
#[derive(Debug)]
pub struct CommandResponse {
    pub aggregate_id: String,
    pub sequence: i64,
}

/// One entry point per command type: `handle` runs the whole
/// read-decide-write cycle for one command.
pub trait CommandHandler<C: Command>: Sized {
    /// Well-formedness of the handler and the stores it owns.
    spec fn wf(&self) -> bool;

    /// What the handler asks of one command before it takes it — typically
    /// that the machine limits of the targeted history are not yet reached.
    spec fn ready(&self, command: &C) -> bool;

    fn handle(&mut self, command: C) -> (r: Result<CommandResponse, Error>)
        requires
            old(self).wf(),
            old(self).ready(&command),
        ensures
            final(self).wf(),
    ;
}

/// The read side's counterpart: answers one query type against some view of
/// the data.
pub trait QueryHandler<Query, Data>: Sized {
    /// Well-formedness of the handler and the stores it reads.
    spec fn wf(&self) -> bool;

    fn handle(&mut self, query: Query) -> (r: Result<Data, Error>)
        requires
            old(self).wf(),
        ensures
            final(self).wf(),
    ;
}

/// Relies on uuid: `Uuid::new_v4` draws a fresh random identifier, rendered
/// in the hyphenated form.  Nothing is assumed about which identifier comes
/// back — only its shape: 36 characters.
#[verifier::external_body]
pub fn fresh_identifier() -> (r: String)
    ensures
        r@.len() == 36,
{
    uuid::Uuid::new_v4().to_string()
}

} // verus!
