//! An event-sourcing engine: application state is the left fold of an
//! immutable, per-aggregate sequence of events.  The crate provides the
//! envelope data model, the replay contract, the sequence engine, event and
//! snapshot store contracts with optimistic concurrency, and the command
//! handling cycle that ties them together.

pub mod account;
pub mod aggregate;
pub mod codec;
pub mod command;
pub mod envelope;
pub mod event;
pub mod handler;
pub mod memory;
pub mod query;
pub mod record;
pub mod snapshot;
pub mod store;
pub mod stream;
pub mod text;

use vstd::prelude::*;

verus! {

/// The error taxonomy of the engine.
///
/// `ConcurrencyConflict` marks the losing writer of a conditional write and
/// is the only error for which retrying the whole read-decide-write cycle is
/// the intended reaction.  `InfrastructureError` marks transport or storage
/// failure.  The remaining variants are caller errors and are never retried.
#[derive(Clone, Copy, Debug, PartialEq, Eq, Structural)]
pub enum Error {
    /// A command that targets an existing aggregate supplied no identifier.
    MissingTargetAggregateIdentifier,
    /// An event is not valid for the state it was applied to.
    InvalidEvent,
    /// Replay ended without an aggregate, or a domain invariant was violated.
    InvalidState,
    /// A conditional write lost the race for its `(aggregate_id, sequence)` key.
    ConcurrencyConflict,
    /// Transport or storage failure; the effect of the operation is unknown.
    InfrastructureError,
    /// Persisted text could not be decoded.
    DecodeError,
}

impl Error {
    /// A human-readable description of the error.
    pub fn message(&self) -> (r: &'static str)
        ensures
            r@ == self.message_spec(),
    {
        match self {
            Error::MissingTargetAggregateIdentifier => "target aggregate identifier must be provided",
            Error::InvalidEvent => "invalid event",
            Error::InvalidState => "invalid state",
            Error::ConcurrencyConflict => "concurrency conflict",
            Error::InfrastructureError => "infrastructure error",
            Error::DecodeError => "decode error",
        }
    }

    pub open spec fn message_spec(&self) -> Seq<char> {
        match self {
            Error::MissingTargetAggregateIdentifier => "target aggregate identifier must be provided"@,
            Error::InvalidEvent => "invalid event"@,
            Error::InvalidState => "invalid state"@,
            Error::ConcurrencyConflict => "concurrency conflict"@,
            Error::InfrastructureError => "infrastructure error"@,
            Error::DecodeError => "decode error"@,
        }
    }
}

} // verus!
