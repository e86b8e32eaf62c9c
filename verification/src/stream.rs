//! The read-side plumbing contracts: long-running consumers of the persisted
//! envelope stream.  Implementations live with the transport they wrap; the
//! engine only fixes their shape.  Consumers must tolerate at-least-once
//! delivery and must not assume ordering across aggregates.

use vstd::prelude::*;

use crate::envelope::EventEnvelope;
use crate::event::Event;
use crate::Error;

verus! {

/// A long-running task that consumes persisted envelopes from a transport
/// and republishes them to its projection.
pub trait EventStream: Sized {
    fn start(&mut self) -> Result<(), Error>;
}

/// A callback invoked once per envelope taken from the stream.
pub trait EventListener<E: Event>: Sized {
    fn on(&mut self, event_envelope: EventEnvelope<E>) -> Result<(), Error>;
}

/// Runs an `EventListener` against a transport until stopped.
pub trait EventListenerContainer<E: Event>: Sized {
    fn start<L: EventListener<E>>(&mut self, event_listener: L) -> Result<(), Error>;
}

/// An idempotent consumer of ordered envelopes building a read-side view.
pub trait Projection: Sized {
    type Event;

    fn apply(event: Self::Event) -> Result<(), Error>;
}

} // verus!
