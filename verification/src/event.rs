//! The contract every domain event type must satisfy: a string discriminator
//! used for serialization dispatch, a schema revision for upcasting old
//! payloads, and a canonical text codec whose parse inverts its serialize.
//!
//! All specifications speak about the event's mathematical view (`Self::V`),
//! so that two events with equal contents are interchangeable.

use vstd::prelude::*;

use crate::Error;

verus! {

/// A domain event: an immutable fact describing a state change.
///
/// The serialization pair must round-trip (`lemma_round_trip`), which makes
/// replay from persisted text byte-for-byte reproducible.
pub trait Event: View + Sized {
    /// The discriminator of an event, used to dispatch deserialization.
    spec fn event_type_of(v: Self::V) -> Seq<char>;

    /// The schema version of an event.
    spec fn revision_of(v: Self::V) -> int;

    /// The canonical payload text of an event.
    spec fn serial_of(v: Self::V) -> Seq<char>;

    /// The parse of a payload text: the event it denotes, or `DecodeError`.
    spec fn parse_of(text: Seq<char>) -> Result<Self::V, Error>;

    fn event_type(&self) -> (r: String)
        ensures
            r@ == Self::event_type_of(self@),
    ;

    fn revision(&self) -> (r: i64)
        ensures
            r as int == Self::revision_of(self@),
    ;

    fn serialize(&self) -> (r: String)
        ensures
            r@ == Self::serial_of(self@),
    ;

    fn parse(text: &str) -> (r: Result<Self, Error>)
        ensures
            (match r {
                Ok(e) => Self::parse_of(text@) == Ok::<Self::V, Error>(e@),
                Err(er) => Self::parse_of(text@) == Err::<Self::V, Error>(er),
            }),
    ;

    /// An explicit copy with the same contents.
    fn dup(&self) -> (r: Self)
        ensures
            r@ == self@,
    ;

    /// Parsing the canonical text of an event yields that event again.
    proof fn lemma_round_trip(v: Self::V)
        ensures
            Self::parse_of(Self::serial_of(v)) == Ok::<Self::V, Error>(v),
    ;
}

} // verus!
