//! In-memory store adapters: an explicitly owned, injectable map from
//! aggregate identity to its data, with the same conditional-write contracts
//! as any other adapter.  Useful for tests and as the reference
//! implementation of the store contracts.

use vstd::prelude::*;

use crate::aggregate::{views, Aggregate};
use crate::envelope::{EventEnvelope, EventEnvelopeView, SnapshotEnvelope, SnapshotEnvelopeView};
use crate::event::Event;
use crate::snapshot::SnapshotStore;
use crate::store::{dup_envelopes, history_wf, EventStore};
use crate::Error;

verus! {

/// An event store holding every aggregate's history in one owned vector of
/// `(aggregate identity, its envelopes)` entries.
pub struct InMemoryEventStore<E> {
    buckets: Vec<(String, Vec<EventEnvelope<E>>)>,
}

impl<E: Event> InMemoryEventStore<E> {
    /// The history stored for `id`: the envelopes of the first entry whose
    /// identity is `id`, and empty when there is none.
    pub closed spec fn hist_rec(
        s: Seq<(String, Vec<EventEnvelope<E>>)>,
        id: Seq<char>,
    ) -> Seq<EventEnvelopeView<E::V>>
        decreases s.len(),
    {
        if s.len() == 0 {
            Seq::empty()
        } else if s[0].0@ == id {
            views(s[0].1@)
        } else {
            Self::hist_rec(s.skip(1), id)
        }
    }

    proof fn lemma_hist_at(s: Seq<(String, Vec<EventEnvelope<E>>)>, i: int, id: Seq<char>)
        requires
            0 <= i < s.len(),
            s[i].0@ == id,
            forall|j: int| 0 <= j < i ==> (#[trigger] s[j]).0@ != id,
        ensures
            Self::hist_rec(s, id) == views(s[i].1@),
        decreases i,
    {
        if i > 0 {
            assert(s.skip(1)[i - 1] == s[i]);
            assert forall|j: int| 0 <= j < i - 1 implies (#[trigger] s.skip(1)[j]).0@ != id by {
                assert(s.skip(1)[j] == s[j + 1]);
            }
            Self::lemma_hist_at(s.skip(1), i - 1, id);
        }
    }

    proof fn lemma_hist_absent(s: Seq<(String, Vec<EventEnvelope<E>>)>, id: Seq<char>)
        requires
            forall|j: int| 0 <= j < s.len() ==> (#[trigger] s[j]).0@ != id,
        ensures
            Self::hist_rec(s, id) == Seq::<EventEnvelopeView<E::V>>::empty(),
        decreases s.len(),
    {
        if s.len() > 0 {
            assert forall|j: int| 0 <= j < s.skip(1).len() implies (#[trigger] s.skip(1)[j]).0@
                != id by {
                assert(s.skip(1)[j] == s[j + 1]);
            }
            Self::lemma_hist_absent(s.skip(1), id);
        }
    }

    proof fn lemma_hist_update_other(
        s: Seq<(String, Vec<EventEnvelope<E>>)>,
        i: int,
        nb: (String, Vec<EventEnvelope<E>>),
        id2: Seq<char>,
    )
        requires
            0 <= i < s.len(),
            nb.0@ == s[i].0@,
            id2 != s[i].0@,
        ensures
            Self::hist_rec(s.update(i, nb), id2) == Self::hist_rec(s, id2),
        decreases i,
    {
        let t = s.update(i, nb);
        if i == 0 {
            assert(t[0].0@ == s[0].0@);
            assert(t.skip(1) =~= s.skip(1));
        } else {
            assert(t[0] == s[0]);
            if s[0].0@ == id2 {
            } else {
                assert(t.skip(1) =~= s.skip(1).update(i - 1, nb));
                assert(s.skip(1)[i - 1] == s[i]);
                Self::lemma_hist_update_other(s.skip(1), i - 1, nb, id2);
            }
        }
    }

    proof fn lemma_hist_push_other(
        s: Seq<(String, Vec<EventEnvelope<E>>)>,
        b: (String, Vec<EventEnvelope<E>>),
        id2: Seq<char>,
    )
        requires
            id2 != b.0@,
        ensures
            Self::hist_rec(s.push(b), id2) == Self::hist_rec(s, id2),
        decreases s.len(),
    {
        let t = s.push(b);
        if s.len() == 0 {
            assert(t[0] == b);
            assert(t.skip(1) =~= Seq::<(String, Vec<EventEnvelope<E>>)>::empty());
            assert(Self::hist_rec(Seq::empty(), id2) == Seq::<EventEnvelopeView<E::V>>::empty());
        } else {
            assert(t[0] == s[0]);
            if s[0].0@ == id2 {
            } else {
                assert(t.skip(1) =~= s.skip(1).push(b));
                Self::lemma_hist_push_other(s.skip(1), b, id2);
            }
        }
    }

    /// An empty store: no aggregate has a history yet.
    pub fn new() -> (r: InMemoryEventStore<E>)
        ensures
            r.inv(),
            forall|id: Seq<char>| r.history(id) == Seq::<EventEnvelopeView<E::V>>::empty(),
    {
        let r = InMemoryEventStore { buckets: Vec::new() };
        proof {
            assert forall|id: Seq<char>| r.history(id) == Seq::<
                EventEnvelopeView<E::V>,
            >::empty() by {
                Self::lemma_hist_absent(r.buckets@, id);
            }
        }
        r
    }

    /// The position of the entry holding `aggregate_id`, if any.
    fn find_bucket(&self, aggregate_id: &String) -> (r: Option<usize>)
        ensures
            (match r {
                Some(i) => i < self.buckets@.len() && self.buckets@[i as int].0@ == aggregate_id@
                    && (forall|j: int|
                    0 <= j < i ==> (#[trigger] self.buckets@[j]).0@ != aggregate_id@),
                None => forall|j: int|
                    0 <= j < self.buckets@.len() ==> (#[trigger] self.buckets@[j]).0@
                        != aggregate_id@,
            }),
    {
        let mut i: usize = 0;
        while i < self.buckets.len()
            invariant
                i <= self.buckets@.len(),
                forall|j: int| 0 <= j < i ==> (#[trigger] self.buckets@[j]).0@ != aggregate_id@,
            decreases self.buckets@.len() - i,
        {
            if self.buckets[i].0 == *aggregate_id {
                return Some(i);
            }
            i = i + 1;
        }
        None
    }
}

impl<E: Event> EventStore<E> for InMemoryEventStore<E> {
    closed spec fn history(&self, aggregate_id: Seq<char>) -> Seq<EventEnvelopeView<E::V>> {
        Self::hist_rec(self.buckets@, aggregate_id)
    }

    closed spec fn inv(&self) -> bool {
        &&& forall|i: int, j: int|
            0 <= i < j < self.buckets@.len() ==> (#[trigger] self.buckets@[i]).0@ != (
            #[trigger] self.buckets@[j]).0@
        &&& forall|i: int|
            0 <= i < self.buckets@.len() ==> history_wf(
                views((#[trigger] self.buckets@[i]).1@),
                self.buckets@[i].0@,
            )
    }

    proof fn lemma_inv_histories(&self, aggregate_id: Seq<char>) {
        Self::lemma_hist_wf_rec(self.buckets@, aggregate_id);
    }

    fn read(&self, aggregate_id: &String) -> (r: Result<Vec<EventEnvelope<E>>, Error>)
        ensures
            r is Ok,
    {
        match self.find_bucket(aggregate_id) {
            Some(i) => {
                proof {
                    Self::lemma_hist_at(self.buckets@, i as int, aggregate_id@);
                }
                Ok(dup_envelopes(&self.buckets[i].1))
            },
            None => {
                proof {
                    Self::lemma_hist_absent(self.buckets@, aggregate_id@);
                }
                let r: Vec<EventEnvelope<E>> = Vec::new();
                proof {
                    assert(views(r@) =~= Seq::<EventEnvelopeView<E::V>>::empty());
                }
                Ok(r)
            },
        }
    }

    fn read_from(&self, aggregate_id: &String, sequence: i64) -> (r: Result<
        Vec<EventEnvelope<E>>,
        Error,
    >)
        ensures
            r is Ok,
    {
        let ghost h = self.history(aggregate_id@);
        match self.find_bucket(aggregate_id) {
            Some(i) => {
                proof {
                    Self::lemma_hist_at(self.buckets@, i as int, aggregate_id@);
                }
                let events = &self.buckets[i].1;
                let n = events.len();
                let clip: usize = if sequence <= 1 {
                    0
                } else {
                    let d = (sequence - 1) as u64;
                    if d <= (n as u64) {
                        d as usize
                    } else {
                        n
                    }
                };
                let mut r: Vec<EventEnvelope<E>> = Vec::new();
                let mut j: usize = clip;
                proof {
                    assert(views(r@) =~= views(events@).subrange(clip as int, clip as int));
                }
                while j < n
                    invariant
                        clip <= j <= n,
                        n == events@.len(),
                        views(r@) == views(events@).subrange(clip as int, j as int),
                    decreases n - j,
                {
                    let d = events[j].dup();
                    let ghost r0 = r@;
                    r.push(d);
                    proof {
                        crate::aggregate::lemma_views_push(r0, d);
                        assert(views(events@).subrange(clip as int, j + 1) =~= views(
                            events@,
                        ).subrange(clip as int, j as int).push(views(events@)[j as int]));
                        assert(views(events@)[j as int] == d@);
                    }
                    j = j + 1;
                }
                proof {
                    let hl = views(events@).len() as int;
                    if sequence <= 1 {
                        assert(views(events@).subrange(0, hl) =~= views(events@));
                    } else if sequence - 1 <= hl {
                        assert(views(events@).subrange(sequence - 1, hl) =~= views(events@).skip(
                            sequence - 1,
                        ));
                    } else {
                        assert(views(events@).subrange(hl, hl) =~= Seq::<
                            EventEnvelopeView<E::V>,
                        >::empty());
                    }
                }
                Ok(r)
            },
            None => {
                proof {
                    Self::lemma_hist_absent(self.buckets@, aggregate_id@);
                }
                let r: Vec<EventEnvelope<E>> = Vec::new();
                proof {
                    assert(views(r@) =~= Seq::<EventEnvelopeView<E::V>>::empty());
                }
                Ok(r)
            },
        }
    }

    fn persist(&mut self, envelope: &EventEnvelope<E>) -> (r: Result<(), Error>)
        ensures
            r is Ok || r == Err::<(), Error>(Error::ConcurrencyConflict),
    {
        let ghost olds = self.buckets@;
        let ghost id = envelope.aggregate_id@;
        match self.find_bucket(&envelope.aggregate_id) {
            Some(i) => {
                proof {
                    Self::lemma_hist_at(olds, i as int, id);
                }
                let n = self.buckets[i].1.len();
                proof {
                    if n > 0 {
                        assert(views(self.buckets@[i as int].1@)[n - 1].sequence == n as int);
                    }
                }
                if (envelope.sequence as u64) == (n as u64) + 1 {
                    let dup = envelope.dup();
                    let bucket = &mut self.buckets[i];
                    bucket.1.push(dup);
                    proof {
                        let nb = self.buckets@[i as int];
                        assert(self.buckets@ =~= olds.update(i as int, nb));
                        assert(views(nb.1@) =~~= views(olds[i as int].1@).push(envelope@));
                        Self::lemma_hist_at(self.buckets@, i as int, id);
                        assert forall|id2: Seq<char>| id2 != id implies Self::hist_rec(
                            self.buckets@,
                            id2,
                        ) == Self::hist_rec(olds, id2) by {
                            Self::lemma_hist_update_other(olds, i as int, nb, id2);
                        }
                    }
                    Ok(())
                } else {
                    Err(Error::ConcurrencyConflict)
                }
            },
            None => {
                proof {
                    Self::lemma_hist_absent(olds, id);
                }
                if envelope.sequence == 1 {
                    let key = envelope.aggregate_id.clone();
                    let mut events: Vec<EventEnvelope<E>> = Vec::new();
                    events.push(envelope.dup());
                    let ghost b = (key, events)@;
                    self.buckets.push((key, events));
                    proof {
                        let nb = self.buckets@[olds.len() as int];
                        assert(self.buckets@ =~= olds.push(nb));
                        assert(views(nb.1@) =~~= Seq::<EventEnvelopeView<E::V>>::empty().push(
                            envelope@,
                        ));
                        Self::lemma_hist_at(self.buckets@, olds.len() as int, id);
                        assert forall|id2: Seq<char>| id2 != id implies Self::hist_rec(
                            self.buckets@,
                            id2,
                        ) == Self::hist_rec(olds, id2) by {
                            Self::lemma_hist_push_other(olds, nb, id2);
                        }
                        assert forall|i2: int|
                            0 <= i2 < self.buckets@.len() implies history_wf(
                            views((#[trigger] self.buckets@[i2]).1@),
                            self.buckets@[i2].0@,
                        ) by {
                            if i2 < olds.len() {
                                assert(self.buckets@[i2] == olds[i2]);
                            }
                        }
                    }
                    Ok(())
                } else {
                    Err(Error::ConcurrencyConflict)
                }
            },
        }
    }
}

impl<E: Event> InMemoryEventStore<E> {
    proof fn lemma_hist_wf_rec(s: Seq<(String, Vec<EventEnvelope<E>>)>, id: Seq<char>)
        requires
            forall|i: int|
                0 <= i < s.len() ==> history_wf(views((#[trigger] s[i]).1@), s[i].0@),
        ensures
            history_wf(Self::hist_rec(s, id), id),
        decreases s.len(),
    {
        if s.len() > 0 && s[0].0@ != id {
            assert forall|i: int| 0 <= i < s.skip(1).len() implies history_wf(
                views((#[trigger] s.skip(1)[i]).1@),
                s.skip(1)[i].0@,
            ) by {
                assert(s.skip(1)[i] == s[i + 1]);
            }
            Self::lemma_hist_wf_rec(s.skip(1), id);
        }
    }
}

/// A snapshot store holding, for each aggregate, the single most recent
/// snapshot in one owned vector of `(aggregate identity, snapshot)` entries.
pub struct InMemorySnapshotStore<A> {
    slots: Vec<(String, SnapshotEnvelope<A>)>,
}

impl<A: Aggregate> InMemorySnapshotStore<A> {
    /// The snapshot stored for `id`, if any.
    pub closed spec fn latest_rec(
        s: Seq<(String, SnapshotEnvelope<A>)>,
        id: Seq<char>,
    ) -> Option<SnapshotEnvelopeView<A::V>>
        decreases s.len(),
    {
        if s.len() == 0 {
            None
        } else if s[0].0@ == id {
            Some(s[0].1@)
        } else {
            Self::latest_rec(s.skip(1), id)
        }
    }

    proof fn lemma_latest_at(s: Seq<(String, SnapshotEnvelope<A>)>, i: int, id: Seq<char>)
        requires
            0 <= i < s.len(),
            s[i].0@ == id,
            forall|j: int| 0 <= j < i ==> (#[trigger] s[j]).0@ != id,
        ensures
            Self::latest_rec(s, id) == Some(s[i].1@),
        decreases i,
    {
        if i > 0 {
            assert(s.skip(1)[i - 1] == s[i]);
            assert forall|j: int| 0 <= j < i - 1 implies (#[trigger] s.skip(1)[j]).0@ != id by {
                assert(s.skip(1)[j] == s[j + 1]);
            }
            Self::lemma_latest_at(s.skip(1), i - 1, id);
        }
    }

    proof fn lemma_latest_absent(s: Seq<(String, SnapshotEnvelope<A>)>, id: Seq<char>)
        requires
            forall|j: int| 0 <= j < s.len() ==> (#[trigger] s[j]).0@ != id,
        ensures
            Self::latest_rec(s, id) is None,
        decreases s.len(),
    {
        if s.len() > 0 {
            assert forall|j: int| 0 <= j < s.skip(1).len() implies (#[trigger] s.skip(1)[j]).0@
                != id by {
                assert(s.skip(1)[j] == s[j + 1]);
            }
            Self::lemma_latest_absent(s.skip(1), id);
        }
    }

    proof fn lemma_latest_update_other(
        s: Seq<(String, SnapshotEnvelope<A>)>,
        i: int,
        nb: (String, SnapshotEnvelope<A>),
        id2: Seq<char>,
    )
        requires
            0 <= i < s.len(),
            nb.0@ == s[i].0@,
            id2 != s[i].0@,
        ensures
            Self::latest_rec(s.update(i, nb), id2) == Self::latest_rec(s, id2),
        decreases i,
    {
        let t = s.update(i, nb);
        if i == 0 {
            assert(t[0].0@ == s[0].0@);
            assert(t.skip(1) =~= s.skip(1));
        } else {
            assert(t[0] == s[0]);
            if s[0].0@ == id2 {
            } else {
                assert(t.skip(1) =~= s.skip(1).update(i - 1, nb));
                assert(s.skip(1)[i - 1] == s[i]);
                Self::lemma_latest_update_other(s.skip(1), i - 1, nb, id2);
            }
        }
    }

    proof fn lemma_latest_push_other(
        s: Seq<(String, SnapshotEnvelope<A>)>,
        b: (String, SnapshotEnvelope<A>),
        id2: Seq<char>,
    )
        requires
            id2 != b.0@,
        ensures
            Self::latest_rec(s.push(b), id2) == Self::latest_rec(s, id2),
        decreases s.len(),
    {
        let t = s.push(b);
        if s.len() == 0 {
            assert(t[0] == b);
            assert(t.skip(1) =~= Seq::<(String, SnapshotEnvelope<A>)>::empty());
            assert(Self::latest_rec(Seq::empty(), id2) is None);
        } else {
            assert(t[0] == s[0]);
            if s[0].0@ == id2 {
            } else {
                assert(t.skip(1) =~= s.skip(1).push(b));
                Self::lemma_latest_push_other(s.skip(1), b, id2);
            }
        }
    }

    /// An empty store: no aggregate has a snapshot yet.
    pub fn new() -> (r: InMemorySnapshotStore<A>)
        ensures
            r.inv(),
            forall|id: Seq<char>| r.latest(id) is None,
    {
        let r = InMemorySnapshotStore { slots: Vec::new() };
        proof {
            assert forall|id: Seq<char>| r.latest(id) is None by {
                Self::lemma_latest_absent(r.slots@, id);
            }
        }
        r
    }

    /// The position of the entry holding `aggregate_id`, if any.
    fn find_slot(&self, aggregate_id: &String) -> (r: Option<usize>)
        ensures
            (match r {
                Some(i) => i < self.slots@.len() && self.slots@[i as int].0@ == aggregate_id@ && (
                forall|j: int| 0 <= j < i ==> (#[trigger] self.slots@[j]).0@ != aggregate_id@),
                None => forall|j: int|
                    0 <= j < self.slots@.len() ==> (#[trigger] self.slots@[j]).0@
                        != aggregate_id@,
            }),
    {
        let mut i: usize = 0;
        while i < self.slots.len()
            invariant
                i <= self.slots@.len(),
                forall|j: int| 0 <= j < i ==> (#[trigger] self.slots@[j]).0@ != aggregate_id@,
            decreases self.slots@.len() - i,
        {
            if self.slots[i].0 == *aggregate_id {
                return Some(i);
            }
            i = i + 1;
        }
        None
    }

    proof fn lemma_latest_wf_rec(s: Seq<(String, SnapshotEnvelope<A>)>, id: Seq<char>)
        requires
            forall|i: int|
                0 <= i < s.len() ==> (#[trigger] s[i]).1@.wf() && s[i].1@.aggregate_id == s[i].0@,
        ensures
            (match Self::latest_rec(s, id) {
                Some(v) => v.wf() && v.aggregate_id == id,
                None => true,
            }),
        decreases s.len(),
    {
        if s.len() > 0 && s[0].0@ != id {
            assert forall|i: int| 0 <= i < s.skip(1).len() implies (#[trigger] s.skip(
                1,
            )[i]).1@.wf() && s.skip(1)[i].1@.aggregate_id == s.skip(1)[i].0@ by {
                assert(s.skip(1)[i] == s[i + 1]);
            }
            Self::lemma_latest_wf_rec(s.skip(1), id);
        }
    }
}

impl<A: Aggregate> SnapshotStore<A> for InMemorySnapshotStore<A> {
    closed spec fn latest(&self, aggregate_id: Seq<char>) -> Option<SnapshotEnvelopeView<A::V>> {
        Self::latest_rec(self.slots@, aggregate_id)
    }

    closed spec fn inv(&self) -> bool {
        &&& forall|i: int, j: int|
            0 <= i < j < self.slots@.len() ==> (#[trigger] self.slots@[i]).0@ != (
            #[trigger] self.slots@[j]).0@
        &&& forall|i: int|
            0 <= i < self.slots@.len() ==> (#[trigger] self.slots@[i]).1@.wf()
                && self.slots@[i].1@.aggregate_id == self.slots@[i].0@
    }

    proof fn lemma_inv_latest(&self, aggregate_id: Seq<char>) {
        Self::lemma_latest_wf_rec(self.slots@, aggregate_id);
    }

    fn read(&self, aggregate_id: &String) -> (r: Result<Option<SnapshotEnvelope<A>>, Error>)
        ensures
            r is Ok,
    {
        match self.find_slot(aggregate_id) {
            Some(i) => {
                proof {
                    Self::lemma_latest_at(self.slots@, i as int, aggregate_id@);
                }
                Ok(Some(self.slots[i].1.dup()))
            },
            None => {
                proof {
                    Self::lemma_latest_absent(self.slots@, aggregate_id@);
                }
                Ok(None)
            },
        }
    }

    fn persist(&mut self, envelope: &SnapshotEnvelope<A>) -> (r: Result<(), Error>)
        ensures
            r is Ok || r == Err::<(), Error>(Error::ConcurrencyConflict),
    {
        let ghost olds = self.slots@;
        let ghost id = envelope.aggregate_id@;
        match self.find_slot(&envelope.aggregate_id) {
            Some(i) => {
                proof {
                    Self::lemma_latest_at(olds, i as int, id);
                }
                if envelope.sequence > self.slots[i].1.sequence {
                    let dup = envelope.dup();
                    let slot = &mut self.slots[i];
                    slot.1 = dup;
                    proof {
                        let nb = self.slots@[i as int];
                        assert(self.slots@ =~= olds.update(i as int, nb));
                        Self::lemma_latest_at(self.slots@, i as int, id);
                        assert forall|id2: Seq<char>| id2 != id implies Self::latest_rec(
                            self.slots@,
                            id2,
                        ) == Self::latest_rec(olds, id2) by {
                            Self::lemma_latest_update_other(olds, i as int, nb, id2);
                        }
                    }
                    Ok(())
                } else {
                    Err(Error::ConcurrencyConflict)
                }
            },
            None => {
                proof {
                    Self::lemma_latest_absent(olds, id);
                }
                let key = envelope.aggregate_id.clone();
                self.slots.push((key, envelope.dup()));
                proof {
                    let nb = self.slots@[olds.len() as int];
                    assert(self.slots@ =~= olds.push(nb));
                    Self::lemma_latest_at(self.slots@, olds.len() as int, id);
                    assert forall|id2: Seq<char>| id2 != id implies Self::latest_rec(
                        self.slots@,
                        id2,
                    ) == Self::latest_rec(olds, id2) by {
                        Self::lemma_latest_push_other(olds, nb, id2);
                    }
                    assert forall|i2: int| 0 <= i2 < self.slots@.len() implies (
                    #[trigger] self.slots@[i2]).1@.wf() && self.slots@[i2].1@.aggregate_id
                        == self.slots@[i2].0@ by {
                        if i2 < olds.len() {
                            assert(self.slots@[i2] == olds[i2]);
                        }
                    }
                }
                Ok(())
            },
        }
    }
}

} // verus!
