//! The ordered, deduplicated holding area for raw events.
//!
//! The store keeps at most one event per id, in ascending timestamp order
//! with ties broken by id.  Because the order is strict and ids are
//! unique, the store's contents are a canonical form: any two well-formed
//! stores holding the same events are equal, whatever order the events
//! arrived in.

use vstd::prelude::*;

use crate::event::{ev_lt, lemma_ev_asym, lemma_ev_connected, lemma_ev_trans, EventV, RawEvent};

verus! {

/// A well-formed store sequence: strictly ascending in the timeline order,
/// with pairwise distinct ids.
pub open spec fn store_wf(s: Seq<EventV>) -> bool {
    &&& forall|i: int, j: int| 0 <= i < j < s.len() ==> ev_lt(#[trigger] s[i], #[trigger] s[j])
    &&& forall|i: int, j: int| 0 <= i < j < s.len() ==> (#[trigger] s[i]).id != (#[trigger] s[j]).id
}

/// Whether some event in `s` carries the id `id`.
pub open spec fn contains_id(s: Seq<EventV>, id: Seq<char>) -> bool {
    exists|i: int| 0 <= i < s.len() && (#[trigger] s[i]).id == id
}

/// Sorted insertion of an event whose id is fresh.
pub open spec fn sorted_insert(s: Seq<EventV>, e: EventV) -> Seq<EventV>
    decreases s.len(),
{
    if s.len() == 0 {
        seq![e]
    } else if ev_lt(s[0], e) {
        seq![s[0]] + sorted_insert(s.drop_first(), e)
    } else {
        seq![e] + s
    }
}

/// What ingestion does to the store's contents: nothing when the id is
/// already present, a sorted insertion otherwise.
pub open spec fn store_insert(s: Seq<EventV>, e: EventV) -> Seq<EventV> {
    if contains_id(s, e.id) {
        s
    } else {
        sorted_insert(s, e)
    }
}

/// Inserting the events of `batch` one after the other, first element
/// first.
pub open spec fn store_insert_all(s: Seq<EventV>, batch: Seq<EventV>) -> Seq<EventV>
    decreases batch.len(),
{
    if batch.len() == 0 {
        s
    } else {
        store_insert_all(store_insert(s, batch[0]), batch.drop_first())
    }
}

/// Sorted insertion contains exactly the old events and the new one.
pub proof fn lemma_sorted_insert_contains(s: Seq<EventV>, e: EventV)
    ensures
        sorted_insert(s, e).len() == s.len() + 1,
        forall|x: EventV|
            #[trigger] sorted_insert(s, e).contains(x) <==> (s.contains(x) || x == e),
        contains_id(sorted_insert(s, e), e.id),
    decreases s.len(),
{
    if s.len() == 0 {
        assert(sorted_insert(s, e)[0] == e);
    } else if ev_lt(s[0], e) {
        lemma_sorted_insert_contains(s.drop_first(), e);
        let r = sorted_insert(s, e);
        assert(contains_id(r, e.id)) by {
            let t = sorted_insert(s.drop_first(), e);
            let j = choose|j: int| 0 <= j < t.len() && t[j].id == e.id;
            assert(r[j + 1].id == e.id);
        }
        assert forall|x: EventV| r.contains(x) <==> (s.contains(x) || x == e) by {
            if r.contains(x) {
                let i = choose|i: int| 0 <= i < r.len() && r[i] == x;
                if i == 0 {
                    assert(s[0] == x);
                } else {
                    assert(sorted_insert(s.drop_first(), e).contains(x)) by {
                        assert(sorted_insert(s.drop_first(), e)[i - 1] == x);
                    }
                    if s.drop_first().contains(x) {
                        let j = choose|j: int|
                            0 <= j < s.drop_first().len() && s.drop_first()[j] == x;
                        assert(s[j + 1] == x);
                    }
                }
            }
            if s.contains(x) {
                let i = choose|i: int| 0 <= i < s.len() && s[i] == x;
                if i == 0 {
                    assert(r[0] == x);
                } else {
                    assert(s.drop_first()[i - 1] == x);
                    assert(sorted_insert(s.drop_first(), e).contains(x));
                    let j = choose|j: int|
                        0 <= j < sorted_insert(s.drop_first(), e).len() && sorted_insert(
                            s.drop_first(),
                            e,
                        )[j] == x;
                    assert(r[j + 1] == x);
                }
            }
            if x == e {
                let t = sorted_insert(s.drop_first(), e);
                assert(t.contains(x));
                let j = choose|j: int| 0 <= j < t.len() && t[j] == x;
                assert(r[j + 1] == x);
            }
        }
    } else {
        assert forall|x: EventV| sorted_insert(s, e).contains(x) <==> (s.contains(x) || x == e) by {
            let r = sorted_insert(s, e);
            if r.contains(x) {
                let i = choose|i: int| 0 <= i < r.len() && r[i] == x;
                if i > 0 {
                    assert(s[i - 1] == x);
                }
            }
            if s.contains(x) {
                let i = choose|i: int| 0 <= i < s.len() && s[i] == x;
                assert(sorted_insert(s, e)[i + 1] == x);
            }
            assert(sorted_insert(s, e)[0] == e);
        }
        assert(contains_id(sorted_insert(s, e), e.id)) by {
            assert(sorted_insert(s, e)[0].id == e.id);
        }
    }
}

/// Sorted insertion of a fresh id preserves well-formedness.
pub proof fn lemma_sorted_insert_wf(s: Seq<EventV>, e: EventV)
    requires
        store_wf(s),
        !contains_id(s, e.id),
    ensures
        store_wf(sorted_insert(s, e)),
    decreases s.len(),
{
    if s.len() == 0 {
    } else if ev_lt(s[0], e) {
        assert forall|i: int, j: int|
            0 <= i < j < s.drop_first().len() implies ev_lt(
            #[trigger] s.drop_first()[i],
            #[trigger] s.drop_first()[j],
        ) && s.drop_first()[i].id != s.drop_first()[j].id by {
            assert(s.drop_first()[i] == s[i + 1]);
            assert(s.drop_first()[j] == s[j + 1]);
        }
        assert(!contains_id(s.drop_first(), e.id)) by {
            if contains_id(s.drop_first(), e.id) {
                let i = choose|i: int|
                    0 <= i < s.drop_first().len() && s.drop_first()[i].id == e.id;
                assert(s[i + 1].id == e.id);
            }
        }
        lemma_sorted_insert_wf(s.drop_first(), e);
        lemma_sorted_insert_contains(s.drop_first(), e);
        let r = sorted_insert(s, e);
        let t = sorted_insert(s.drop_first(), e);
        assert forall|i: int, j: int| 0 <= i < j < r.len() implies ev_lt(
            #[trigger] r[i],
            #[trigger] r[j],
        ) && r[i].id != r[j].id by {
            if i == 0 {
                // r[0] == s[0]; r[j] is in t, so it is either in s.drop_first() or is e
                assert(t.contains(t[j - 1]));
                let x = t[j - 1];
                assert(r[j] == x);
                if x == e {
                    assert(ev_lt(s[0], e));
                    if s[0].id == e.id {
                        assert(contains_id(s, e.id)) by {
                            assert(s[0].id == e.id);
                        }
                    }
                } else {
                    assert(s.drop_first().contains(x));
                    let k = choose|k: int|
                        0 <= k < s.drop_first().len() && s.drop_first()[k] == x;
                    assert(s[k + 1] == x);
                    assert(ev_lt(s[0], s[k + 1]));
                    assert(s[0].id != s[k + 1].id);
                }
            } else {
                assert(r[i] == t[i - 1]);
                assert(r[j] == t[j - 1]);
            }
        }
    } else {
        // e goes in front: !ev_lt(s[0], e); show ev_lt(e, s[k]) for all k
        let r = sorted_insert(s, e);
        assert forall|i: int, j: int| 0 <= i < j < r.len() implies ev_lt(
            #[trigger] r[i],
            #[trigger] r[j],
        ) && r[i].id != r[j].id by {
            if i == 0 {
                assert(r[0] == e);
                assert(r[j] == s[j - 1]);
                if s[0].id == e.id {
                    assert(contains_id(s, e.id)) by {
                        assert(s[0].id == e.id);
                    }
                }
                assert(ev_lt(e, s[0])) by {
                    if !ev_lt(e, s[0]) {
                        lemma_ev_connected(s[0], e);
                    }
                }
                if j > 1 {
                    lemma_ev_trans(e, s[0], s[j - 1]);
                }
                if s[j - 1].id == e.id {
                    assert(contains_id(s, e.id)) by {
                        assert(s[j - 1].id == e.id);
                    }
                }
            } else {
                assert(r[i] == s[i - 1]);
                assert(r[j] == s[j - 1]);
            }
        }
    }
}

/// Inserting an already-held id is invisible: ingesting the same event id
/// twice leaves exactly the store that one ingestion leaves.
pub proof fn lemma_store_insert_idempotent(s: Seq<EventV>, e: EventV)
    ensures
        store_insert(store_insert(s, e), e) == store_insert(s, e),
{
    if !contains_id(s, e.id) {
        lemma_sorted_insert_contains(s, e);
    }
}

/// Ingestion preserves well-formedness, and the contents afterwards are
/// exactly the old events plus the new one when its id was fresh.
pub proof fn lemma_store_insert_props(s: Seq<EventV>, e: EventV)
    requires
        store_wf(s),
    ensures
        store_wf(store_insert(s, e)),
        forall|x: EventV|
            #[trigger] store_insert(s, e).contains(x) <==> (s.contains(x) || (!contains_id(s, e.id)
                && x == e)),
{
    if !contains_id(s, e.id) {
        lemma_sorted_insert_wf(s, e);
        lemma_sorted_insert_contains(s, e);
    }
}

/// Ingesting a whole batch preserves well-formedness.
pub proof fn lemma_store_insert_all_wf(s: Seq<EventV>, batch: Seq<EventV>)
    requires
        store_wf(s),
    ensures
        store_wf(store_insert_all(s, batch)),
    decreases batch.len(),
{
    if batch.len() > 0 {
        lemma_store_insert_props(s, batch[0]);
        lemma_store_insert_all_wf(store_insert(s, batch[0]), batch.drop_first());
    }
}

/// Canonical form: two well-formed stores holding the same events are the
/// same sequence.  This is what makes the engine's view independent of
/// arrival order.
pub proof fn lemma_store_canonical(s1: Seq<EventV>, s2: Seq<EventV>)
    requires
        store_wf(s1),
        store_wf(s2),
        forall|x: EventV| s1.contains(x) == s2.contains(x),
    ensures
        s1 == s2,
    decreases s1.len(),
{
    if s1.len() == 0 {
        if s2.len() > 0 {
            assert(s2.contains(s2[0]));
        }
        assert(s1 =~= s2);
    } else {
        assert(s1.contains(s1[0]));
        assert(s2.contains(s1[0]));
        let j = choose|j: int| 0 <= j < s2.len() && s2[j] == s1[0];
        assert(s2.contains(s2[0]));
        assert(s1.contains(s2[0]));
        let k = choose|k: int| 0 <= k < s1.len() && s1[k] == s2[0];
        if j > 0 && k > 0 {
            assert(ev_lt(s2[0], s2[j]));
            assert(ev_lt(s1[0], s1[k]));
            lemma_ev_asym(s2[0], s1[0]);
            assert(false);
        }
        assert(s1[0] == s2[0]);
        let t1 = s1.drop_first();
        let t2 = s2.drop_first();
        assert forall|i: int, j2: int|
            0 <= i < j2 < t1.len() implies ev_lt(#[trigger] t1[i], #[trigger] t1[j2])
            && t1[i].id != t1[j2].id by {
            assert(t1[i] == s1[i + 1]);
            assert(t1[j2] == s1[j2 + 1]);
        }
        assert forall|i: int, j2: int|
            0 <= i < j2 < t2.len() implies ev_lt(#[trigger] t2[i], #[trigger] t2[j2])
            && t2[i].id != t2[j2].id by {
            assert(t2[i] == s2[i + 1]);
            assert(t2[j2] == s2[j2 + 1]);
        }
        assert forall|x: EventV| t1.contains(x) == t2.contains(x) by {
            if t1.contains(x) {
                let i = choose|i: int| 0 <= i < t1.len() && t1[i] == x;
                assert(s1[i + 1] == x);
                assert(s1.contains(x));
                assert(s2.contains(x));
                let m = choose|m: int| 0 <= m < s2.len() && s2[m] == x;
                if m == 0 {
                    // x == s2[0] == s1[0], but x sits after position 0 in s1 too
                    lemma_ev_asym(s1[0], s1[i + 1]);
                    assert(ev_lt(s1[0], s1[i + 1]));
                    assert(false);
                }
                assert(t2[m - 1] == x);
            }
            if t2.contains(x) {
                let i = choose|i: int| 0 <= i < t2.len() && t2[i] == x;
                assert(s2[i + 1] == x);
                assert(s2.contains(x));
                assert(s1.contains(x));
                let m = choose|m: int| 0 <= m < s1.len() && s1[m] == x;
                if m == 0 {
                    lemma_ev_asym(s2[0], s2[i + 1]);
                    assert(ev_lt(s2[0], s2[i + 1]));
                    assert(false);
                }
                assert(t1[m - 1] == x);
            }
        }
        lemma_store_canonical(t1, t2);
        assert(s1 =~= seq![s1[0]] + t1);
        assert(s2 =~= seq![s2[0]] + t2);
    }
}

/// The ordered, deduplicated event store.
pub struct EventStore {
    events: Vec<RawEvent>,
}

impl EventStore {
    /// The store's contents as a sequence of event values, ascending.
    pub closed spec fn evs(&self) -> Seq<EventV> {
        self.events.deep_view()
    }

    /// Whether the store is well formed.
    pub open spec fn wf(&self) -> bool {
        store_wf(self.evs())
    }

    /// Creates an empty store.
    pub fn new() -> (s: EventStore)
        ensures
            s.wf(),
            s.evs() == Seq::<EventV>::empty(),
    {
        let s = EventStore { events: Vec::new() };
        proof {
            assert(s.evs() =~= Seq::<EventV>::empty());
        }
        s
    }

    /// The number of events held.
    pub fn len(&self) -> (n: usize)
        ensures
            n == self.evs().len(),
    {
        self.events.len()
    }

    /// Read access to the ordered events.
    pub fn events(&self) -> (r: &Vec<RawEvent>)
        ensures
            r.deep_view() == self.evs(),
    {
        &self.events
    }

    /// Inserts `e` in timestamp-then-id order; a no-op when the id is
    /// already present.  Returns whether the event was newly added.
    pub fn ingest(&mut self, e: RawEvent) -> (added: bool)
        requires
            old(self).wf(),
        ensures
            final(self).wf(),
            final(self).evs() == store_insert(old(self).evs(), e@),
            added == !contains_id(old(self).evs(), e@.id),
    {
        let ghost s = self.evs();
        // reject a duplicate id
        let n = self.events.len();
        let mut i: usize = 0;
        while i < n
            invariant
                n == s.len(),
                i <= n,
                s == self.evs(),
                s == old(self).evs(),
                store_wf(s),
                forall|k: int| 0 <= k < i ==> (#[trigger] s[k]).id != e@.id,
            decreases n - i,
        {
            if self.events[i].id == e.id {
                assert(contains_id(s, e@.id)) by {
                    assert(s[i as int].id == e@.id);
                }
                return false;
            }
            i = i + 1;
        }
        assert(!contains_id(s, e@.id));
        // find the insertion point: the first entry not below `e`
        let mut p: usize = 0;
        while p < n && crate::event::event_before(&self.events[p], &e)
            invariant
                n == s.len(),
                p <= n,
                s == self.evs(),
                s == old(self).evs(),
                store_wf(s),
                !contains_id(s, e@.id),
                forall|k: int| 0 <= k < p ==> ev_lt(#[trigger] s[k], e@),
            decreases n - p,
        {
            p = p + 1;
        }
        proof {
            lemma_sorted_insert_front(s, e@, p as int);
        }
        self.events.insert(p, e);
        proof {
            assert(self.evs() =~= s.subrange(0, p as int) + seq![e@] + s.subrange(
                p as int,
                s.len() as int,
            ));
            lemma_sorted_insert_wf(s, e@);
        }
        true
    }
}

/// When every event before position `p` is below `e` and the event at `p`
/// (if any) is not, sorted insertion places `e` exactly at `p`.
proof fn lemma_sorted_insert_front(s: Seq<EventV>, e: EventV, p: int)
    requires
        store_wf(s),
        0 <= p <= s.len(),
        forall|k: int| 0 <= k < p ==> ev_lt(#[trigger] s[k], e),
        p < s.len() ==> !ev_lt(s[p], e),
    ensures
        sorted_insert(s, e) == s.subrange(0, p) + seq![e] + s.subrange(p, s.len() as int),
    decreases s.len(),
{
    if s.len() == 0 {
        assert(sorted_insert(s, e) =~= s.subrange(0, p) + seq![e] + s.subrange(
            p,
            s.len() as int,
        ));
    } else if p == 0 {
        assert(!ev_lt(s[0], e));
        assert(sorted_insert(s, e) =~= s.subrange(0, p) + seq![e] + s.subrange(
            p,
            s.len() as int,
        ));
    } else {
        assert(ev_lt(s[0], e));
        let t = s.drop_first();
        assert forall|i: int, j: int| 0 <= i < j < t.len() implies ev_lt(
            #[trigger] t[i],
            #[trigger] t[j],
        ) && t[i].id != t[j].id by {
            assert(t[i] == s[i + 1]);
            assert(t[j] == s[j + 1]);
        }
        assert forall|k: int| 0 <= k < p - 1 implies ev_lt(#[trigger] t[k], e) by {
            assert(t[k] == s[k + 1]);
        }
        if p - 1 < t.len() {
            assert(t[p - 1] == s[p]);
        }
        lemma_sorted_insert_front(t, e, p - 1);
        assert(sorted_insert(s, e) =~= seq![s[0]] + sorted_insert(t, e));
        assert(seq![s[0]] + (t.subrange(0, p - 1) + seq![e] + t.subrange(p - 1, t.len() as int))
            =~= s.subrange(0, p) + seq![e] + s.subrange(p, s.len() as int));
    }
}

} // verus!
