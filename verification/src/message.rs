//! Display-ready messages and their reaction buckets.
//!
//! A `Message` is a derived aggregate: it is always recomputed from the
//! full event history, never patched incrementally.  Reactions with the
//! same body collapse into one `Reaction` bucket holding the individual
//! reaction events.

use vstd::prelude::*;

verus! {

/// One reaction event inside a bucket: who reacted, and the id of the
/// reaction event itself (needed to retract it later).
#[derive(Debug)]
pub struct ReactionEvent {
    pub sender_id: String,
    pub id: String,
}

/// Spec-level value of a `ReactionEvent`.
#[verifier::ext_equal]
pub struct ReactionEventV {
    pub sender_id: Seq<char>,
    pub id: Seq<char>,
}

impl View for ReactionEvent {
    type V = ReactionEventV;

    open spec fn view(&self) -> ReactionEventV {
        ReactionEventV { sender_id: self.sender_id@, id: self.id@ }
    }
}

impl DeepView for ReactionEvent {
    type V = ReactionEventV;

    open spec fn deep_view(&self) -> ReactionEventV {
        self.view()
    }
}

impl Clone for ReactionEvent {
    fn clone(&self) -> (r: Self)
        ensures
            r == *self,
    {
        ReactionEvent { sender_id: self.sender_id.clone(), id: self.id.clone() }
    }
}

/// All reactions with one body on one message.
#[derive(Debug)]
pub struct Reaction {
    pub body: String,
    pub events: Vec<ReactionEvent>,
}

/// Spec-level value of a `Reaction` bucket.
#[verifier::ext_equal]
pub struct ReactionV {
    pub body: Seq<char>,
    pub events: Seq<ReactionEventV>,
}

impl View for Reaction {
    type V = ReactionV;

    open spec fn view(&self) -> ReactionV {
        ReactionV { body: self.body@, events: self.events.deep_view() }
    }
}

impl DeepView for Reaction {
    type V = ReactionV;

    open spec fn deep_view(&self) -> ReactionV {
        self.view()
    }
}

impl Clone for Reaction {
    fn clone(&self) -> (r: Self)
        ensures
            r@ == self@,
    {
        let mut events: Vec<ReactionEvent> = Vec::new();
        let mut i: usize = 0;
        while i < self.events.len()
            invariant
                i <= self.events.len(),
                events@.len() == i,
                forall|k: int|
                    0 <= k < i ==> (#[trigger] events@[k]).deep_view()
                        == self.events@[k].deep_view(),
            decreases self.events.len() - i,
        {
            events.push(self.events[i].clone());
            i = i + 1;
        }
        proof {
            assert(events.deep_view() =~= self.events.deep_view());
        }
        Reaction { body: self.body.clone(), events }
    }
}

/// A display-ready message: the originating root event's id, the sender
/// (raw id and resolved display string), the current body after edits,
/// and the reaction buckets.
#[derive(Debug)]
pub struct Message {
    pub id: String,
    pub sender_id: String,
    pub sender: String,
    pub body: String,
    pub edited: bool,
    pub reactions: Vec<Reaction>,
}

/// Spec-level value of a `Message`.
#[verifier::ext_equal]
pub struct MessageV {
    pub id: Seq<char>,
    pub sender_id: Seq<char>,
    pub sender: Seq<char>,
    pub body: Seq<char>,
    pub edited: bool,
    pub reactions: Seq<ReactionV>,
}

impl View for Message {
    type V = MessageV;

    open spec fn view(&self) -> MessageV {
        MessageV {
            id: self.id@,
            sender_id: self.sender_id@,
            sender: self.sender@,
            body: self.body@,
            edited: self.edited,
            reactions: self.reactions.deep_view(),
        }
    }
}

impl DeepView for Message {
    type V = MessageV;

    open spec fn deep_view(&self) -> MessageV {
        self.view()
    }
}

impl Clone for Message {
    fn clone(&self) -> (r: Self)
        ensures
            r@ == self@,
    {
        let mut reactions: Vec<Reaction> = Vec::new();
        let mut i: usize = 0;
        while i < self.reactions.len()
            invariant
                i <= self.reactions.len(),
                reactions@.len() == i,
                forall|k: int|
                    0 <= k < i ==> (#[trigger] reactions@[k]).deep_view()
                        == self.reactions@[k].deep_view(),
            decreases self.reactions.len() - i,
        {
            reactions.push(self.reactions[i].clone());
            i = i + 1;
        }
        proof {
            assert(reactions.deep_view() =~= self.reactions.deep_view());
        }
        Message {
            id: self.id.clone(),
            sender_id: self.sender_id.clone(),
            sender: self.sender.clone(),
            body: self.body.clone(),
            edited: self.edited,
            reactions,
        }
    }
}

// ---------------------------------------------------------------------------
// Bucket operations
// ---------------------------------------------------------------------------

/// The index of the first bucket with body `b` at or after `i`, or -1.
pub open spec fn bucket_idx_from(rs: Seq<ReactionV>, b: Seq<char>, i: int) -> int
    decreases rs.len() - i,
{
    if i < 0 || i >= rs.len() {
        -1
    } else if rs[i].body == b {
        i
    } else {
        bucket_idx_from(rs, b, i + 1)
    }
}

/// What the bucket search returns: either -1 and no bucket from `i` on
/// has the body, or the first such index.
pub proof fn lemma_bucket_idx_from(rs: Seq<ReactionV>, b: Seq<char>, i: int)
    requires
        0 <= i <= rs.len(),
    ensures
        bucket_idx_from(rs, b, i) == -1 ==> forall|k: int|
            i <= k < rs.len() ==> (#[trigger] rs[k]).body != b,
        bucket_idx_from(rs, b, i) != -1 ==> {
            let j = bucket_idx_from(rs, b, i);
            &&& i <= j < rs.len()
            &&& rs[j].body == b
            &&& forall|k: int| i <= k < j ==> (#[trigger] rs[k]).body != b
        },
    decreases rs.len() - i,
{
    if i < rs.len() && rs[i].body != b {
        lemma_bucket_idx_from(rs, b, i + 1);
    }
}

/// Appends one reaction event to the bucket keyed by `b`, creating the
/// bucket at the end when absent.
pub open spec fn add_to_buckets(rs: Seq<ReactionV>, b: Seq<char>, ev: ReactionEventV) -> Seq<
    ReactionV,
> {
    let i = bucket_idx_from(rs, b, 0);
    if i == -1 {
        rs.push(ReactionV { body: b, events: seq![ev] })
    } else {
        rs.update(i, ReactionV { body: b, events: rs[i].events.push(ev) })
    }
}

/// The events of `evs` except those with id `eid`.
pub open spec fn filter_events(evs: Seq<ReactionEventV>, eid: Seq<char>) -> Seq<ReactionEventV>
    decreases evs.len(),
{
    if evs.len() == 0 {
        Seq::empty()
    } else if evs[0].id == eid {
        filter_events(evs.drop_first(), eid)
    } else {
        seq![evs[0]] + filter_events(evs.drop_first(), eid)
    }
}

/// Whether a bucket is selected by an optional body filter.
pub open spec fn body_selected(bodyf: Option<Seq<char>>, b: Seq<char>) -> bool {
    match bodyf {
        Option::None => true,
        Option::Some(bb) => bb == b,
    }
}

/// Removes the reaction event with id `eid` from every selected bucket;
/// a selected bucket that becomes empty disappears.
pub open spec fn remove_event(rs: Seq<ReactionV>, bodyf: Option<Seq<char>>, eid: Seq<char>) -> Seq<
    ReactionV,
>
    decreases rs.len(),
{
    if rs.len() == 0 {
        Seq::empty()
    } else {
        let rest = remove_event(rs.drop_first(), bodyf, eid);
        if body_selected(bodyf, rs[0].body) {
            let kept = filter_events(rs[0].events, eid);
            if kept.len() == 0 {
                rest
            } else {
                seq![ReactionV { body: rs[0].body, events: kept }] + rest
            }
        } else {
            seq![rs[0]] + rest
        }
    }
}

/// Whether any bucket holds a reaction event with id `eid`.
pub open spec fn buckets_contain_event(rs: Seq<ReactionV>, eid: Seq<char>) -> bool {
    exists|i: int, j: int|
        0 <= i < rs.len() && 0 <= j < rs[i].events.len() && (#[trigger] rs[i].events[j]).id == eid
}

/// Well-formed bucket list: every bucket holds at least one event.
pub open spec fn buckets_wf(rs: Seq<ReactionV>) -> bool {
    forall|i: int| 0 <= i < rs.len() ==> (#[trigger] rs[i]).events.len() > 0
}

/// Filtering by an id that occurs nowhere in the list leaves it unchanged.
pub proof fn lemma_filter_events_absent(evs: Seq<ReactionEventV>, eid: Seq<char>)
    requires
        forall|j: int| 0 <= j < evs.len() ==> (#[trigger] evs[j]).id != eid,
    ensures
        filter_events(evs, eid) == evs,
    decreases evs.len(),
{
    if evs.len() > 0 {
        assert(evs[0].id != eid);
        assert forall|j: int|
            0 <= j < evs.drop_first().len() implies (#[trigger] evs.drop_first()[j]).id
            != eid by {
            assert(evs.drop_first()[j] == evs[j + 1]);
        }
        lemma_filter_events_absent(evs.drop_first(), eid);
        assert(seq![evs[0]] + evs.drop_first() =~= evs);
    }
}

/// Appending an event and then filtering out its id filters exactly as
/// before the append.
pub proof fn lemma_filter_events_push_same(evs: Seq<ReactionEventV>, ev: ReactionEventV)
    ensures
        filter_events(evs.push(ev), ev.id) == filter_events(evs, ev.id),
    decreases evs.len(),
{
    if evs.len() == 0 {
        reveal_with_fuel(filter_events, 3);
        assert(evs.push(ev)[0] == ev);
        assert(evs.push(ev).drop_first() =~= Seq::<ReactionEventV>::empty());
        assert(filter_events(evs.push(ev), ev.id) == filter_events(
            evs.push(ev).drop_first(),
            ev.id,
        ));
    } else {
        assert(evs.push(ev)[0] == evs[0]);
        assert(evs.push(ev).drop_first() =~= evs.drop_first().push(ev));
        lemma_filter_events_push_same(evs.drop_first(), ev);
    }
}

/// Removing an event id that occurs in no bucket leaves the well-formed
/// bucket list unchanged.
pub proof fn lemma_remove_event_absent(rs: Seq<ReactionV>, bodyf: Option<Seq<char>>, eid: Seq<char>)
    requires
        buckets_wf(rs),
        !buckets_contain_event(rs, eid),
    ensures
        remove_event(rs, bodyf, eid) == rs,
    decreases rs.len(),
{
    if rs.len() > 0 {
        assert forall|j: int| 0 <= j < rs[0].events.len() implies (#[trigger] rs[0].events[j]).id
            != eid by {
            if rs[0].events[j].id == eid {
                assert(buckets_contain_event(rs, eid)) by {
                    assert(0 <= 0 < rs.len() && 0 <= j < rs[0].events.len() && rs[0].events[j].id
                        == eid);
                }
            }
        }
        lemma_filter_events_absent(rs[0].events, eid);
        let t = rs.drop_first();
        assert forall|i: int| 0 <= i < t.len() implies (#[trigger] t[i]).events.len() > 0 by {
            assert(t[i] == rs[i + 1]);
        }
        assert(!buckets_contain_event(t, eid)) by {
            if buckets_contain_event(t, eid) {
                let (i, j) = choose|i: int, j: int|
                    0 <= i < t.len() && 0 <= j < t[i].events.len() && (#[trigger] t[i].events[j]).id
                        == eid;
                assert(t[i] == rs[i + 1]);
                assert(buckets_contain_event(rs, eid)) by {
                    assert(0 <= i + 1 < rs.len() && 0 <= j < rs[i + 1].events.len() && rs[i
                        + 1].events[j].id == eid);
                }
            }
        }
        lemma_remove_event_absent(t, bodyf, eid);
        assert(rs[0].events.len() > 0);
        assert(seq![rs[0]] + t =~= rs);
    }
}

/// Reaction lifecycle, retraction half: adding a reaction and then
/// removing it by its event id restores the bucket list exactly, provided
/// the list is well formed and did not hold that event id before.
pub proof fn lemma_add_then_remove(
    rs: Seq<ReactionV>,
    b: Seq<char>,
    ev: ReactionEventV,
    bodyf: Option<Seq<char>>,
)
    requires
        buckets_wf(rs),
        !buckets_contain_event(rs, ev.id),
        body_selected(bodyf, b),
    ensures
        remove_event(add_to_buckets(rs, b, ev), bodyf, ev.id) == rs,
{
    lemma_bucket_idx_from(rs, b, 0);
    let i = bucket_idx_from(rs, b, 0);
    if i == -1 {
        let nb = ReactionV { body: b, events: seq![ev] };
        assert(filter_events(nb.events, ev.id) =~= Seq::<ReactionEventV>::empty()) by {
            reveal_with_fuel(filter_events, 3);
            assert(nb.events[0] == ev);
            assert(nb.events.drop_first() =~= Seq::<ReactionEventV>::empty());
        }
        lemma_remove_push_selected(rs, nb, bodyf, ev.id);
        lemma_remove_event_absent(rs, bodyf, ev.id);
    } else {
        lemma_remove_update(rs, i, ev, bodyf);
    }
}

/// Removing from a list with one appended selected bucket removes from the
/// prefix and from that bucket independently.
proof fn lemma_remove_push_selected(
    rs: Seq<ReactionV>,
    nb: ReactionV,
    bodyf: Option<Seq<char>>,
    eid: Seq<char>,
)
    requires
        body_selected(bodyf, nb.body),
        filter_events(nb.events, eid).len() == 0,
    ensures
        remove_event(rs.push(nb), bodyf, eid) == remove_event(rs, bodyf, eid),
    decreases rs.len(),
{
    if rs.len() == 0 {
        reveal_with_fuel(remove_event, 3);
        assert(rs.push(nb)[0] == nb);
        assert(rs.push(nb).drop_first() =~= Seq::<ReactionV>::empty());
        assert(remove_event(rs.push(nb), bodyf, eid) =~= remove_event(rs, bodyf, eid));
    } else {
        assert(rs.push(nb)[0] == rs[0]);
        assert(rs.push(nb).drop_first() =~= rs.drop_first().push(nb));
        lemma_remove_push_selected(rs.drop_first(), nb, bodyf, eid);
    }
}

/// Removing an event id from the list in which exactly the bucket at `i`
/// carries it as a fresh trailing event restores the original list.
proof fn lemma_remove_update(rs: Seq<ReactionV>, i: int, ev: ReactionEventV, bodyf: Option<Seq<char>>)
    requires
        buckets_wf(rs),
        !buckets_contain_event(rs, ev.id),
        0 <= i < rs.len(),
        body_selected(bodyf, rs[i].body),
    ensures
        remove_event(
            rs.update(i, ReactionV { body: rs[i].body, events: rs[i].events.push(ev) }),
            bodyf,
            ev.id,
        ) == rs,
    decreases rs.len(),
{
    let up = rs.update(i, ReactionV { body: rs[i].body, events: rs[i].events.push(ev) });
    assert forall|j: int| 0 <= j < rs[i].events.len() implies (#[trigger] rs[i].events[j]).id
        != ev.id by {
        if rs[i].events[j].id == ev.id {
            assert(buckets_contain_event(rs, ev.id)) by {
                assert(0 <= i < rs.len() && 0 <= j < rs[i].events.len() && rs[i].events[j].id
                    == ev.id);
            }
        }
    }
    if i == 0 {
        assert(up[0] == ReactionV { body: rs[0].body, events: rs[0].events.push(ev) });
        lemma_filter_events_push_same(rs[0].events, ev);
        lemma_filter_events_absent(rs[0].events, ev.id);
        assert(up.drop_first() =~= rs.drop_first());
        let t = rs.drop_first();
        assert forall|k: int| 0 <= k < t.len() implies (#[trigger] t[k]).events.len() > 0 by {
            assert(t[k] == rs[k + 1]);
        }
        assert(!buckets_contain_event(t, ev.id)) by {
            if buckets_contain_event(t, ev.id) {
                let (m, j) = choose|m: int, j: int|
                    0 <= m < t.len() && 0 <= j < t[m].events.len() && (#[trigger] t[m].events[j]).id
                        == ev.id;
                assert(t[m] == rs[m + 1]);
                assert(buckets_contain_event(rs, ev.id)) by {
                    assert(0 <= m + 1 < rs.len() && 0 <= j < rs[m + 1].events.len() && rs[m
                        + 1].events[j].id == ev.id);
                }
            }
        }
        lemma_remove_event_absent(t, bodyf, ev.id);
        assert(rs[0].events.len() > 0);
        assert(rs[0].events.push(ev).len() > 0);
        assert(seq![rs[0]] + t =~= rs);
        assert(ReactionV { body: rs[0].body, events: filter_events(rs[0].events.push(ev), ev.id) }
            =~= rs[0]);
    } else {
        assert(up[0] == rs[0]);
        assert forall|j: int| 0 <= j < rs[0].events.len() implies (#[trigger] rs[0].events[j]).id
            != ev.id by {
            if rs[0].events[j].id == ev.id {
                assert(buckets_contain_event(rs, ev.id)) by {
                    assert(0 <= 0 < rs.len() && 0 <= j < rs[0].events.len() && rs[0].events[j].id
                        == ev.id);
                }
            }
        }
        lemma_filter_events_absent(rs[0].events, ev.id);
        let t = rs.drop_first();
        assert forall|k: int| 0 <= k < t.len() implies (#[trigger] t[k]).events.len() > 0 by {
            assert(t[k] == rs[k + 1]);
        }
        assert(!buckets_contain_event(t, ev.id)) by {
            if buckets_contain_event(t, ev.id) {
                let (m, j) = choose|m: int, j: int|
                    0 <= m < t.len() && 0 <= j < t[m].events.len() && (#[trigger] t[m].events[j]).id
                        == ev.id;
                assert(t[m] == rs[m + 1]);
                assert(buckets_contain_event(rs, ev.id)) by {
                    assert(0 <= m + 1 < rs.len() && 0 <= j < rs[m + 1].events.len() && rs[m
                        + 1].events[j].id == ev.id);
                }
            }
        }
        assert(t[i - 1] == rs[i]);
        lemma_remove_update(t, i - 1, ev, bodyf);
        assert(up.drop_first() =~= t.update(
            i - 1,
            ReactionV { body: t[i - 1].body, events: t[i - 1].events.push(ev) },
        ));
        assert(rs[0].events.len() > 0);
        assert(seq![rs[0]] + t =~= rs);
    }
}

/// Reaction lifecycle, accumulation half: two reactions with the same
/// body on a list with no bucket of that body yield exactly one new
/// bucket holding both events, in order, and leave the other buckets
/// untouched.
pub proof fn lemma_two_adds_one_bucket(
    rs: Seq<ReactionV>,
    b: Seq<char>,
    ev1: ReactionEventV,
    ev2: ReactionEventV,
)
    requires
        forall|k: int| 0 <= k < rs.len() ==> (#[trigger] rs[k]).body != b,
    ensures
        add_to_buckets(add_to_buckets(rs, b, ev1), b, ev2) == rs.push(
            ReactionV { body: b, events: seq![ev1, ev2] },
        ),
{
    lemma_bucket_idx_from(rs, b, 0);
    if bucket_idx_from(rs, b, 0) != -1 {
        let j = bucket_idx_from(rs, b, 0);
        assert(rs[j].body == b);
    }
    let r1 = rs.push(ReactionV { body: b, events: seq![ev1] });
    lemma_bucket_idx_from(r1, b, 0);
    let j = bucket_idx_from(r1, b, 0);
    assert(r1[rs.len() as int].body == b);
    assert(j != -1);
    assert forall|k: int| 0 <= k < rs.len() implies (#[trigger] r1[k]).body != b by {
        assert(r1[k] == rs[k]);
    }
    assert(j == rs.len());
    assert(add_to_buckets(r1, b, ev2) =~= rs.push(
        ReactionV { body: b, events: seq![ev1, ev2] },
    )) by {
        assert(r1[j].events.push(ev2) =~= seq![ev1, ev2]);
    }
}

} // verus!
