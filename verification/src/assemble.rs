//! The message assembler: from the ordered event history to the
//! display-ready message list.
//!
//! Assembly is a full recomputation, never an incremental patch: one pass
//! splits the ordered history into root-message stubs and modifiers, the
//! modifiers are then applied in history order, senders are resolved
//! against the known members, duplicate-body reaction buckets are merged
//! defensively, and the list is reversed so the newest message comes
//! first.  Modifiers whose target is not (or no longer) visible are
//! dropped silently: a later rebuild sees the full history again.

use vstd::prelude::*;

use crate::event::{is_root, EventV, KindV, RawEvent, ReactionAction};
use crate::member::{display_of, Member, MemberV};
use crate::message::{
    add_to_buckets, body_selected, bucket_idx_from, filter_events, remove_event, Message,
    MessageV, Reaction, ReactionEvent, ReactionEventV, ReactionV,
};

verus! {

// ---------------------------------------------------------------------------
// Spec layer
// ---------------------------------------------------------------------------

/// The message stub a root event originates: unedited, without reactions,
/// with the raw sender id as its provisional display string.
pub open spec fn stub_of(e: EventV) -> MessageV {
    MessageV {
        id: e.id,
        sender_id: e.sender_id,
        sender: e.sender_id,
        body: match e.kind {
            KindV::RootMessage { body, .. } => body,
            _ => Seq::empty(),
        },
        edited: false,
        reactions: Seq::empty(),
    }
}

/// The stubs of the root events of `s[i..]`, in order.
pub open spec fn stubs_from(s: Seq<EventV>, i: int) -> Seq<MessageV>
    decreases s.len() - i,
{
    if i < 0 || i >= s.len() {
        Seq::empty()
    } else if is_root(s[i]) {
        seq![stub_of(s[i])] + stubs_from(s, i + 1)
    } else {
        stubs_from(s, i + 1)
    }
}

/// The modifier events of `s[i..]` (everything but roots), in order.
pub open spec fn mods_from(s: Seq<EventV>, i: int) -> Seq<EventV>
    decreases s.len() - i,
{
    if i < 0 || i >= s.len() {
        Seq::empty()
    } else if is_root(s[i]) {
        mods_from(s, i + 1)
    } else {
        seq![s[i]] + mods_from(s, i + 1)
    }
}

/// The index of the first message with id `t` at or after `i`, or -1.
pub open spec fn msg_idx_from(ms: Seq<MessageV>, t: Seq<char>, i: int) -> int
    decreases ms.len() - i,
{
    if i < 0 || i >= ms.len() {
        -1
    } else if ms[i].id == t {
        i
    } else {
        msg_idx_from(ms, t, i + 1)
    }
}

/// What the message search returns.
pub proof fn lemma_msg_idx_from(ms: Seq<MessageV>, t: Seq<char>, i: int)
    requires
        0 <= i <= ms.len(),
    ensures
        msg_idx_from(ms, t, i) == -1 ==> forall|k: int|
            i <= k < ms.len() ==> (#[trigger] ms[k]).id != t,
        msg_idx_from(ms, t, i) != -1 ==> {
            let j = msg_idx_from(ms, t, i);
            &&& i <= j < ms.len()
            &&& ms[j].id == t
            &&& forall|k: int| i <= k < j ==> (#[trigger] ms[k]).id != t
        },
    decreases ms.len() - i,
{
    if i < ms.len() && ms[i].id != t {
        lemma_msg_idx_from(ms, t, i + 1);
    }
}

/// An edit rewrites the body of the first message with the target id and
/// marks it edited; with no such message it is dropped.
pub open spec fn apply_edit(ms: Seq<MessageV>, t: Seq<char>, nb: Seq<char>) -> Seq<MessageV> {
    let i = msg_idx_from(ms, t, 0);
    if i == -1 {
        ms
    } else {
        ms.update(
            i,
            MessageV {
                id: ms[i].id,
                sender_id: ms[i].sender_id,
                sender: ms[i].sender,
                body: nb,
                edited: true,
                reactions: ms[i].reactions,
            },
        )
    }
}

/// An added reaction lands in the body's bucket on the first message with
/// the target id; with no such message it is dropped.
pub open spec fn apply_add(
    ms: Seq<MessageV>,
    t: Seq<char>,
    b: Seq<char>,
    sender: Seq<char>,
    eid: Seq<char>,
) -> Seq<MessageV> {
    let i = msg_idx_from(ms, t, 0);
    if i == -1 {
        ms
    } else {
        ms.update(
            i,
            MessageV {
                id: ms[i].id,
                sender_id: ms[i].sender_id,
                sender: ms[i].sender,
                body: ms[i].body,
                edited: ms[i].edited,
                reactions: add_to_buckets(
                    ms[i].reactions,
                    b,
                    ReactionEventV { sender_id: sender, id: eid },
                ),
            },
        )
    }
}

/// Removes the reaction event with id `eid` from every message's selected
/// buckets.
pub open spec fn strip_reaction(ms: Seq<MessageV>, bodyf: Option<Seq<char>>, eid: Seq<char>) -> Seq<
    MessageV,
> {
    Seq::new(
        ms.len(),
        |k: int|
            MessageV {
                id: ms[k].id,
                sender_id: ms[k].sender_id,
                sender: ms[k].sender,
                body: ms[k].body,
                edited: ms[k].edited,
                reactions: remove_event(ms[k].reactions, bodyf, eid),
            },
    )
}

/// A redaction of a root message removes the message; one of a reaction
/// event removes that single reaction wherever it sits.
pub open spec fn apply_redact(ms: Seq<MessageV>, t: Seq<char>) -> Seq<MessageV> {
    let i = msg_idx_from(ms, t, 0);
    if i == -1 {
        strip_reaction(ms, Option::None, t)
    } else {
        ms.remove(i)
    }
}

/// One modifier applied against the current message list.
pub open spec fn apply_one(ms: Seq<MessageV>, e: EventV) -> Seq<MessageV> {
    match e.kind {
        KindV::RootMessage { .. } => ms,
        KindV::Edit { target_id, new_body } => apply_edit(ms, target_id, new_body),
        KindV::Reaction { target_id, body, action } => match action {
            ReactionAction::Add => apply_add(ms, target_id, body, e.sender_id, e.id),
            ReactionAction::Remove => strip_reaction(ms, Option::Some(body), target_id),
        },
        KindV::Redaction { target_id } => apply_redact(ms, target_id),
        KindV::Membership { .. } => ms,
    }
}

/// All modifiers applied in order, first one first.
pub open spec fn apply_all(ms: Seq<MessageV>, mods: Seq<EventV>) -> Seq<MessageV>
    decreases mods.len(),
{
    if mods.len() == 0 {
        ms
    } else {
        apply_one(apply_all(ms, mods.drop_last()), mods.last())
    }
}

/// Every sender id replaced by its display string.
pub open spec fn resolve_senders(ms: Seq<MessageV>, members: Seq<MemberV>) -> Seq<MessageV> {
    Seq::new(
        ms.len(),
        |k: int|
            MessageV {
                id: ms[k].id,
                sender_id: ms[k].sender_id,
                sender: display_of(members, ms[k].sender_id),
                body: ms[k].body,
                edited: ms[k].edited,
                reactions: ms[k].reactions,
            },
    )
}

/// Whether the body of `rs[i]` already occurs strictly before `i`.
pub open spec fn body_seen(rs: Seq<ReactionV>, i: int) -> bool {
    exists|j: int| 0 <= j < i && (#[trigger] rs[j]).body == rs[i].body
}

/// The events of every bucket with body `b` at or after `i`, concatenated
/// in bucket order.
pub open spec fn collect_events_from(rs: Seq<ReactionV>, b: Seq<char>, i: int) -> Seq<
    ReactionEventV,
>
    decreases rs.len() - i,
{
    if i < 0 || i >= rs.len() {
        Seq::empty()
    } else if rs[i].body == b {
        rs[i].events + collect_events_from(rs, b, i + 1)
    } else {
        collect_events_from(rs, b, i + 1)
    }
}

/// The merged bucket list from position `i` on: one bucket per distinct
/// body, in order of first occurrence, events concatenated.
pub open spec fn merge_from(rs: Seq<ReactionV>, i: int) -> Seq<ReactionV>
    decreases rs.len() - i,
{
    if i < 0 || i >= rs.len() {
        Seq::empty()
    } else if body_seen(rs, i) {
        merge_from(rs, i + 1)
    } else {
        seq![ReactionV { body: rs[i].body, events: collect_events_from(rs, rs[i].body, i) }]
            + merge_from(rs, i + 1)
    }
}

/// The defensive re-merge of duplicate-body buckets.
pub open spec fn merge_buckets(rs: Seq<ReactionV>) -> Seq<ReactionV> {
    merge_from(rs, 0)
}

/// Every message's buckets merged.
pub open spec fn merge_all(ms: Seq<MessageV>) -> Seq<MessageV> {
    Seq::new(
        ms.len(),
        |k: int|
            MessageV {
                id: ms[k].id,
                sender_id: ms[k].sender_id,
                sender: ms[k].sender,
                body: ms[k].body,
                edited: ms[k].edited,
                reactions: merge_buckets(ms[k].reactions),
            },
    )
}

/// A sequence reversed.
pub open spec fn rev<A>(s: Seq<A>) -> Seq<A> {
    Seq::new(s.len(), |k: int| s[s.len() - 1 - k])
}

/// The whole assembly: stubs, modifiers in order, sender resolution,
/// bucket merge, newest first.
pub open spec fn assemble(events: Seq<EventV>, members: Seq<MemberV>) -> Seq<MessageV> {
    rev(
        merge_all(
            resolve_senders(apply_all(stubs_from(events, 0), mods_from(events, 0)), members),
        ),
    )
}

// ---------------------------------------------------------------------------
// Executable layer
// ---------------------------------------------------------------------------

/// The spec value of an optional borrowed body filter.
pub open spec fn opt_view(o: Option<&String>) -> Option<Seq<char>> {
    match o {
        Option::Some(s) => Option::Some(s@),
        Option::None => Option::None,
    }
}

/// Search from `j` lands on `i` when nothing in `[j, i)` matches.
proof fn lemma_msg_idx_prefix(ms: Seq<MessageV>, t: Seq<char>, j: int, i: int)
    requires
        0 <= j <= i < ms.len(),
        ms[i].id == t,
        forall|k: int| j <= k < i ==> (#[trigger] ms[k]).id != t,
    ensures
        msg_idx_from(ms, t, j) == i,
    decreases i - j,
{
    if j < i {
        lemma_msg_idx_prefix(ms, t, j + 1, i);
    }
}

/// Search from `j` finds nothing when nothing from `j` on matches.
proof fn lemma_msg_idx_none(ms: Seq<MessageV>, t: Seq<char>, j: int)
    requires
        0 <= j <= ms.len(),
        forall|k: int| j <= k < ms.len() ==> (#[trigger] ms[k]).id != t,
    ensures
        msg_idx_from(ms, t, j) == -1,
    decreases ms.len() - j,
{
    if j < ms.len() {
        lemma_msg_idx_none(ms, t, j + 1);
    }
}

/// Bucket search from `j` lands on `i` when nothing in `[j, i)` matches.
pub(crate) proof fn lemma_bucket_idx_prefix(rs: Seq<ReactionV>, b: Seq<char>, j: int, i: int)
    requires
        0 <= j <= i < rs.len(),
        rs[i].body == b,
        forall|k: int| j <= k < i ==> (#[trigger] rs[k]).body != b,
    ensures
        bucket_idx_from(rs, b, j) == i,
    decreases i - j,
{
    if j < i {
        lemma_bucket_idx_prefix(rs, b, j + 1, i);
    }
}

/// Bucket search from `j` finds nothing when nothing from `j` on matches.
pub(crate) proof fn lemma_bucket_idx_none(rs: Seq<ReactionV>, b: Seq<char>, j: int)
    requires
        0 <= j <= rs.len(),
        forall|k: int| j <= k < rs.len() ==> (#[trigger] rs[k]).body != b,
    ensures
        bucket_idx_from(rs, b, j) == -1,
    decreases rs.len() - j,
{
    if j < rs.len() {
        lemma_bucket_idx_none(rs, b, j + 1);
    }
}

/// The message stub for a root event.
fn root_stub(e: &RawEvent) -> (m: Message)
    requires
        e@.kind is RootMessage,
    ensures
        m@ == stub_of(e@),
{
    match &e.kind {
        crate::event::EventKind::RootMessage { body, .. } => Message {
            id: e.id.clone(),
            sender_id: e.sender_id.clone(),
            sender: e.sender_id.clone(),
            body: body.clone(),
            edited: false,
            reactions: Vec::new(),
        },
        _ => {
            proof {
                assert(false);
            }
            Message {
                id: String::new(),
                sender_id: String::new(),
                sender: String::new(),
                body: String::new(),
                edited: false,
                reactions: Vec::new(),
            }
        },
    }
}

/// Splits the ordered history into root-message stubs and modifiers.
fn split_events(events: &Vec<RawEvent>) -> (r: (Vec<Message>, Vec<RawEvent>))
    ensures
        r.0.deep_view() == stubs_from(events.deep_view(), 0),
        r.1.deep_view() == mods_from(events.deep_view(), 0),
{
    let ghost ev = events.deep_view();
    let mut stubs: Vec<Message> = Vec::new();
    let mut mods: Vec<RawEvent> = Vec::new();
    let n = events.len();
    let mut i: usize = 0;
    proof {
        assert(stubs.deep_view() =~= Seq::<MessageV>::empty());
        assert(mods.deep_view() =~= Seq::<EventV>::empty());
        assert(Seq::<MessageV>::empty() + stubs_from(ev, 0) =~= stubs_from(ev, 0));
        assert(Seq::<EventV>::empty() + mods_from(ev, 0) =~= mods_from(ev, 0));
    }
    while i < n
        invariant
            n == ev.len(),
            i <= n,
            ev == events.deep_view(),
            stubs.deep_view() + stubs_from(ev, i as int) == stubs_from(ev, 0),
            mods.deep_view() + mods_from(ev, i as int) == mods_from(ev, 0),
        decreases n - i,
    {
        let ghost sd = stubs.deep_view();
        let ghost md = mods.deep_view();
        let e = &events[i];
        let is_root_ev = match &e.kind {
            crate::event::EventKind::RootMessage { .. } => true,
            _ => false,
        };
        if is_root_ev {
            let m = root_stub(e);
            stubs.push(m);
            proof {
                assert(stubs.deep_view() =~= sd.push(stub_of(ev[i as int])));
                assert(stubs_from(ev, i as int) == seq![stub_of(ev[i as int])] + stubs_from(
                    ev,
                    i as int + 1,
                ));
                assert(sd.push(stub_of(ev[i as int])) + stubs_from(ev, i as int + 1) =~= sd + (
                seq![stub_of(ev[i as int])] + stubs_from(ev, i as int + 1)));
            }
        } else {
            mods.push(e.clone());
            proof {
                assert(mods.deep_view() =~= md.push(ev[i as int]));
                assert(mods_from(ev, i as int) == seq![ev[i as int]] + mods_from(
                    ev,
                    i as int + 1,
                ));
                assert(md.push(ev[i as int]) + mods_from(ev, i as int + 1) =~= md + (seq![
                    ev[i as int],
                ] + mods_from(ev, i as int + 1)));
            }
        }
        i = i + 1;
    }
    proof {
        assert(stubs_from(ev, n as int) =~= Seq::<MessageV>::empty());
        assert(mods_from(ev, n as int) =~= Seq::<EventV>::empty());
        assert(stubs.deep_view() + Seq::<MessageV>::empty() =~= stubs.deep_view());
        assert(mods.deep_view() + Seq::<EventV>::empty() =~= mods.deep_view());
    }
    (stubs, mods)
}

/// The index of the first message with the target id, when one exists.
fn find_message(msgs: &Vec<Message>, t: &String) -> (r: Option<usize>)
    ensures
        match r {
            Option::Some(i) => i < msgs.deep_view().len() && msg_idx_from(
                msgs.deep_view(),
                t@,
                0,
            ) == i as int,
            Option::None => msg_idx_from(msgs.deep_view(), t@, 0) == -1,
        },
{
    let ghost dv = msgs.deep_view();
    let n = msgs.len();
    let mut i: usize = 0;
    while i < n
        invariant
            n == dv.len(),
            i <= n,
            dv == msgs.deep_view(),
            forall|k: int| 0 <= k < i ==> (#[trigger] dv[k]).id != t@,
        decreases n - i,
    {
        if msgs[i].id == *t {
            proof {
                lemma_msg_idx_prefix(dv, t@, 0, i as int);
            }
            return Option::Some(i);
        }
        i = i + 1;
    }
    proof {
        lemma_msg_idx_none(dv, t@, 0);
    }
    Option::None
}

/// The events of one bucket without those carrying the retracted id.
fn filter_bucket(r: &Reaction, eid: &String) -> (out: Vec<ReactionEvent>)
    ensures
        out.deep_view() == filter_events(r@.events, eid@),
{
    let ghost evs = r@.events;
    let mut out: Vec<ReactionEvent> = Vec::new();
    let n = r.events.len();
    let mut i: usize = 0;
    proof {
        assert(evs.skip(0) =~= evs);
        assert(out.deep_view() =~= Seq::<ReactionEventV>::empty());
        assert(Seq::<ReactionEventV>::empty() + filter_events(evs, eid@) =~= filter_events(
            evs,
            eid@,
        ));
    }
    while i < n
        invariant
            n == evs.len(),
            i <= n,
            evs == r@.events,
            out.deep_view() + filter_events(evs.skip(i as int), eid@) == filter_events(evs, eid@),
        decreases n - i,
    {
        proof {
            assert(evs.skip(i as int)[0] == evs[i as int]);
            assert(evs.skip(i as int).drop_first() =~= evs.skip(i as int + 1));
        }
        if !(r.events[i].id == *eid) {
            let ghost od = out.deep_view();
            out.push(r.events[i].clone());
            proof {
                assert(out.deep_view() =~= od.push(evs[i as int]));
                assert(od.push(evs[i as int]) + filter_events(evs.skip(i as int + 1), eid@) =~= od
                    + (seq![evs[i as int]] + filter_events(evs.skip(i as int + 1), eid@)));
            }
        }
        i = i + 1;
    }
    proof {
        assert(evs.skip(n as int) =~= Seq::<ReactionEventV>::empty());
        assert(filter_events(Seq::<ReactionEventV>::empty(), eid@)
            =~= Seq::<ReactionEventV>::empty());
        assert(out.deep_view() + Seq::<ReactionEventV>::empty() =~= out.deep_view());
    }
    out
}

/// The bucket list with the retracted reaction event removed from every
/// selected bucket.
fn strip_buckets(rs: &Vec<Reaction>, bodyf: Option<&String>, eid: &String) -> (out: Vec<Reaction>)
    ensures
        out.deep_view() == remove_event(rs.deep_view(), opt_view(bodyf), eid@),
{
    let ghost rv = rs.deep_view();
    let ghost bf = opt_view(bodyf);
    let mut out: Vec<Reaction> = Vec::new();
    let n = rs.len();
    let mut i: usize = 0;
    proof {
        assert(rv.skip(0) =~= rv);
        assert(out.deep_view() =~= Seq::<ReactionV>::empty());
        assert(Seq::<ReactionV>::empty() + remove_event(rv, bf, eid@) =~= remove_event(
            rv,
            bf,
            eid@,
        ));
    }
    while i < n
        invariant
            n == rv.len(),
            i <= n,
            rv == rs.deep_view(),
            bf == opt_view(bodyf),
            out.deep_view() + remove_event(rv.skip(i as int), bf, eid@) == remove_event(
                rv,
                bf,
                eid@,
            ),
        decreases n - i,
    {
        proof {
            assert(rv.skip(i as int)[0] == rv[i as int]);
            assert(rv.skip(i as int).drop_first() =~= rv.skip(i as int + 1));
        }
        let r = &rs[i];
        let selected = match bodyf {
            Option::Some(bb) => *bb == r.body,
            Option::None => true,
        };
        assert(selected == body_selected(bf, rv[i as int].body));
        let ghost od = out.deep_view();
        if selected {
            let kept = filter_bucket(r, eid);
            if kept.len() > 0 {
                let ghost kd = kept.deep_view();
                out.push(Reaction { body: r.body.clone(), events: kept });
                proof {
                    assert(out.deep_view() =~= od.push(
                        ReactionV { body: rv[i as int].body, events: kd },
                    ));
                    assert(od.push(ReactionV { body: rv[i as int].body, events: kd })
                        + remove_event(rv.skip(i as int + 1), bf, eid@) =~= od + (seq![
                        ReactionV { body: rv[i as int].body, events: kd },
                    ] + remove_event(rv.skip(i as int + 1), bf, eid@)));
                }
            }
        } else {
            out.push(r.clone());
            proof {
                assert(out.deep_view() =~= od.push(rv[i as int]));
                assert(od.push(rv[i as int]) + remove_event(rv.skip(i as int + 1), bf, eid@) =~= od
                    + (seq![rv[i as int]] + remove_event(rv.skip(i as int + 1), bf, eid@)));
            }
        }
        i = i + 1;
    }
    proof {
        assert(rv.skip(n as int) =~= Seq::<ReactionV>::empty());
        assert(remove_event(Seq::<ReactionV>::empty(), bf, eid@) =~= Seq::<ReactionV>::empty());
        assert(out.deep_view() + Seq::<ReactionV>::empty() =~= out.deep_view());
    }
    out
}

/// Appends a reaction event to the bucket keyed by `b`, creating the
/// bucket when absent.
fn add_bucket(rs: &mut Vec<Reaction>, b: &String, ev: ReactionEvent)
    ensures
        final(rs).deep_view() == add_to_buckets(old(rs).deep_view(), b@, ev@),
{
    let ghost rv = rs.deep_view();
    let n = rs.len();
    let mut i: usize = 0;
    while i < n
        invariant
            n == rv.len(),
            i <= n,
            *rs == *old(rs),
            rv == rs.deep_view(),
            forall|k: int| 0 <= k < i ==> (#[trigger] rv[k]).body != b@,
        decreases n - i,
    {
        if rs[i].body == *b {
            proof {
                lemma_bucket_idx_prefix(rv, b@, 0, i as int);
            }
            let mut r = rs.remove(i);
            r.events.push(ev);
            rs.insert(i, r);
            proof {
                assert(rs.deep_view() =~~= rv.update(
                    i as int,
                    ReactionV { body: b@, events: rv[i as int].events.push(ev@) },
                ));
            }
            return ;
        }
        i = i + 1;
    }
    proof {
        lemma_bucket_idx_none(rv, b@, 0);
    }
    let mut events: Vec<ReactionEvent> = Vec::new();
    events.push(ev);
    rs.push(Reaction { body: b.clone(), events });
    proof {
        assert(rs.deep_view() =~~= rv.push(ReactionV { body: b@, events: seq![ev@] }));
    }
}

/// Removes the retracted reaction event from every message.
fn strip_all_messages(msgs: &mut Vec<Message>, bodyf: Option<&String>, eid: &String)
    ensures
        final(msgs).deep_view() == strip_reaction(old(msgs).deep_view(), opt_view(bodyf), eid@),
{
    let ghost dv = msgs.deep_view();
    let ghost bf = opt_view(bodyf);
    let n = msgs.len();
    let mut k: usize = 0;
    while k < n
        invariant
            n == dv.len(),
            k <= n,
            bf == opt_view(bodyf),
            dv == old(msgs).deep_view(),
            msgs@.len() == n,
            forall|j: int| 0 <= j < k ==> msgs.deep_view()[j] == strip_reaction(dv, bf, eid@)[j],
            forall|j: int| k <= j < n ==> msgs.deep_view()[j] == dv[j],
        decreases n - k,
    {
        let ghost cv = msgs@;
        let ghost cur = msgs.deep_view();
        let mut m = msgs.remove(k);
        let ghost mv0 = m.deep_view();
        proof {
            assert(mv0 == cur[k as int]);
            assert(cur[k as int] == dv[k as int]);
        }
        let stripped = strip_buckets(&m.reactions, bodyf, eid);
        m.reactions = stripped;
        msgs.insert(k, m);
        proof {
            assert(msgs@ =~= cv.update(k as int, m));
            assert(m.deep_view() =~= MessageV {
                id: mv0.id,
                sender_id: mv0.sender_id,
                sender: mv0.sender,
                body: mv0.body,
                edited: mv0.edited,
                reactions: remove_event(mv0.reactions, bf, eid@),
            });
            assert(m.deep_view() == strip_reaction(dv, bf, eid@)[k as int]);
            assert forall|j: int| 0 <= j < k + 1 implies #[trigger] msgs.deep_view()[j]
                == strip_reaction(dv, bf, eid@)[j] by {
                if j < k {
                    assert(msgs@[j] == cv[j]);
                    assert(msgs.deep_view()[j] == cur[j]);
                } else {
                    assert(msgs@[j] == m);
                }
            }
            assert forall|j: int| k + 1 <= j < n implies #[trigger] msgs.deep_view()[j]
                == dv[j] by {
                assert(msgs@[j] == cv[j]);
                assert(msgs.deep_view()[j] == cur[j]);
            }
        }
        k = k + 1;
    }
    proof {
        assert(msgs.deep_view() =~= strip_reaction(dv, bf, eid@));
    }
}


/// Applies one modifier event against the message list.
fn apply_modifier(msgs: &mut Vec<Message>, e: &RawEvent)
    ensures
        final(msgs).deep_view() == apply_one(old(msgs).deep_view(), e@),
{
    let ghost dv = msgs.deep_view();
    match &e.kind {
        crate::event::EventKind::RootMessage { .. } => {},
        crate::event::EventKind::Membership { .. } => {},
        crate::event::EventKind::Edit { target_id, new_body } => {
            if let Option::Some(i) = find_message(msgs, target_id) {
                let ghost cv = msgs@;
                let mut m = msgs.remove(i);
                let ghost mv0 = m.deep_view();
                m.body = new_body.clone();
                m.edited = true;
                msgs.insert(i, m);
                proof {
                    assert(msgs@ =~= cv.update(i as int, m));
                    assert(m.deep_view() =~= MessageV {
                        id: mv0.id,
                        sender_id: mv0.sender_id,
                        sender: mv0.sender,
                        body: new_body@,
                        edited: true,
                        reactions: mv0.reactions,
                    });
                    assert(msgs.deep_view() =~= apply_edit(dv, target_id@, new_body@));
                }
            }
        },
        crate::event::EventKind::Reaction { target_id, body, action } => {
            match action {
                crate::event::ReactionAction::Add => {
                    if let Option::Some(i) = find_message(msgs, target_id) {
                        let ghost cv = msgs@;
                        let mut m = msgs.remove(i);
                        let ghost mv0 = m.deep_view();
                        let ev = ReactionEvent {
                            sender_id: e.sender_id.clone(),
                            id: e.id.clone(),
                        };
                        add_bucket(&mut m.reactions, body, ev);
                        msgs.insert(i, m);
                        proof {
                            assert(msgs@ =~= cv.update(i as int, m));
                            assert(m.deep_view() =~= MessageV {
                                id: mv0.id,
                                sender_id: mv0.sender_id,
                                sender: mv0.sender,
                                body: mv0.body,
                                edited: mv0.edited,
                                reactions: add_to_buckets(
                                    mv0.reactions,
                                    body@,
                                    ReactionEventV { sender_id: e@.sender_id, id: e@.id },
                                ),
                            });
                            assert(msgs.deep_view() =~= apply_add(
                                dv,
                                target_id@,
                                body@,
                                e@.sender_id,
                                e@.id,
                            ));
                        }
                    }
                },
                crate::event::ReactionAction::Remove => {
                    strip_all_messages(msgs, Option::Some(body), target_id);
                },
            }
        },
        crate::event::EventKind::Redaction { target_id } => {
            if let Option::Some(i) = find_message(msgs, target_id) {
                msgs.remove(i);
                proof {
                    assert(msgs.deep_view() =~= apply_redact(dv, target_id@));
                }
            } else {
                strip_all_messages(msgs, Option::None, target_id);
            }
        },
    }
}

/// The display string for a sender id against the known members.
fn display_for(members: &Vec<Member>, uid: &String) -> (r: String)
    ensures
        r@ == display_of(members.deep_view(), uid@),
{
    let ghost mv = members.deep_view();
    let n = members.len();
    let mut i: usize = 0;
    while i < n
        invariant
            n == mv.len(),
            i <= n,
            mv == members.deep_view(),
            forall|k: int| 0 <= k < i ==> (#[trigger] mv[k]).user_id != uid@,
        decreases n - i,
    {
        if members[i].user_id == *uid {
            proof {
                crate::member::lemma_member_idx_prefix(mv, uid@, 0, i as int);
            }
            match &members[i].display_name {
                Option::Some(n) => {
                    return n.clone();
                },
                Option::None => {
                    return uid.clone();
                },
            }
        }
        i = i + 1;
    }
    proof {
        lemma_member_idx_none_here(mv, uid@, 0);
    }
    uid.clone()
}

/// Member search from `j` finds nothing when nothing from `j` on matches.
proof fn lemma_member_idx_none_here(ms: Seq<MemberV>, uid: Seq<char>, j: int)
    requires
        0 <= j <= ms.len(),
        forall|k: int| j <= k < ms.len() ==> (#[trigger] ms[k]).user_id != uid,
    ensures
        crate::member::member_idx_from(ms, uid, j) == -1,
    decreases ms.len() - j,
{
    if j < ms.len() {
        lemma_member_idx_none_here(ms, uid, j + 1);
    }
}

/// Resolves every message's sender against the known members.
fn resolve_all_messages(msgs: &mut Vec<Message>, members: &Vec<Member>)
    ensures
        final(msgs).deep_view() == resolve_senders(old(msgs).deep_view(), members.deep_view()),
{
    let ghost dv = msgs.deep_view();
    let ghost mv = members.deep_view();
    let n = msgs.len();
    let mut k: usize = 0;
    while k < n
        invariant
            n == dv.len(),
            k <= n,
            mv == members.deep_view(),
            dv == old(msgs).deep_view(),
            msgs@.len() == n,
            forall|j: int| 0 <= j < k ==> msgs.deep_view()[j] == resolve_senders(dv, mv)[j],
            forall|j: int| k <= j < n ==> msgs.deep_view()[j] == dv[j],
        decreases n - k,
    {
        let ghost cv = msgs@;
        let ghost cur = msgs.deep_view();
        let mut m = msgs.remove(k);
        let ghost mv0 = m.deep_view();
        proof {
            assert(mv0 == cur[k as int]);
            assert(cur[k as int] == dv[k as int]);
        }
        let d = display_for(members, &m.sender_id);
        m.sender = d;
        msgs.insert(k, m);
        proof {
            assert(msgs@ =~= cv.update(k as int, m));
            assert(m.deep_view() =~= MessageV {
                id: mv0.id,
                sender_id: mv0.sender_id,
                sender: display_of(mv, mv0.sender_id),
                body: mv0.body,
                edited: mv0.edited,
                reactions: mv0.reactions,
            });
            assert(m.deep_view() == resolve_senders(dv, mv)[k as int]);
            assert forall|j: int| 0 <= j < k + 1 implies #[trigger] msgs.deep_view()[j]
                == resolve_senders(dv, mv)[j] by {
                if j < k {
                    assert(msgs@[j] == cv[j]);
                    assert(msgs.deep_view()[j] == cur[j]);
                } else {
                    assert(msgs@[j] == m);
                }
            }
            assert forall|j: int| k + 1 <= j < n implies #[trigger] msgs.deep_view()[j]
                == dv[j] by {
                assert(msgs@[j] == cv[j]);
                assert(msgs.deep_view()[j] == cur[j]);
            }
        }
        k = k + 1;
    }
    proof {
        assert(msgs.deep_view() =~= resolve_senders(dv, mv));
    }
}

/// The events of every bucket with the given body from `start` on,
/// concatenated in bucket order.
fn collect_body_events(rs: &Vec<Reaction>, b: &String, start: usize) -> (out: Vec<ReactionEvent>)
    requires
        start <= rs@.len(),
    ensures
        out.deep_view() == collect_events_from(rs.deep_view(), b@, start as int),
{
    let ghost rv = rs.deep_view();
    let mut out: Vec<ReactionEvent> = Vec::new();
    let n = rs.len();
    let mut j: usize = start;
    proof {
        assert(out.deep_view() =~= Seq::<ReactionEventV>::empty());
        assert(Seq::<ReactionEventV>::empty() + collect_events_from(rv, b@, start as int)
            =~= collect_events_from(rv, b@, start as int));
    }
    while j < n
        invariant
            n == rv.len(),
            start <= j <= n,
            rv == rs.deep_view(),
            out.deep_view() + collect_events_from(rv, b@, j as int) == collect_events_from(
                rv,
                b@,
                start as int,
            ),
        decreases n - j,
    {
        if rs[j].body == *b {
            let ghost od = out.deep_view();
            let bucket = &rs[j];
            let bn = bucket.events.len();
            let mut x: usize = 0;
            while x < bn
                invariant
                    bn == rv[j as int].events.len(),
                    x <= bn,
                    j < n,
                    n == rv.len(),
                    rv == rs.deep_view(),
                    bucket == &rs[j as int],
                    out.deep_view() =~= od + rv[j as int].events.take(x as int),
                decreases bn - x,
            {
                let ghost od2 = out.deep_view();
                out.push(bucket.events[x].clone());
                proof {
                    assert(bucket.events@[x as int].deep_view() == rv[j as int].events[x as int]);
                    assert(out.deep_view() =~= od2.push(rv[j as int].events[x as int]));
                    assert(od2.push(rv[j as int].events[x as int]) =~= od + rv[
                        j as int
                    ].events.take(x as int + 1)) by {
                        assert(rv[j as int].events.take(x as int + 1) =~= rv[
                            j as int
                        ].events.take(x as int).push(rv[j as int].events[x as int]));
                    }
                }
                x = x + 1;
            }
            proof {
                assert(rv[j as int].events.take(bn as int) =~= rv[j as int].events);
                assert(collect_events_from(rv, b@, j as int) == rv[j as int].events
                    + collect_events_from(rv, b@, j as int + 1));
                assert((od + rv[j as int].events) + collect_events_from(rv, b@, j as int + 1)
                    =~= od + (rv[j as int].events + collect_events_from(rv, b@, j as int + 1)));
            }
        }
        j = j + 1;
    }
    proof {
        assert(collect_events_from(rv, b@, n as int) =~= Seq::<ReactionEventV>::empty());
        assert(out.deep_view() + Seq::<ReactionEventV>::empty() =~= out.deep_view());
    }
    out
}

/// Merges duplicate-body buckets: one bucket per distinct body, in order
/// of first occurrence, events concatenated.
fn merge_buckets_list(rs: &Vec<Reaction>) -> (out: Vec<Reaction>)
    ensures
        out.deep_view() == merge_buckets(rs.deep_view()),
{
    let ghost rv = rs.deep_view();
    let mut out: Vec<Reaction> = Vec::new();
    let n = rs.len();
    let mut i: usize = 0;
    proof {
        assert(out.deep_view() =~= Seq::<ReactionV>::empty());
        assert(Seq::<ReactionV>::empty() + merge_from(rv, 0) =~= merge_from(rv, 0));
    }
    while i < n
        invariant
            n == rv.len(),
            i <= n,
            rv == rs.deep_view(),
            out.deep_view() + merge_from(rv, i as int) == merge_from(rv, 0),
        decreases n - i,
    {
        let mut seen = false;
        let mut j: usize = 0;
        while j < i
            invariant
                j <= i,
                i < n,
                n == rv.len(),
                rv == rs.deep_view(),
                seen == exists|j2: int| 0 <= j2 < j && (#[trigger] rv[j2]).body == rv[i as int].body,
            decreases i - j,
        {
            if rs[j].body == rs[i].body {
                proof {
                    assert(rv[j as int].body == rv[i as int].body);
                }
                seen = true;
            }
            j = j + 1;
        }
        assert(seen == body_seen(rv, i as int));
        if !seen {
            let ghost od = out.deep_view();
            let evs = collect_body_events(rs, &rs[i].body, i);
            out.push(Reaction { body: rs[i].body.clone(), events: evs });
            proof {
                assert(out.deep_view() =~~= od.push(
                    ReactionV {
                        body: rv[i as int].body,
                        events: collect_events_from(rv, rv[i as int].body, i as int),
                    },
                ));
                assert(merge_from(rv, i as int) == seq![
                    ReactionV {
                        body: rv[i as int].body,
                        events: collect_events_from(rv, rv[i as int].body, i as int),
                    },
                ] + merge_from(rv, i as int + 1));
                assert(od.push(
                    ReactionV {
                        body: rv[i as int].body,
                        events: collect_events_from(rv, rv[i as int].body, i as int),
                    },
                ) + merge_from(rv, i as int + 1) =~= od + (seq![
                    ReactionV {
                        body: rv[i as int].body,
                        events: collect_events_from(rv, rv[i as int].body, i as int),
                    },
                ] + merge_from(rv, i as int + 1)));
            }
        }
        i = i + 1;
    }
    proof {
        assert(merge_from(rv, n as int) =~= Seq::<ReactionV>::empty());
        assert(out.deep_view() + Seq::<ReactionV>::empty() =~= out.deep_view());
    }
    out
}

/// Merges every message's buckets.
fn merge_all_messages(msgs: &mut Vec<Message>)
    ensures
        final(msgs).deep_view() == merge_all(old(msgs).deep_view()),
{
    let ghost dv = msgs.deep_view();
    let n = msgs.len();
    let mut k: usize = 0;
    while k < n
        invariant
            n == dv.len(),
            k <= n,
            dv == old(msgs).deep_view(),
            msgs@.len() == n,
            forall|j: int| 0 <= j < k ==> msgs.deep_view()[j] == merge_all(dv)[j],
            forall|j: int| k <= j < n ==> msgs.deep_view()[j] == dv[j],
        decreases n - k,
    {
        let ghost cv = msgs@;
        let ghost cur = msgs.deep_view();
        let mut m = msgs.remove(k);
        let ghost mv0 = m.deep_view();
        proof {
            assert(mv0 == cur[k as int]);
            assert(cur[k as int] == dv[k as int]);
        }
        let merged = merge_buckets_list(&m.reactions);
        m.reactions = merged;
        msgs.insert(k, m);
        proof {
            assert(msgs@ =~= cv.update(k as int, m));
            assert(m.deep_view() =~= MessageV {
                id: mv0.id,
                sender_id: mv0.sender_id,
                sender: mv0.sender,
                body: mv0.body,
                edited: mv0.edited,
                reactions: merge_buckets(mv0.reactions),
            });
            assert(m.deep_view() == merge_all(dv)[k as int]);
            assert forall|j: int| 0 <= j < k + 1 implies #[trigger] msgs.deep_view()[j]
                == merge_all(dv)[j] by {
                if j < k {
                    assert(msgs@[j] == cv[j]);
                    assert(msgs.deep_view()[j] == cur[j]);
                } else {
                    assert(msgs@[j] == m);
                }
            }
            assert forall|j: int| k + 1 <= j < n implies #[trigger] msgs.deep_view()[j]
                == dv[j] by {
                assert(msgs@[j] == cv[j]);
                assert(msgs.deep_view()[j] == cur[j]);
            }
        }
        k = k + 1;
    }
    proof {
        assert(msgs.deep_view() =~= merge_all(dv));
    }
}

/// The list reversed, newest message first.
fn reversed(v: Vec<Message>) -> (out: Vec<Message>)
    ensures
        out.deep_view() == rev(v.deep_view()),
{
    let ghost dv = v.deep_view();
    let mut v = v;
    let mut out: Vec<Message> = Vec::new();
    proof {
        assert(v.deep_view() =~= dv.take(v@.len() as int));
    }
    while v.len() > 0
        invariant
            v@.len() + out@.len() == dv.len(),
            v.deep_view() == dv.take(v@.len() as int),
            forall|k: int|
                0 <= k < out@.len() ==> #[trigger] out.deep_view()[k] == dv[dv.len() - 1 - k],
        decreases v.len(),
    {
        let ghost l = v@.len() as int;
        let m = match v.pop() {
            Option::Some(m) => m,
            Option::None => {
                proof {
                    assert(false);
                }
                return out;
            },
        };
        proof {
            assert(m.deep_view() == dv.take(l)[l - 1]);
            assert(v.deep_view() =~= dv.take(l - 1)) by {
                assert(v.deep_view() =~= dv.take(l).drop_last());
            }
        }
        let ghost ov = out@;
        let ghost odv = out.deep_view();
        let ghost ol = out@.len() as int;
        out.push(m);
        proof {
            assert(out@ == ov.push(m));
            assert forall|k: int| 0 <= k < out@.len() implies #[trigger] out.deep_view()[k] == dv[
                dv.len() - 1 - k
            ] by {
                if k < ol {
                    assert(out@[k] == ov[k]);
                    assert(out.deep_view()[k] == odv[k]);
                } else {
                    assert(out@[k] == m);
                    assert(out.deep_view()[k] == m.deep_view());
                }
            }
        }
    }
    proof {
        assert(out.deep_view() =~= rev(dv));
    }
    out
}

/// Rebuilds the display-ready message list from the ordered event history
/// and the known members: newest message first, bodies after edits,
/// reactions merged into per-body buckets, senders resolved to display
/// names where known.
pub fn make_message_list(events: &Vec<RawEvent>, members: &Vec<Member>) -> (out: Vec<Message>)
    ensures
        out.deep_view() == assemble(events.deep_view(), members.deep_view()),
{
    let ghost ev = events.deep_view();
    let ghost mv = members.deep_view();
    let (mut msgs, mods) = split_events(events);
    let ghost stubs0 = msgs.deep_view();
    let ghost modv = mods.deep_view();
    let n = mods.len();
    let mut i: usize = 0;
    proof {
        assert(modv.take(0) =~= Seq::<EventV>::empty());
    }
    while i < n
        invariant
            n == modv.len(),
            i <= n,
            modv == mods.deep_view(),
            msgs.deep_view() == apply_all(stubs0, modv.take(i as int)),
        decreases n - i,
    {
        apply_modifier(&mut msgs, &mods[i]);
        proof {
            assert(modv.take(i as int + 1).drop_last() =~= modv.take(i as int));
            assert(modv.take(i as int + 1).last() == modv[i as int]);
        }
        i = i + 1;
    }
    proof {
        assert(modv.take(n as int) =~= modv);
    }
    resolve_all_messages(&mut msgs, members);
    merge_all_messages(&mut msgs);
    let out = reversed(msgs);
    out
}

} // verus!
