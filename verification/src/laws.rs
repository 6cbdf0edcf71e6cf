//! The engine's cross-cutting laws.
//!
//! Each proof function here states a property that relates several
//! operations: what two ingestions of the same event yield, how arrival
//! order affects the assembled view, which edit determines a message's
//! displayed body, and what a reaction's addition and retraction leave
//! behind.

use vstd::prelude::*;

use crate::assemble::{
    apply_all, apply_one, assemble, lemma_msg_idx_from, merge_all, mods_from, msg_idx_from,
    resolve_senders, rev, stub_of, stubs_from,
};
use crate::event::{ev_lt, is_root, EventV, KindV};
use crate::member::MemberV;
use crate::message::MessageV;
use crate::store::{
    contains_id, lemma_store_canonical, lemma_store_insert_idempotent, lemma_store_insert_props,
    store_insert, store_insert_all, store_wf,
};

verus! {

/// Dedup idempotence: ingesting an event whose id the store already
/// holds changes nothing, so ingesting the same event twice assembles
/// exactly the list that one ingestion assembles.
pub proof fn lemma_dedup_idempotent(s: Seq<EventV>, e: EventV, members: Seq<MemberV>)
    ensures
        assemble(store_insert(store_insert(s, e), e), members) == assemble(
            store_insert(s, e),
            members,
        ),
{
    lemma_store_insert_idempotent(s, e);
}

/// Order independence: two well-formed stores holding the same events
/// are identical, whatever order the events arrived in, so they assemble
/// to the same message list.
pub proof fn lemma_order_independence(s1: Seq<EventV>, s2: Seq<EventV>, members: Seq<MemberV>)
    requires
        store_wf(s1),
        store_wf(s2),
        forall|x: EventV| s1.contains(x) == s2.contains(x),
    ensures
        assemble(s1, members) == assemble(s2, members),
{
    lemma_store_canonical(s1, s2);
}

/// Pairwise distinct event ids in a batch.
pub open spec fn distinct_ids(batch: Seq<EventV>) -> bool {
    forall|i: int, j: int|
        0 <= i < j < batch.len() ==> (#[trigger] batch[i]).id != (#[trigger] batch[j]).id
}

/// Ingesting a batch of fresh, pairwise distinct ids adds exactly the
/// batch's events.
proof fn lemma_insert_all_contains(s: Seq<EventV>, batch: Seq<EventV>)
    requires
        store_wf(s),
        distinct_ids(batch),
        forall|k: int| 0 <= k < batch.len() ==> !contains_id(s, (#[trigger] batch[k]).id),
    ensures
        store_wf(store_insert_all(s, batch)),
        forall|x: EventV|
            #[trigger] store_insert_all(s, batch).contains(x) <==> (s.contains(x)
                || batch.contains(x)),
    decreases batch.len(),
{
    if batch.len() == 0 {
        assert forall|x: EventV|
            #[trigger] store_insert_all(s, batch).contains(x) <==> (s.contains(x)
                || batch.contains(x)) by {
            if batch.contains(x) {
                let i = choose|i: int| 0 <= i < batch.len() && batch[i] == x;
            }
        }
    } else {
        let e = batch[0];
        let rest = batch.drop_first();
        lemma_store_insert_props(s, e);
        let s1 = store_insert(s, e);
        assert(!contains_id(s, e.id));
        assert forall|i: int, j: int|
            0 <= i < j < rest.len() implies (#[trigger] rest[i]).id != (#[trigger] rest[j]).id by {
            assert(rest[i] == batch[i + 1]);
            assert(rest[j] == batch[j + 1]);
        }
        assert forall|k: int| 0 <= k < rest.len() implies !contains_id(
            s1,
            (#[trigger] rest[k]).id,
        ) by {
            assert(rest[k] == batch[k + 1]);
            if contains_id(s1, rest[k].id) {
                let i = choose|i: int| 0 <= i < s1.len() && s1[i].id == rest[k].id;
                assert(s1.contains(s1[i]));
                assert(s.contains(s1[i]) || s1[i] == e);
                if s.contains(s1[i]) {
                    let j = choose|j: int| 0 <= j < s.len() && s[j] == s1[i];
                    assert(contains_id(s, batch[k + 1].id)) by {
                        assert(s[j].id == batch[k + 1].id);
                    }
                } else {
                    assert(batch[0].id == batch[k + 1].id);
                }
            }
        }
        lemma_insert_all_contains(s1, rest);
        assert forall|x: EventV|
            #[trigger] store_insert_all(s, batch).contains(x) <==> (s.contains(x)
                || batch.contains(x)) by {
            assert(store_insert_all(s, batch) == store_insert_all(s1, rest));
            if store_insert_all(s1, rest).contains(x) {
                if s1.contains(x) && !s.contains(x) {
                    assert(x == e);
                    assert(batch.contains(x)) by {
                        assert(batch[0] == x);
                    }
                }
                if rest.contains(x) {
                    let i = choose|i: int| 0 <= i < rest.len() && rest[i] == x;
                    assert(batch.contains(x)) by {
                        assert(batch[i + 1] == x);
                    }
                }
            }
            if s.contains(x) {
                assert(s1.contains(x));
            }
            if batch.contains(x) {
                let i = choose|i: int| 0 <= i < batch.len() && batch[i] == x;
                if i == 0 {
                    assert(s1.contains(x));
                } else {
                    assert(rest[i - 1] == x);
                }
            }
        }
    }
}

/// Arrival-order independence: ingesting the same events in any two
/// arrival orders into an empty store assembles the same message list.
pub proof fn lemma_arrival_order_independence(
    b1: Seq<EventV>,
    b2: Seq<EventV>,
    members: Seq<MemberV>,
)
    requires
        distinct_ids(b1),
        distinct_ids(b2),
        forall|x: EventV| b1.contains(x) == b2.contains(x),
    ensures
        assemble(store_insert_all(Seq::empty(), b1), members) == assemble(
            store_insert_all(Seq::empty(), b2),
            members,
        ),
{
    let empty = Seq::<EventV>::empty();
    assert(store_wf(empty));
    lemma_insert_all_contains(empty, b1);
    lemma_insert_all_contains(empty, b2);
    lemma_order_independence(
        store_insert_all(empty, b1),
        store_insert_all(empty, b2),
        members,
    );
}

// ---------------------------------------------------------------------------
// Edit precedence
// ---------------------------------------------------------------------------

/// Whether the event is an edit targeting `t`.
pub open spec fn is_edit_of(m: EventV, t: Seq<char>) -> bool {
    m.kind matches KindV::Edit { target_id, .. } && target_id == t
}

/// Whether the list holds a message with id `t`.
pub open spec fn has_msg(ms: Seq<MessageV>, t: Seq<char>) -> bool {
    msg_idx_from(ms, t, 0) != -1
}

/// The first message with id `t`; with unique ids, the only one.
pub open spec fn the_msg(ms: Seq<MessageV>, t: Seq<char>) -> MessageV {
    ms[msg_idx_from(ms, t, 0)]
}

/// Pairwise distinct message ids.
pub open spec fn unique_ids(ms: Seq<MessageV>) -> bool {
    forall|i: int, j: int| 0 <= i < j < ms.len() ==> (#[trigger] ms[i]).id != (#[trigger] ms[j]).id
}

/// With unique ids, any position holding id `t` is the position the
/// search finds.
pub proof fn lemma_the_msg_at(ms: Seq<MessageV>, t: Seq<char>, k: int)
    requires
        unique_ids(ms),
        0 <= k < ms.len(),
        ms[k].id == t,
    ensures
        msg_idx_from(ms, t, 0) == k,
{
    lemma_msg_idx_from(ms, t, 0);
    let j = msg_idx_from(ms, t, 0);
    if j == -1 {
        assert(ms[k].id != t);
    } else {
        if j < k {
            assert(ms[j].id != ms[k].id);
        }
        if k < j {
            assert(ms[k].id != t);
        }
    }
}

/// One modifier application: ids stay unique, a surviving message
/// already existed, and its body and edited flag change only through an
/// edit that targets it.
pub proof fn lemma_apply_one_body(ms: Seq<MessageV>, m: EventV, t: Seq<char>)
    requires
        unique_ids(ms),
    ensures
        unique_ids(apply_one(ms, m)),
        has_msg(apply_one(ms, m), t) ==> has_msg(ms, t),
        (has_msg(apply_one(ms, m), t) && !is_edit_of(m, t)) ==> {
            &&& the_msg(apply_one(ms, m), t).body == the_msg(ms, t).body
            &&& the_msg(apply_one(ms, m), t).edited == the_msg(ms, t).edited
            &&& the_msg(apply_one(ms, m), t).id == t
        },
        (has_msg(apply_one(ms, m), t) && is_edit_of(m, t)) ==> {
            &&& the_msg(apply_one(ms, m), t).body == m.kind->Edit_new_body
            &&& the_msg(apply_one(ms, m), t).edited
            &&& the_msg(apply_one(ms, m), t).id == t
        },
{
    let r = apply_one(ms, m);
    lemma_msg_idx_from(ms, t, 0);
    match m.kind {
        KindV::RootMessage { .. } => {},
        KindV::Membership { .. } => {},
        KindV::Edit { target_id, new_body } => {
            let i = msg_idx_from(ms, target_id, 0);
            lemma_msg_idx_from(ms, target_id, 0);
            if i == -1 {
            } else {
                assert(r == ms.update(
                    i,
                    MessageV {
                        id: ms[i].id,
                        sender_id: ms[i].sender_id,
                        sender: ms[i].sender,
                        body: new_body,
                        edited: true,
                        reactions: ms[i].reactions,
                    },
                ));
                assert(forall|k: int| 0 <= k < r.len() ==> (#[trigger] r[k]).id == ms[k].id);
                lemma_idx_same_ids(ms, r, t);
                if has_msg(r, t) {
                    let j = msg_idx_from(ms, t, 0);
                    lemma_msg_idx_from(r, t, 0);
                    if target_id == t {
                        assert(ms[i].id == t);
                        assert(j == i);
                    } else {
                        assert(ms[i].id == target_id);
                        assert(r[j].id == t);
                        assert(j != i);
                    }
                }
            }
        },
        KindV::Reaction { target_id, body, action } => {
            match action {
                crate::event::ReactionAction::Add => {
                    let i = msg_idx_from(ms, target_id, 0);
                    lemma_msg_idx_from(ms, target_id, 0);
                    if i != -1 {
                        assert(forall|k: int|
                            0 <= k < r.len() ==> (#[trigger] r[k]).id == ms[k].id && r[k].body
                                == ms[k].body && r[k].edited == ms[k].edited);
                        lemma_idx_same_ids(ms, r, t);
                        if has_msg(r, t) {
                            lemma_msg_idx_from(r, t, 0);
                        }
                    }
                },
                crate::event::ReactionAction::Remove => {
                    assert(forall|k: int|
                        0 <= k < r.len() ==> (#[trigger] r[k]).id == ms[k].id && r[k].body
                            == ms[k].body && r[k].edited == ms[k].edited);
                    lemma_idx_same_ids(ms, r, t);
                    if has_msg(r, t) {
                        lemma_msg_idx_from(r, t, 0);
                    }
                },
            }
        },
        KindV::Redaction { target_id } => {
            let i = msg_idx_from(ms, target_id, 0);
            lemma_msg_idx_from(ms, target_id, 0);
            if i == -1 {
                assert(forall|k: int|
                    0 <= k < r.len() ==> (#[trigger] r[k]).id == ms[k].id && r[k].body == ms[k].body
                        && r[k].edited == ms[k].edited);
                lemma_idx_same_ids(ms, r, t);
                if has_msg(r, t) {
                    lemma_msg_idx_from(r, t, 0);
                }
            } else {
                assert(r == ms.remove(i));
                assert(forall|k: int|
                    0 <= k < r.len() ==> #[trigger] r[k] == (if k < i {
                        ms[k]
                    } else {
                        ms[k + 1]
                    }));
                assert forall|a: int, b: int| 0 <= a < b < r.len() implies (#[trigger] r[a]).id
                    != (#[trigger] r[b]).id by {
                    if a < i && b < i {
                    } else if a < i {
                        assert(r[b] == ms[b + 1]);
                    } else {
                        assert(r[a] == ms[a + 1]);
                        assert(r[b] == ms[b + 1]);
                    }
                }
                if has_msg(r, t) {
                    lemma_msg_idx_from(r, t, 0);
                    let j = msg_idx_from(r, t, 0);
                    let k = if j < i {
                        j
                    } else {
                        j + 1
                    };
                    assert(ms[k].id == t);
                    lemma_the_msg_at(ms, t, k);
                    assert(the_msg(ms, t) == ms[k]);
                    assert(the_msg(r, t) == r[j]);
                    assert(r[j] == ms[k]);
                }
            }
        },
    }
}

/// Message searches agree on lists whose ids agree pointwise.
proof fn lemma_idx_same_ids(ms1: Seq<MessageV>, ms2: Seq<MessageV>, t: Seq<char>)
    requires
        ms1.len() == ms2.len(),
        forall|k: int| 0 <= k < ms1.len() ==> (#[trigger] ms1[k]).id == ms2[k].id,
    ensures
        forall|j: int|
            0 <= j <= ms1.len() ==> msg_idx_from(ms1, t, j) == #[trigger] msg_idx_from(ms2, t, j),
{
    assert forall|j: int|
        0 <= j <= ms1.len() implies msg_idx_from(ms1, t, j) == #[trigger] msg_idx_from(
        ms2,
        t,
        j,
    ) by {
        lemma_idx_same_ids_from(ms1, ms2, t, j);
    }
}

proof fn lemma_idx_same_ids_from(ms1: Seq<MessageV>, ms2: Seq<MessageV>, t: Seq<char>, j: int)
    requires
        ms1.len() == ms2.len(),
        0 <= j <= ms1.len(),
        forall|k: int| 0 <= k < ms1.len() ==> (#[trigger] ms1[k]).id == ms2[k].id,
    ensures
        msg_idx_from(ms1, t, j) == msg_idx_from(ms2, t, j),
    decreases ms1.len() - j,
{
    if j < ms1.len() && ms1[j].id != t {
        lemma_idx_same_ids_from(ms1, ms2, t, j + 1);
    }
}

/// Modifier folding keeps message ids unique.
pub proof fn lemma_apply_all_unique(ms: Seq<MessageV>, mods: Seq<EventV>)
    requires
        unique_ids(ms),
    ensures
        unique_ids(apply_all(ms, mods)),
    decreases mods.len(),
{
    if mods.len() > 0 {
        lemma_apply_all_unique(ms, mods.drop_last());
        lemma_apply_one_body(
            apply_all(ms, mods.drop_last()),
            mods.last(),
            mods.last().id,
        );
    }
}

/// Edit precedence over the modifier fold: when the edit at position `j`
/// is the last one targeting `t`, a message with id `t` that survives
/// the fold shows that edit's body.
pub proof fn lemma_apply_all_last_edit(
    ms: Seq<MessageV>,
    mods: Seq<EventV>,
    j: int,
    t: Seq<char>,
    nb: Seq<char>,
)
    requires
        unique_ids(ms),
        0 <= j < mods.len(),
        mods[j].kind == (KindV::Edit { target_id: t, new_body: nb }),
        forall|k: int| j < k < mods.len() ==> !is_edit_of(#[trigger] mods[k], t),
        has_msg(apply_all(ms, mods), t),
    ensures
        the_msg(apply_all(ms, mods), t).body == nb,
        the_msg(apply_all(ms, mods), t).edited,
    decreases mods.len(),
{
    let pre = apply_all(ms, mods.drop_last());
    let last = mods.last();
    lemma_apply_all_unique(ms, mods.drop_last());
    lemma_apply_one_body(pre, last, t);
    if j == mods.len() - 1 {
        assert(is_edit_of(last, t));
        assert(last.kind->Edit_new_body == nb);
    } else {
        assert(!is_edit_of(last, t));
        assert(has_msg(pre, t));
        assert(mods.drop_last()[j] == mods[j]);
        assert forall|k: int| j < k < mods.drop_last().len() implies !is_edit_of(
            #[trigger] mods.drop_last()[k],
            t,
        ) by {
            assert(mods.drop_last()[k] == mods[k]);
        }
        lemma_apply_all_last_edit(ms, mods.drop_last(), j, t, nb);
    }
}

// ---------------------------------------------------------------------------
// Edit precedence over the full assembly
// ---------------------------------------------------------------------------

/// Every modifier of `s[i..]` sits above `e` when every event there
/// does.
proof fn lemma_mods_from_above(s: Seq<EventV>, i: int, e: EventV)
    requires
        0 <= i <= s.len(),
        forall|k: int| i <= k < s.len() ==> ev_lt(e, #[trigger] s[k]),
    ensures
        forall|b: int|
            0 <= b < mods_from(s, i).len() ==> ev_lt(e, #[trigger] mods_from(s, i)[b]),
    decreases s.len() - i,
{
    if i < s.len() {
        lemma_mods_from_above(s, i + 1, e);
        if !is_root(s[i]) {
            assert forall|b: int|
                0 <= b < mods_from(s, i).len() implies ev_lt(e, #[trigger] mods_from(s, i)[b]) by {
                if b == 0 {
                    assert(mods_from(s, i)[0] == s[i]);
                } else {
                    assert(mods_from(s, i)[b] == mods_from(s, i + 1)[b - 1]);
                }
            }
        } else {
            assert forall|b: int|
                0 <= b < mods_from(s, i).len() implies ev_lt(e, #[trigger] mods_from(s, i)[b]) by {
                assert(mods_from(s, i)[b] == mods_from(s, i + 1)[b]);
            }
        }
    }
}

/// The modifiers of a well-formed store are sorted in the timeline
/// order.
proof fn lemma_mods_from_sorted(s: Seq<EventV>, i: int)
    requires
        store_wf(s),
        0 <= i <= s.len(),
    ensures
        forall|a: int, b: int|
            0 <= a < b < mods_from(s, i).len() ==> ev_lt(
                #[trigger] mods_from(s, i)[a],
                #[trigger] mods_from(s, i)[b],
            ),
    decreases s.len() - i,
{
    if i < s.len() {
        lemma_mods_from_sorted(s, i + 1);
        if !is_root(s[i]) {
            assert forall|k: int| i + 1 <= k < s.len() implies ev_lt(s[i], #[trigger] s[k]) by {}
            lemma_mods_from_above(s, i + 1, s[i]);
            assert forall|a: int, b: int|
                0 <= a < b < mods_from(s, i).len() implies ev_lt(
                #[trigger] mods_from(s, i)[a],
                #[trigger] mods_from(s, i)[b],
            ) by {
                if a == 0 {
                    assert(mods_from(s, i)[0] == s[i]);
                    assert(mods_from(s, i)[b] == mods_from(s, i + 1)[b - 1]);
                } else {
                    assert(mods_from(s, i)[a] == mods_from(s, i + 1)[a - 1]);
                    assert(mods_from(s, i)[b] == mods_from(s, i + 1)[b - 1]);
                }
            }
        } else {
            assert forall|a: int, b: int|
                0 <= a < b < mods_from(s, i).len() implies ev_lt(
                #[trigger] mods_from(s, i)[a],
                #[trigger] mods_from(s, i)[b],
            ) by {
                assert(mods_from(s, i)[a] == mods_from(s, i + 1)[a]);
                assert(mods_from(s, i)[b] == mods_from(s, i + 1)[b]);
            }
        }
    }
}

/// No stub of `s[i..]` carries an id that no event there carries.
proof fn lemma_stubs_from_no_id(s: Seq<EventV>, i: int, id: Seq<char>)
    requires
        0 <= i <= s.len(),
        forall|k: int| i <= k < s.len() ==> (#[trigger] s[k]).id != id,
    ensures
        forall|m: int|
            0 <= m < stubs_from(s, i).len() ==> (#[trigger] stubs_from(s, i)[m]).id != id,
    decreases s.len() - i,
{
    if i < s.len() {
        lemma_stubs_from_no_id(s, i + 1, id);
        if is_root(s[i]) {
            assert forall|m: int|
                0 <= m < stubs_from(s, i).len() implies (#[trigger] stubs_from(s, i)[m]).id
                != id by {
                if m == 0 {
                    assert(stubs_from(s, i)[0] == stub_of(s[i]));
                } else {
                    assert(stubs_from(s, i)[m] == stubs_from(s, i + 1)[m - 1]);
                }
            }
        } else {
            assert forall|m: int|
                0 <= m < stubs_from(s, i).len() implies (#[trigger] stubs_from(s, i)[m]).id
                != id by {
                assert(stubs_from(s, i)[m] == stubs_from(s, i + 1)[m]);
            }
        }
    }
}

/// The stubs of a well-formed store have pairwise distinct ids.
proof fn lemma_stubs_from_unique(s: Seq<EventV>, i: int)
    requires
        store_wf(s),
        0 <= i <= s.len(),
    ensures
        unique_ids(stubs_from(s, i)),
    decreases s.len() - i,
{
    if i < s.len() {
        lemma_stubs_from_unique(s, i + 1);
        if is_root(s[i]) {
            assert forall|k: int| i + 1 <= k < s.len() implies (#[trigger] s[k]).id
                != s[i].id by {}
            lemma_stubs_from_no_id(s, i + 1, s[i].id);
            assert forall|a: int, b: int|
                0 <= a < b < stubs_from(s, i).len() implies (#[trigger] stubs_from(s, i)[a]).id
                != (#[trigger] stubs_from(s, i)[b]).id by {
                if a == 0 {
                    assert(stubs_from(s, i)[0] == stub_of(s[i]));
                    assert(stubs_from(s, i)[b] == stubs_from(s, i + 1)[b - 1]);
                } else {
                    assert(stubs_from(s, i)[a] == stubs_from(s, i + 1)[a - 1]);
                    assert(stubs_from(s, i)[b] == stubs_from(s, i + 1)[b - 1]);
                }
            }
        } else {
            assert forall|a: int, b: int|
                0 <= a < b < stubs_from(s, i).len() implies (#[trigger] stubs_from(s, i)[a]).id
                != (#[trigger] stubs_from(s, i)[b]).id by {
                assert(stubs_from(s, i)[a] == stubs_from(s, i + 1)[a]);
                assert(stubs_from(s, i)[b] == stubs_from(s, i + 1)[b]);
            }
        }
    }
}

/// Every edit of `t` among the modifiers is the chosen event or sits
/// strictly below it in the timeline order.
proof fn lemma_mods_from_edits(s: Seq<EventV>, i: int, p: int, t: Seq<char>)
    requires
        0 <= i <= s.len(),
        0 <= p < s.len(),
        forall|q: int|
            0 <= q < s.len() && q != p && is_edit_of(#[trigger] s[q], t) ==> ev_lt(s[q], s[p]),
    ensures
        forall|k: int|
            0 <= k < mods_from(s, i).len() && is_edit_of(#[trigger] mods_from(s, i)[k], t) ==> (
            mods_from(s, i)[k] == s[p] || ev_lt(mods_from(s, i)[k], s[p])),
    decreases s.len() - i,
{
    if i < s.len() {
        lemma_mods_from_edits(s, i + 1, p, t);
        if !is_root(s[i]) {
            assert forall|k: int|
                0 <= k < mods_from(s, i).len() && is_edit_of(
                    #[trigger] mods_from(s, i)[k],
                    t,
                ) implies (mods_from(s, i)[k] == s[p] || ev_lt(mods_from(s, i)[k], s[p])) by {
                if k == 0 {
                    assert(mods_from(s, i)[0] == s[i]);
                    if i != p {
                        assert(ev_lt(s[i], s[p]));
                    }
                } else {
                    assert(mods_from(s, i)[k] == mods_from(s, i + 1)[k - 1]);
                }
            }
        } else {
            assert forall|k: int|
                0 <= k < mods_from(s, i).len() && is_edit_of(
                    #[trigger] mods_from(s, i)[k],
                    t,
                ) implies (mods_from(s, i)[k] == s[p] || ev_lt(mods_from(s, i)[k], s[p])) by {
                assert(mods_from(s, i)[k] == mods_from(s, i + 1)[k]);
            }
        }
    }
}

/// A non-root event of the store occurs among the modifiers.
proof fn lemma_mods_from_has(s: Seq<EventV>, i: int, p: int)
    requires
        0 <= i <= p < s.len(),
        !is_root(s[p]),
    ensures
        exists|j: int| 0 <= j < mods_from(s, i).len() && #[trigger] mods_from(s, i)[j] == s[p],
    decreases p - i,
{
    if i == p {
        assert(mods_from(s, i)[0] == s[p]);
    } else {
        lemma_mods_from_has(s, i + 1, p);
        let j = choose|j: int|
            0 <= j < mods_from(s, i + 1).len() && #[trigger] mods_from(s, i + 1)[j] == s[p];
        if is_root(s[i]) {
            assert(mods_from(s, i)[j] == s[p]);
        } else {
            assert(mods_from(s, i)[j + 1] == s[p]);
        }
    }
}

/// The later passes keep ids unique and leave each message's id, body
/// and edited flag where they were, up to the final reversal.
proof fn lemma_passes_preserve(ms: Seq<MessageV>, members: Seq<MemberV>, t: Seq<char>)
    requires
        unique_ids(ms),
    ensures
        has_msg(rev(merge_all(resolve_senders(ms, members))), t) == has_msg(ms, t),
        has_msg(ms, t) ==> {
            let m = the_msg(rev(merge_all(resolve_senders(ms, members))), t);
            m.body == the_msg(ms, t).body && m.edited == the_msg(ms, t).edited
        },
{
    let p3 = resolve_senders(ms, members);
    let p4 = merge_all(p3);
    let r = rev(p4);
    assert(forall|k: int|
        0 <= k < p4.len() ==> (#[trigger] p4[k]).id == ms[k].id && p4[k].body == ms[k].body
            && p4[k].edited == ms[k].edited);
    lemma_idx_same_ids(ms, p4, t);
    assert(forall|a: int, b: int|
        0 <= a < b < r.len() ==> (#[trigger] r[a]).id != (#[trigger] r[b]).id) by {
        assert(forall|k: int| 0 <= k < r.len() ==> #[trigger] r[k] == p4[r.len() - 1 - k]);
    }
    lemma_msg_idx_from(ms, t, 0);
    lemma_msg_idx_from(r, t, 0);
    if has_msg(ms, t) {
        let i = msg_idx_from(ms, t, 0);
        assert(p4[i].id == t);
        assert(r[r.len() - 1 - i] == p4[i]);
        lemma_the_msg_at(r, t, r.len() - 1 - i);
    }
    if has_msg(r, t) {
        let j = msg_idx_from(r, t, 0);
        assert(r[j] == p4[r.len() - 1 - j]);
        assert(ms[r.len() - 1 - j].id == t);
        lemma_the_msg_at(ms, t, r.len() - 1 - j);
    }
}

/// Edit precedence: the latest edit targeting a message, by timestamp
/// with ties broken by id, determines the displayed body (and sets the
/// edited flag) of that message wherever it survives assembly.
pub proof fn lemma_edit_precedence(
    events: Seq<EventV>,
    members: Seq<MemberV>,
    p: int,
    t: Seq<char>,
    nb: Seq<char>,
)
    requires
        store_wf(events),
        0 <= p < events.len(),
        events[p].kind == (KindV::Edit { target_id: t, new_body: nb }),
        forall|q: int|
            0 <= q < events.len() && q != p && is_edit_of(#[trigger] events[q], t) ==> ev_lt(
                events[q],
                events[p],
            ),
        has_msg(assemble(events, members), t),
    ensures
        the_msg(assemble(events, members), t).body == nb,
        the_msg(assemble(events, members), t).edited,
{
    let stubs = stubs_from(events, 0);
    let mods = mods_from(events, 0);
    let folded = apply_all(stubs, mods);
    lemma_stubs_from_unique(events, 0);
    lemma_apply_all_unique(stubs, mods);
    lemma_passes_preserve(folded, members, t);
    assert(has_msg(folded, t));
    lemma_mods_from_has(events, 0, p);
    let j = choose|j: int| 0 <= j < mods.len() && #[trigger] mods[j] == events[p];
    lemma_mods_from_sorted(events, 0);
    lemma_mods_from_edits(events, 0, p, t);
    assert forall|k: int| j < k < mods.len() implies !is_edit_of(#[trigger] mods[k], t) by {
        if is_edit_of(mods[k], t) {
            assert(mods[k] == events[p] || ev_lt(mods[k], events[p]));
            assert(ev_lt(mods[j], mods[k]));
            if mods[k] == events[p] {
                crate::event::lemma_ev_asym(mods[j], mods[k]);
            } else {
                crate::event::lemma_ev_asym(mods[j], mods[k]);
            }
        }
    }
    lemma_apply_all_last_edit(stubs, mods, j, t, nb);
}


// ---------------------------------------------------------------------------
// Reaction lifecycle over the full assembly
// ---------------------------------------------------------------------------

/// The spec value of the reaction event an add event contributes.
pub open spec fn reaction_of(a: EventV) -> crate::message::ReactionEventV {
    crate::message::ReactionEventV { sender_id: a.sender_id, id: a.id }
}

/// Reaction lifecycle, retraction: a history of one root message, one
/// reaction added to it, and one retraction of that reaction assembles
/// to exactly one message carrying no reaction bucket at all.
pub proof fn lemma_lifecycle_add_remove(
    r: EventV,
    a: EventV,
    m: EventV,
    b: Seq<char>,
    members: Seq<MemberV>,
)
    requires
        store_wf(seq![r, a, m]),
        r.kind is RootMessage,
        a.kind == (KindV::Reaction {
            target_id: r.id,
            body: b,
            action: crate::event::ReactionAction::Add,
        }),
        m.kind == (KindV::Reaction {
            target_id: a.id,
            body: b,
            action: crate::event::ReactionAction::Remove,
        }),
    ensures
        assemble(seq![r, a, m], members).len() == 1,
        assemble(seq![r, a, m], members)[0].id == r.id,
        assemble(seq![r, a, m], members)[0].reactions == Seq::<crate::message::ReactionV>::empty(),
{
    let s = seq![r, a, m];
    let folded = lemma_lifecycle_fold(r, a, m, b);
    let p3 = resolve_senders(folded, members);
    let p4 = merge_all(p3);
    let out = rev(p4);
    assert(p3.len() == 1);
    assert(p3[0].reactions == folded[0].reactions);
    assert(p4.len() == 1);
    assert(p4[0].reactions =~= Seq::<crate::message::ReactionV>::empty()) by {
        reveal_with_fuel(crate::assemble::merge_from, 2);
    }
    assert(out.len() == 1);
    assert(out[0] == p4[0]);
    assert(assemble(s, members) == out);
}

/// The modifier fold of the retraction history: one stub, no buckets.
proof fn lemma_lifecycle_fold(r: EventV, a: EventV, m: EventV, b: Seq<char>) -> (folded: Seq<
    MessageV,
>)
    requires
        store_wf(seq![r, a, m]),
        r.kind is RootMessage,
        a.kind == (KindV::Reaction {
            target_id: r.id,
            body: b,
            action: crate::event::ReactionAction::Add,
        }),
        m.kind == (KindV::Reaction {
            target_id: a.id,
            body: b,
            action: crate::event::ReactionAction::Remove,
        }),
    ensures
        folded == apply_all(stubs_from(seq![r, a, m], 0), mods_from(seq![r, a, m], 0)),
        folded.len() == 1,
        folded[0].id == r.id,
        folded[0].body == stub_of(r).body,
        folded[0].reactions == Seq::<crate::message::ReactionV>::empty(),
{
    let s = seq![r, a, m];
    reveal_with_fuel(stubs_from, 5);
    reveal_with_fuel(mods_from, 5);
    let stubs = stubs_from(s, 0);
    let mods = mods_from(s, 0);
    assert(stubs =~= seq![stub_of(r)]);
    assert(mods =~= seq![a, m]);
    reveal_with_fuel(apply_all, 3);
    assert(mods.drop_last() =~= seq![a]);
    assert(seq![a].drop_last() =~= Seq::<EventV>::empty());
    assert(seq![a].last() == a);
    let s1 = apply_one(stubs, a);
    assert(apply_all(stubs, mods) == apply_one(s1, m));
    // the add lands in a fresh bucket on the only stub
    reveal_with_fuel(msg_idx_from, 3);
    assert(stub_of(r).id == r.id);
    assert(msg_idx_from(stubs, r.id, 0) == 0);
    reveal_with_fuel(crate::message::bucket_idx_from, 2);
    reveal_with_fuel(crate::message::filter_events, 3);
    reveal_with_fuel(crate::message::remove_event, 3);
    let ev = reaction_of(a);
    let bucket = crate::message::ReactionV { body: b, events: seq![ev] };
    assert(crate::message::add_to_buckets(stub_of(r).reactions, b, ev) =~= seq![bucket]);
    assert(s1 =~= seq![
        MessageV {
            id: stub_of(r).id,
            sender_id: stub_of(r).sender_id,
            sender: stub_of(r).sender,
            body: stub_of(r).body,
            edited: stub_of(r).edited,
            reactions: seq![bucket],
        },
    ]);
    // the retraction empties and drops the bucket
    assert(crate::message::filter_events(bucket.events, a.id) =~= Seq::<
        crate::message::ReactionEventV,
    >::empty()) by {
        assert(bucket.events[0].id == a.id);
        assert(bucket.events.drop_first() =~= Seq::<crate::message::ReactionEventV>::empty());
    }
    assert(crate::message::remove_event(seq![bucket], Option::Some(b), a.id) =~= Seq::<
        crate::message::ReactionV,
    >::empty()) by {
        assert(seq![bucket].drop_first() =~= Seq::<crate::message::ReactionV>::empty());
    }
    let folded = apply_one(s1, m);
    assert(folded =~= seq![
        MessageV {
            id: stub_of(r).id,
            sender_id: stub_of(r).sender_id,
            sender: stub_of(r).sender,
            body: stub_of(r).body,
            edited: stub_of(r).edited,
            reactions: Seq::<crate::message::ReactionV>::empty(),
        },
    ]);
    folded
}

/// Reaction lifecycle, accumulation: a history of one root message and
/// two same-body reactions from any two senders assembles to one message
/// with exactly one bucket holding both reaction events, in order.
pub proof fn lemma_lifecycle_two_adds(
    r: EventV,
    a1: EventV,
    a2: EventV,
    b: Seq<char>,
    members: Seq<MemberV>,
)
    requires
        store_wf(seq![r, a1, a2]),
        r.kind is RootMessage,
        a1.kind == (KindV::Reaction {
            target_id: r.id,
            body: b,
            action: crate::event::ReactionAction::Add,
        }),
        a2.kind == (KindV::Reaction {
            target_id: r.id,
            body: b,
            action: crate::event::ReactionAction::Add,
        }),
    ensures
        assemble(seq![r, a1, a2], members).len() == 1,
        assemble(seq![r, a1, a2], members)[0].id == r.id,
        assemble(seq![r, a1, a2], members)[0].reactions == seq![
            crate::message::ReactionV { body: b, events: seq![reaction_of(a1), reaction_of(a2)] },
        ],
{
    let s = seq![r, a1, a2];
    reveal_with_fuel(stubs_from, 5);
    reveal_with_fuel(mods_from, 5);
    let stubs = stubs_from(s, 0);
    let mods = mods_from(s, 0);
    assert(stubs =~= seq![stub_of(r)]);
    assert(mods =~= seq![a1, a2]);
    reveal_with_fuel(apply_all, 3);
    assert(mods.drop_last() =~= seq![a1]);
    assert(seq![a1].drop_last() =~= Seq::<EventV>::empty());
    assert(seq![a1].last() == a1);
    let s1 = apply_one(stubs, a1);
    assert(apply_all(stubs, mods) == apply_one(s1, a2));
    reveal_with_fuel(msg_idx_from, 3);
    assert(stub_of(r).id == r.id);
    assert(msg_idx_from(stubs, r.id, 0) == 0);
    reveal_with_fuel(crate::message::bucket_idx_from, 3);
    let ev1 = reaction_of(a1);
    let ev2 = reaction_of(a2);
    let bucket1 = crate::message::ReactionV { body: b, events: seq![ev1] };
    assert(crate::message::add_to_buckets(stub_of(r).reactions, b, ev1) =~= seq![bucket1]);
    let m1 = MessageV {
        id: stub_of(r).id,
        sender_id: stub_of(r).sender_id,
        sender: stub_of(r).sender,
        body: stub_of(r).body,
        edited: stub_of(r).edited,
        reactions: seq![bucket1],
    };
    assert(s1 =~= seq![m1]);
    assert(msg_idx_from(s1, r.id, 0) == 0);
    let bucket2 = crate::message::ReactionV { body: b, events: seq![ev1, ev2] };
    assert(crate::message::bucket_idx_from(seq![bucket1], b, 0) == 0);
    assert(crate::message::add_to_buckets(seq![bucket1], b, ev2) =~= seq![bucket2]) by {
        assert(seq![bucket1][0].events.push(ev2) =~= seq![ev1, ev2]);
    }
    let folded = apply_one(s1, a2);
    let m2 = MessageV {
        id: m1.id,
        sender_id: m1.sender_id,
        sender: m1.sender,
        body: m1.body,
        edited: m1.edited,
        reactions: seq![bucket2],
    };
    assert(folded =~= seq![m2]);
    let p3 = resolve_senders(folded, members);
    let p4 = merge_all(p3);
    let out = rev(p4);
    assert(p3.len() == 1);
    assert(p3[0].reactions == seq![bucket2]);
    assert(p4.len() == 1);
    assert(p4[0].reactions =~= seq![bucket2]) by {
        reveal_with_fuel(crate::assemble::merge_from, 3);
        reveal_with_fuel(crate::assemble::collect_events_from, 3);
        assert(!crate::assemble::body_seen(seq![bucket2], 0));
        assert(crate::assemble::collect_events_from(seq![bucket2], b, 0) =~= bucket2.events
            + Seq::<crate::message::ReactionEventV>::empty());
        assert(bucket2.events + Seq::<crate::message::ReactionEventV>::empty() =~= bucket2.events);
    }
    assert(out.len() == 1);
    assert(out[0] == p4[0]);
    assert(assemble(s, members) == out);
}


/// Well-formed reaction state: every bucket of every message holds at
/// least one event, and no reaction event with id `eid` occurs anywhere.
pub open spec fn reactions_wf_without(ms: Seq<MessageV>, eid: Seq<char>) -> bool {
    forall|k: int|
        0 <= k < ms.len() ==> crate::message::buckets_wf(#[trigger] ms[k].reactions)
            && !crate::message::buckets_contain_event(ms[k].reactions, eid)
}

/// Reaction lifecycle at the modifier level, fully general: against any
/// message list that does not yet hold the reaction event, applying the
/// add and then the retraction restores the list exactly.
pub proof fn lemma_apply_add_remove_cancels(ms: Seq<MessageV>, a: EventV, m: EventV, b: Seq<char>)
    requires
        a.kind is Reaction,
        a.kind->Reaction_body == b,
        a.kind->Reaction_action == crate::event::ReactionAction::Add,
        m.kind == (KindV::Reaction {
            target_id: a.id,
            body: b,
            action: crate::event::ReactionAction::Remove,
        }),
        reactions_wf_without(ms, a.id),
    ensures
        apply_one(apply_one(ms, a), m) == ms,
{
    let t = a.kind->Reaction_target_id;
    let ev = reaction_of(a);
    let added = apply_one(ms, a);
    let i = msg_idx_from(ms, t, 0);
    lemma_msg_idx_from(ms, t, 0);
    if i == -1 {
        assert(added == ms);
        assert(apply_one(added, m) =~= ms) by {
            assert forall|k: int| 0 <= k < ms.len() implies #[trigger] crate::message::remove_event(
                ms[k].reactions,
                Option::Some(b),
                a.id,
            ) == ms[k].reactions by {
                crate::message::lemma_remove_event_absent(
                    ms[k].reactions,
                    Option::Some(b),
                    a.id,
                );
            }
        }
    } else {
        let rs = ms[i].reactions;
        assert(added == ms.update(
            i,
            MessageV {
                id: ms[i].id,
                sender_id: ms[i].sender_id,
                sender: ms[i].sender,
                body: ms[i].body,
                edited: ms[i].edited,
                reactions: crate::message::add_to_buckets(rs, b, ev),
            },
        ));
        crate::message::lemma_add_then_remove(rs, b, ev, Option::Some(b));
        assert(apply_one(added, m) =~= ms) by {
            assert forall|k: int| 0 <= k < ms.len() implies crate::assemble::strip_reaction(
                added,
                Option::Some(b),
                a.id,
            )[k] == ms[k] by {
                if k != i {
                    assert(added[k] == ms[k]);
                    crate::message::lemma_remove_event_absent(
                        ms[k].reactions,
                        Option::Some(b),
                        a.id,
                    );
                } else {
                    assert(added[i].reactions == crate::message::add_to_buckets(rs, b, ev));
                    assert(crate::message::remove_event(
                        added[i].reactions,
                        Option::Some(b),
                        a.id,
                    ) == rs);
                }
            }
        }
    }
}

/// Reaction accumulation at the modifier level, fully general: two adds
/// with one body from any two senders, against a target with no bucket
/// of that body, leave the target with exactly one new trailing bucket
/// holding both events in order, and touch no other message.
pub proof fn lemma_apply_two_adds(ms: Seq<MessageV>, a1: EventV, a2: EventV, b: Seq<char>, t: Seq<char>)
    requires
        a1.kind == (KindV::Reaction {
            target_id: t,
            body: b,
            action: crate::event::ReactionAction::Add,
        }),
        a2.kind == a1.kind,
        msg_idx_from(ms, t, 0) != -1,
        forall|k: int|
            0 <= k < ms[msg_idx_from(ms, t, 0)].reactions.len() ==> (#[trigger] ms[msg_idx_from(
                ms,
                t,
                0,
            )].reactions[k]).body != b,
    ensures
        ({
            let i = msg_idx_from(ms, t, 0);
            let rs = ms[i].reactions;
            apply_one(apply_one(ms, a1), a2) == ms.update(
                i,
                MessageV {
                    id: ms[i].id,
                    sender_id: ms[i].sender_id,
                    sender: ms[i].sender,
                    body: ms[i].body,
                    edited: ms[i].edited,
                    reactions: rs.push(
                        crate::message::ReactionV {
                            body: b,
                            events: seq![reaction_of(a1), reaction_of(a2)],
                        },
                    ),
                },
            )
        }),
{
    let i = msg_idx_from(ms, t, 0);
    lemma_msg_idx_from(ms, t, 0);
    let rs = ms[i].reactions;
    let ev1 = reaction_of(a1);
    let ev2 = reaction_of(a2);
    crate::message::lemma_two_adds_one_bucket(rs, b, ev1, ev2);
    let m1 = MessageV {
        id: ms[i].id,
        sender_id: ms[i].sender_id,
        sender: ms[i].sender,
        body: ms[i].body,
        edited: ms[i].edited,
        reactions: crate::message::add_to_buckets(rs, b, ev1),
    };
    let s1 = ms.update(i, m1);
    assert(apply_one(ms, a1) == s1);
    assert(forall|k: int| 0 <= k < s1.len() ==> (#[trigger] s1[k]).id == ms[k].id);
    lemma_idx_same_ids(ms, s1, t);
    assert(msg_idx_from(s1, t, 0) == i);
    assert(apply_one(s1, a2) =~= ms.update(
        i,
        MessageV {
            id: ms[i].id,
            sender_id: ms[i].sender_id,
            sender: ms[i].sender,
            body: ms[i].body,
            edited: ms[i].edited,
            reactions: rs.push(
                crate::message::ReactionV { body: b, events: seq![ev1, ev2] },
            ),
        },
    )) by {
        assert(s1[i].reactions == crate::message::add_to_buckets(rs, b, ev1));
        assert(crate::message::add_to_buckets(s1[i].reactions, b, ev2) == rs.push(
            crate::message::ReactionV { body: b, events: seq![ev1, ev2] },
        ));
    }
}

} // verus!
