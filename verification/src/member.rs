//! Known room members and deduplicated member lookups.
//!
//! The resolver keeps the set of members whose profiles are known, plus
//! the ids for which a lookup request is currently in flight.  It never
//! issues two lookups for the same id, and resolving an id is idempotent:
//! a second answer just overwrites the first.

use vstd::prelude::*;

use crate::event::MembershipState;

verus! {

/// A room member: the raw user id, the profile display name when known,
/// and the membership state.
#[derive(Debug)]
pub struct Member {
    pub user_id: String,
    pub display_name: Option<String>,
    pub state: MembershipState,
}

/// Spec-level value of a `Member`.
#[verifier::ext_equal]
pub struct MemberV {
    pub user_id: Seq<char>,
    pub display_name: Option<Seq<char>>,
    pub state: MembershipState,
}

impl View for Member {
    type V = MemberV;

    open spec fn view(&self) -> MemberV {
        MemberV {
            user_id: self.user_id@,
            display_name: match self.display_name {
                Option::Some(ref n) => Option::Some(n@),
                Option::None => Option::None,
            },
            state: self.state,
        }
    }
}

impl DeepView for Member {
    type V = MemberV;

    open spec fn deep_view(&self) -> MemberV {
        self.view()
    }
}

impl Clone for Member {
    fn clone(&self) -> (r: Self)
        ensures
            r@ == self@,
    {
        Member {
            user_id: self.user_id.clone(),
            display_name: match &self.display_name {
                Option::Some(n) => Option::Some(n.clone()),
                Option::None => Option::None,
            },
            state: self.state,
        }
    }
}

/// The index of the first member with the given user id at or after `i`,
/// or -1.
pub open spec fn member_idx_from(ms: Seq<MemberV>, uid: Seq<char>, i: int) -> int
    decreases ms.len() - i,
{
    if i < 0 || i >= ms.len() {
        -1
    } else if ms[i].user_id == uid {
        i
    } else {
        member_idx_from(ms, uid, i + 1)
    }
}

/// What the member search returns.
pub proof fn lemma_member_idx_from(ms: Seq<MemberV>, uid: Seq<char>, i: int)
    requires
        0 <= i <= ms.len(),
    ensures
        member_idx_from(ms, uid, i) == -1 ==> forall|k: int|
            i <= k < ms.len() ==> (#[trigger] ms[k]).user_id != uid,
        member_idx_from(ms, uid, i) != -1 ==> {
            let j = member_idx_from(ms, uid, i);
            &&& i <= j < ms.len()
            &&& ms[j].user_id == uid
            &&& forall|k: int| i <= k < j ==> (#[trigger] ms[k]).user_id != uid
        },
    decreases ms.len() - i,
{
    if i < ms.len() && ms[i].user_id != uid {
        lemma_member_idx_from(ms, uid, i + 1);
    }
}

/// Whether the member set holds a member with this user id.
pub open spec fn member_known(ms: Seq<MemberV>, uid: Seq<char>) -> bool {
    exists|i: int| 0 <= i < ms.len() && (#[trigger] ms[i]).user_id == uid
}

/// The display string for a sender id: the member's display name when one
/// is known, else the raw id.
pub open spec fn display_of(ms: Seq<MemberV>, uid: Seq<char>) -> Seq<char> {
    let i = member_idx_from(ms, uid, 0);
    if i == -1 {
        uid
    } else {
        match ms[i].display_name {
            Option::Some(n) => n,
            Option::None => uid,
        }
    }
}

/// Whether an id sequence holds `uid`.
pub open spec fn id_listed(fl: Seq<Seq<char>>, uid: Seq<char>) -> bool {
    exists|i: int| 0 <= i < fl.len() && fl[i] == uid
}

/// The id sequence without every occurrence of `uid`.
pub open spec fn ids_without(fl: Seq<Seq<char>>, uid: Seq<char>) -> Seq<Seq<char>>
    decreases fl.len(),
{
    if fl.len() == 0 {
        Seq::empty()
    } else if fl[0] == uid {
        ids_without(fl.drop_first(), uid)
    } else {
        seq![fl[0]] + ids_without(fl.drop_first(), uid)
    }
}

/// What `note_sender` does to the in-flight list, and whether it issues a
/// lookup request.
pub open spec fn note_spec(ms: Seq<MemberV>, fl: Seq<Seq<char>>, uid: Seq<char>) -> (Seq<
    Seq<char>,
>, bool) {
    if member_known(ms, uid) || id_listed(fl, uid) {
        (fl, false)
    } else {
        (fl.push(uid), true)
    }
}

/// What `resolve` does to the member set: overwrite the member when the
/// id is known, append it otherwise.
pub open spec fn resolve_members_spec(ms: Seq<MemberV>, m: MemberV) -> Seq<MemberV> {
    let i = member_idx_from(ms, m.user_id, 0);
    if i == -1 {
        ms.push(m)
    } else {
        ms.update(i, m)
    }
}

/// Member dedup: noting the same unresolved sender twice issues exactly
/// one lookup; the second note changes nothing and requests nothing.
pub proof fn lemma_member_dedup(ms: Seq<MemberV>, fl: Seq<Seq<char>>, uid: Seq<char>)
    ensures
        ({
            let (fl1, _issued1) = note_spec(ms, fl, uid);
            let (fl2, issued2) = note_spec(ms, fl1, uid);
            fl2 == fl1 && !issued2
        }),
{
    let (fl1, issued1) = note_spec(ms, fl, uid);
    if issued1 {
        assert(fl1[fl.len() as int] == uid);
        assert(id_listed(fl1, uid));
    }
}

/// The member-lookup state machine.
pub struct MemberResolver {
    members: Vec<Member>,
    in_flight: Vec<String>,
}

impl MemberResolver {
    /// The known members, in insertion order.
    pub closed spec fn mems(&self) -> Seq<MemberV> {
        self.members.deep_view()
    }

    /// The ids with a lookup currently in flight.
    pub closed spec fn fl(&self) -> Seq<Seq<char>> {
        self.in_flight.deep_view()
    }

    /// Creates a resolver with nothing known and nothing in flight.
    pub fn new() -> (r: MemberResolver)
        ensures
            r.mems() == Seq::<MemberV>::empty(),
            r.fl() == Seq::<Seq<char>>::empty(),
    {
        let r = MemberResolver { members: Vec::new(), in_flight: Vec::new() };
        proof {
            assert(r.mems() =~= Seq::<MemberV>::empty());
            assert(r.fl() =~= Seq::<Seq<char>>::empty());
        }
        r
    }

    /// Read access to the known members.
    pub fn members(&self) -> (r: &Vec<Member>)
        ensures
            r.deep_view() == self.mems(),
    {
        &self.members
    }

    /// How many lookups are in flight.
    pub fn in_flight_len(&self) -> (n: usize)
        ensures
            n == self.fl().len(),
    {
        self.in_flight.len()
    }

    /// Notes that a sender id was seen: when the id is neither known nor
    /// being looked up, marks it in flight and asks the caller to issue a
    /// lookup request.  Returns whether to issue one.
    pub fn note_sender(&mut self, user_id: &String) -> (issue: bool)
        ensures
            (final(self).fl(), issue) == note_spec(old(self).mems(), old(self).fl(), user_id@),
            final(self).mems() == old(self).mems(),
    {
        let ghost ms = self.mems();
        let ghost fl0 = self.fl();
        let n = self.members.len();
        let mut i: usize = 0;
        while i < n
            invariant
                n == ms.len(),
                i <= n,
                ms == self.mems(),
                fl0 == self.fl(),
                *self == *old(self),
                forall|k: int| 0 <= k < i ==> (#[trigger] ms[k]).user_id != user_id@,
            decreases n - i,
        {
            if self.members[i].user_id == *user_id {
                proof {
                    assert(member_known(ms, user_id@)) by {
                        assert(ms[i as int].user_id == user_id@);
                    }
                }
                return false;
            }
            i = i + 1;
        }
        assert(!member_known(ms, user_id@));
        let fn_ = self.in_flight.len();
        let mut j: usize = 0;
        while j < fn_
            invariant
                fn_ == fl0.len(),
                j <= fn_,
                ms == self.mems(),
                fl0 == self.fl(),
                *self == *old(self),
                !member_known(ms, user_id@),
                forall|k: int| 0 <= k < j ==> fl0[k] != user_id@,
            decreases fn_ - j,
        {
            if self.in_flight[j] == *user_id {
                proof {
                    assert(id_listed(fl0, user_id@)) by {
                        assert(fl0[j as int] == user_id@);
                    }
                }
                return false;
            }
            j = j + 1;
        }
        assert(!id_listed(fl0, user_id@));
        self.in_flight.push(user_id.clone());
        proof {
            assert(self.fl() =~= fl0.push(user_id@));
        }
        true
    }

    /// Records a lookup answer: the id is no longer in flight, and the
    /// member is inserted, overwriting any previous entry for the id.
    pub fn resolve(&mut self, member: Member)
        ensures
            final(self).mems() == resolve_members_spec(old(self).mems(), member@),
            final(self).fl() == ids_without(old(self).fl(), member@.user_id),
    {
        let ghost ms = self.mems();
        let ghost fl0 = self.fl();
        let ghost uid = member@.user_id;
        // drop the id from the in-flight list
        let mut kept: Vec<String> = Vec::new();
        let fn_ = self.in_flight.len();
        let mut j: usize = 0;
        proof {
            assert(fl0.skip(0) =~= fl0);
            assert(kept.deep_view() =~= Seq::<Seq<char>>::empty());
            assert(Seq::<Seq<char>>::empty() + ids_without(fl0, uid) =~= ids_without(fl0, uid));
        }
        while j < fn_
            invariant
                fn_ == fl0.len(),
                j <= fn_,
                *self == *old(self),
                ms == self.mems(),
                fl0 == self.fl(),
                uid == member@.user_id,
                kept.deep_view() + ids_without(fl0.skip(j as int), uid) == ids_without(fl0, uid),
            decreases fn_ - j,
        {
            proof {
                assert(fl0.skip(j as int)[0] == fl0[j as int]);
                assert(fl0.skip(j as int).drop_first() =~= fl0.skip(j as int + 1));
            }
            if !(self.in_flight[j] == member.user_id) {
                let ghost kd = kept.deep_view();
                kept.push(self.in_flight[j].clone());
                proof {
                    assert(kept.deep_view() =~= kd.push(fl0[j as int]));
                    assert(ids_without(fl0.skip(j as int), uid) == seq![fl0[j as int]]
                        + ids_without(fl0.skip(j as int + 1), uid));
                    assert(kd.push(fl0[j as int]) + ids_without(fl0.skip(j as int + 1), uid)
                        =~= kd + (seq![fl0[j as int]] + ids_without(fl0.skip(j as int + 1), uid)));
                }
            }
            j = j + 1;
        }
        proof {
            assert(fl0.skip(fn_ as int) =~= Seq::<Seq<char>>::empty());
            assert(ids_without(Seq::<Seq<char>>::empty(), uid) =~= Seq::<Seq<char>>::empty());
            assert(kept.deep_view() + Seq::<Seq<char>>::empty() =~= kept.deep_view());
        }
        self.in_flight = kept;
        assert(self.fl() == ids_without(fl0, uid));
        // insert or overwrite the member
        let n = self.members.len();
        let mut i: usize = 0;
        while i < n
            invariant
                n == ms.len(),
                i <= n,
                ms == self.mems(),
                ms == old(self).mems(),
                fl0 == old(self).fl(),
                self.members == old(self).members,
                uid == member@.user_id,
                self.fl() == ids_without(fl0, uid),
                forall|k: int| 0 <= k < i ==> (#[trigger] ms[k]).user_id != member@.user_id,
            decreases n - i,
        {
            if self.members[i].user_id == member.user_id {
                proof {
                    crate::member::lemma_member_idx_from(ms, member@.user_id, 0);
                    assert(member_idx_from(ms, member@.user_id, 0) == i as int) by {
                        lemma_member_idx_range(ms, member@.user_id, i as int);
                    }
                }
                self.members.set(i, member);
                proof {
                    assert(self.mems() =~= ms.update(i as int, member@));
                }
                return ;
            }
            i = i + 1;
        }
        proof {
            lemma_member_idx_from(ms, member@.user_id, 0);
            if member_idx_from(ms, member@.user_id, 0) != -1 {
                let k = member_idx_from(ms, member@.user_id, 0);
                assert(ms[k].user_id == member@.user_id);
            }
        }
        self.members.push(member);
        proof {
            assert(self.mems() =~= ms.push(member@));
        }
    }
}

/// When no id before `i` matches and the member at `i` does, the search
/// from 0 lands exactly on `i`.
pub(crate) proof fn lemma_member_idx_range(ms: Seq<MemberV>, uid: Seq<char>, i: int)
    requires
        0 <= i < ms.len(),
        ms[i].user_id == uid,
        forall|k: int| 0 <= k < i ==> (#[trigger] ms[k]).user_id != uid,
    ensures
        member_idx_from(ms, uid, 0) == i,
{
    lemma_member_idx_prefix(ms, uid, 0, i);
}

/// Search from `j` lands on `i` when nothing in `[j, i)` matches.
pub(crate) proof fn lemma_member_idx_prefix(ms: Seq<MemberV>, uid: Seq<char>, j: int, i: int)
    requires
        0 <= j <= i < ms.len(),
        ms[i].user_id == uid,
        forall|k: int| j <= k < i ==> (#[trigger] ms[k]).user_id != uid,
    ensures
        member_idx_from(ms, uid, j) == i,
    decreases i - j,
{
    if j < i {
        lemma_member_idx_prefix(ms, uid, j + 1, i);
    }
}

} // verus!
