//! The room-view engine: the single owner of all per-room state.
//!
//! Every external occurrence — a live timeline event, an applied fetch
//! batch, a member-lookup answer, a focus change, a cursor move — enters
//! through one of the synchronous entrypoints here.  Each entrypoint
//! updates the event store, rebuilds the message list from the full
//! history, drives the member, pagination and read-marker state
//! machines, and returns the backend actions the surrounding I/O layer
//! should perform.  The engine itself performs no I/O.

use vstd::prelude::*;

use crate::assemble::{assemble, make_message_list};
use crate::event::{EventV, RawEvent};
use crate::member::{
    ids_without, note_spec, resolve_members_spec, Member, MemberResolver, MemberV,
};
use crate::message::{Message, MessageV, Reaction, ReactionEvent};
use crate::pagination::{cursor_view, PaginationController, FETCH_AHEAD_THRESHOLD};
use crate::read_marker::{marker_step, ReadMarkerTracker};
use crate::selection::{move_down_spec, move_up_spec, SelectionState};
use crate::store::{store_insert, store_insert_all, store_wf, EventStore};

verus! {

/// A backend request that an entrypoint asks the I/O layer to perform.
pub enum Action {
    /// Fetch an earlier page of history; `None` asks for the newest page.
    FetchMessages { cursor: Option<String> },
    /// Look up one member's profile.
    FetchMember { user_id: String },
    /// Report the head of the view as read.
    ReportRead { event_id: String },
}

/// Spec-level value of an `Action`.
#[verifier::ext_equal]
pub enum ActionV {
    FetchMessages { cursor: Option<Seq<char>> },
    FetchMember { user_id: Seq<char> },
    ReportRead { event_id: Seq<char> },
}

impl View for Action {
    type V = ActionV;

    open spec fn view(&self) -> ActionV {
        match self {
            Action::FetchMessages { cursor } => ActionV::FetchMessages {
                cursor: cursor_view(cursor),
            },
            Action::FetchMember { user_id } => ActionV::FetchMember { user_id: user_id@ },
            Action::ReportRead { event_id } => ActionV::ReportRead { event_id: event_id@ },
        }
    }
}

impl DeepView for Action {
    type V = ActionV;

    open spec fn deep_view(&self) -> ActionV {
        self.view()
    }
}

/// One applied backward-fetch result: the room it belongs to, the events
/// it carried, and the continuation cursor for the page before it.
pub struct Batch {
    pub room_id: String,
    pub events: Vec<RawEvent>,
    pub cursor: Option<String>,
}

/// The id shown at the head (newest end) of a message list.
pub open spec fn head_id(msgs: Seq<MessageV>) -> Option<Seq<char>> {
    if msgs.len() == 0 {
        Option::None
    } else {
        Option::Some(msgs[0].id)
    }
}

/// The actions a read-receipt emission contributes.
pub open spec fn report_acts(emit: Option<Seq<char>>) -> Seq<ActionV> {
    match emit {
        Option::Some(id) => seq![ActionV::ReportRead { event_id: id }],
        Option::None => Seq::empty(),
    }
}

/// The member-lookup actions for a sequence of user ids.
pub open spec fn member_acts(reqs: Seq<Seq<char>>) -> Seq<ActionV> {
    Seq::new(reqs.len(), |k: int| ActionV::FetchMember { user_id: reqs[k] })
}

/// What noting every sender of a batch does to the in-flight list, and
/// which lookups it issues: `(in_flight_after, issued_ids_in_order)`.
pub open spec fn note_all(ms: Seq<MemberV>, fl: Seq<Seq<char>>, evs: Seq<EventV>) -> (Seq<
    Seq<char>,
>, Seq<Seq<char>>)
    decreases evs.len(),
{
    if evs.len() == 0 {
        (fl, Seq::empty())
    } else {
        let (fl1, issued) = note_spec(ms, fl, evs[0].sender_id);
        let (fl2, reqs) = note_all(ms, fl1, evs.drop_first());
        if issued {
            (fl2, seq![evs[0].sender_id] + reqs)
        } else {
            (fl2, reqs)
        }
    }
}

/// The buffer above the scroll position: list length minus the selected
/// index, floored at zero.
pub open spec fn buffer_spec(len: int, sel: Option<usize>) -> int {
    let s = match sel {
        Option::Some(i) => i as int,
        Option::None => 0,
    };
    if len >= s {
        len - s
    } else {
        0
    }
}

/// Whether an applied batch triggers an immediate follow-up fetch.
pub open spec fn refetch_cond(
    prev: int,
    newlen: int,
    cursor: Option<Seq<char>>,
    buffer: int,
) -> bool {
    &&& newlen > prev
    &&& cursor is Some
    &&& buffer < FETCH_AHEAD_THRESHOLD as int
}

/// The message a selection index points at: none when the list is empty
/// or the index fell outside it after a rebuild.
pub open spec fn selected_msg(msgs: Seq<MessageV>, sel: Option<usize>) -> Option<MessageV> {
    if msgs.len() == 0 {
        Option::None
    } else {
        let i = match sel {
            Option::Some(i) => i as int,
            Option::None => 0,
        };
        if i < msgs.len() {
            Option::Some(msgs[i])
        } else {
            Option::None
        }
    }
}

/// Whether a bucket holds a reaction by this sender.
pub open spec fn bucket_has_sender(r: crate::message::ReactionV, me: Seq<char>) -> bool {
    exists|j: int| 0 <= j < r.events.len() && (#[trigger] r.events[j]).sender_id == me
}

/// The buckets holding a reaction by this sender, in order.
pub open spec fn mine_buckets(rs: Seq<crate::message::ReactionV>, me: Seq<char>) -> Seq<
    crate::message::ReactionV,
>
    decreases rs.len(),
{
    if rs.len() == 0 {
        Seq::empty()
    } else {
        let rest = mine_buckets(rs.drop_first(), me);
        if bucket_has_sender(rs[0], me) {
            seq![rs[0]] + rest
        } else {
            rest
        }
    }
}

/// The index of the first event by this sender at or after `i`, or -1.
pub open spec fn ev_idx_from(evs: Seq<crate::message::ReactionEventV>, me: Seq<char>, i: int) -> int
    decreases evs.len() - i,
{
    if i < 0 || i >= evs.len() {
        -1
    } else if evs[i].sender_id == me {
        i
    } else {
        ev_idx_from(evs, me, i + 1)
    }
}

/// The current user's reaction event inside the bucket with this body on
/// the selected message, when one exists.
pub open spec fn my_reaction_event(
    rs: Seq<crate::message::ReactionV>,
    b: Seq<char>,
    me: Seq<char>,
) -> Option<crate::message::ReactionEventV> {
    let i = crate::message::bucket_idx_from(rs, b, 0);
    if i == -1 {
        Option::None
    } else {
        let j = ev_idx_from(rs[i].events, me, 0);
        if j == -1 {
            Option::None
        } else {
            Option::Some(rs[i].events[j])
        }
    }
}

/// Event search from `j` lands on `i` when nothing in `[j, i)` matches.
proof fn lemma_ev_idx_prefix(
    evs: Seq<crate::message::ReactionEventV>,
    me: Seq<char>,
    j: int,
    i: int,
)
    requires
        0 <= j <= i < evs.len(),
        evs[i].sender_id == me,
        forall|k: int| j <= k < i ==> (#[trigger] evs[k]).sender_id != me,
    ensures
        ev_idx_from(evs, me, j) == i,
    decreases i - j,
{
    if j < i {
        lemma_ev_idx_prefix(evs, me, j + 1, i);
    }
}

/// Event search from `j` finds nothing when nothing from `j` on matches.
proof fn lemma_ev_idx_none(evs: Seq<crate::message::ReactionEventV>, me: Seq<char>, j: int)
    requires
        0 <= j <= evs.len(),
        forall|k: int| j <= k < evs.len() ==> (#[trigger] evs[k]).sender_id != me,
    ensures
        ev_idx_from(evs, me, j) == -1,
    decreases evs.len() - j,
{
    if j < evs.len() {
        lemma_ev_idx_none(evs, me, j + 1);
    }
}

/// The per-room engine state.
pub struct Chat {
    room_id: String,
    room_name: String,
    me: String,
    muted: bool,
    store: EventStore,
    messages: Vec<Message>,
    resolver: MemberResolver,
    pagination: PaginationController,
    marker: ReadMarkerTracker,
    selection: SelectionState,
}

impl Chat {
    /// The ordered event history.
    pub closed spec fn evs(&self) -> Seq<EventV> {
        self.store.evs()
    }

    /// The known members.
    pub closed spec fn mems(&self) -> Seq<MemberV> {
        self.resolver.mems()
    }

    /// The member lookups in flight.
    pub closed spec fn fl(&self) -> Seq<Seq<char>> {
        self.resolver.fl()
    }

    /// The assembled message list, newest first.
    pub closed spec fn msgs(&self) -> Seq<MessageV> {
        self.messages.deep_view()
    }

    /// The pagination cursor.
    pub closed spec fn cursor(&self) -> Option<Seq<char>> {
        self.pagination.cursor()
    }

    /// Whether a backward fetch is in flight.
    pub closed spec fn fetching(&self) -> bool {
        self.pagination.fetching()
    }

    /// Whether the view has focus.
    pub closed spec fn focus(&self) -> bool {
        self.marker.focus()
    }

    /// The last-reported read marker.
    pub closed spec fn marker(&self) -> Option<Seq<char>> {
        self.marker.marker()
    }

    /// The selection index.
    pub closed spec fn sel(&self) -> Option<usize> {
        self.selection.sel()
    }

    /// The room this engine serves.
    pub closed spec fn room_v(&self) -> Seq<char> {
        self.room_id@
    }

    /// The current user's id.
    pub closed spec fn me_v(&self) -> Seq<char> {
        self.me@
    }

    /// Whether the room is muted.
    pub closed spec fn muted_s(&self) -> bool {
        self.muted
    }

    /// The room's display name.
    pub closed spec fn room_name_v(&self) -> Seq<char> {
        self.room_name@
    }

    /// The engine invariant: the history is well formed and the message
    /// list is exactly its assembly against the known members.
    pub open spec fn wf(&self) -> bool {
        &&& store_wf(self.evs())
        &&& self.msgs() == assemble(self.evs(), self.mems())
    }

    /// Opens a room view: empty history, nothing known, an initial fetch
    /// in flight.  Returns the engine and the initial fetch action.
    pub fn new(room_id: String, room_name: String, me: String, muted: bool) -> (r: (Chat, Action))
        ensures
            r.0.wf(),
            r.0.evs() == Seq::<EventV>::empty(),
            r.0.mems() == Seq::<MemberV>::empty(),
            r.0.fl() == Seq::<Seq<char>>::empty(),
            r.0.cursor() is None,
            r.0.fetching(),
            r.0.focus(),
            r.0.marker() is None,
            r.0.sel() is None,
            r.0.room_v() == room_id@,
            r.0.me_v() == me@,
            r.0.muted_s() == muted,
            r.1@ == (ActionV::FetchMessages { cursor: Option::None }),
    {
        let store = EventStore::new();
        let resolver = MemberResolver::new();
        let messages = make_message_list(store.events(), resolver.members());
        let chat = Chat {
            room_id,
            room_name,
            me,
            muted,
            store,
            messages,
            resolver,
            pagination: PaginationController::new(),
            marker: ReadMarkerTracker::new(),
            selection: SelectionState::new(),
        };
        (chat, Action::FetchMessages { cursor: Option::None })
    }

    /// Whether the room is muted in the view.
    pub fn muted(&self) -> (r: bool)
        ensures
            r == self.muted_s(),
    {
        self.muted
    }

    /// The room id this engine serves.
    pub fn room(&self) -> (r: &String)
        ensures
            r@ == self.room_v(),
    {
        &self.room_id
    }

    /// The assembled messages, newest first.
    pub fn messages(&self) -> (r: &Vec<Message>)
        ensures
            r.deep_view() == self.msgs(),
    {
        &self.messages
    }

    /// The one-line summary of joined member names for the header.
    pub fn pretty_members(&self) -> (r: String)
        ensures
            r@ == crate::text::member_summary(self.mems()),
    {
        crate::text::pretty_members(self.resolver.members())
    }

    /// The full member and room-info text block for detail views.
    pub fn display_full(&self) -> (r: String)
        ensures
            r@ == crate::text::room_info(self.room_name_v(), self.room_v(), self.mems()),
    {
        crate::text::display_full(&self.room_name, &self.room_id, self.resolver.members())
    }

    /// The head id of the current list.
    fn current_head(&self) -> (h: Option<String>)
        ensures
            cursor_view(&h) == head_id(self.msgs()),
    {
        if self.messages.len() == 0 {
            Option::None
        } else {
            Option::Some(self.messages[0].id.clone())
        }
    }

    /// A live event arrived: note its sender for resolution, ingest it,
    /// rebuild the view, and report the new head as read when focused.
    /// Events for other rooms are ignored.
    pub fn timeline_event(&mut self, event: RawEvent) -> (acts: Vec<Action>)
        requires
            old(self).wf(),
        ensures
            final(self).wf(),
            event@.room_id != old(self).room_v() ==> *final(self) == *old(self)
                && acts.deep_view() == Seq::<ActionV>::empty(),
            event@.room_id == old(self).room_v() ==> {
                let (fl1, issued) = note_spec(old(self).mems(), old(self).fl(), event@.sender_id);
                let newevs = store_insert(old(self).evs(), event@);
                let newmsgs = assemble(newevs, old(self).mems());
                let (mk, emit) = marker_step(
                    old(self).focus(),
                    old(self).marker(),
                    head_id(newmsgs),
                );
                &&& final(self).evs() == newevs
                &&& final(self).mems() == old(self).mems()
                &&& final(self).fl() == fl1
                &&& final(self).msgs() == newmsgs
                &&& final(self).marker() == mk
                &&& final(self).focus() == old(self).focus()
                &&& final(self).cursor() == old(self).cursor()
                &&& final(self).fetching() == old(self).fetching()
                &&& final(self).sel() == old(self).sel()
                &&& final(self).room_v() == old(self).room_v()
                &&& acts.deep_view() == (if issued {
                    seq![ActionV::FetchMember { user_id: event@.sender_id }]
                } else {
                    Seq::<ActionV>::empty()
                }) + report_acts(emit)
            },
    {
        let mut acts: Vec<Action> = Vec::new();
        if !(event.room_id == self.room_id) {
            proof {
                assert(acts.deep_view() =~= Seq::<ActionV>::empty());
            }
            return acts;
        }
        let issue = self.resolver.note_sender(&event.sender_id);
        if issue {
            acts.push(Action::FetchMember { user_id: event.sender_id.clone() });
        }
        let _added = self.store.ingest(event);
        self.messages = make_message_list(self.store.events(), self.resolver.members());
        let head = self.current_head();
        let emit = self.marker.on_message_list_changed(&head);
        let ghost before_report = acts.deep_view();
        match emit {
            Option::Some(id) => {
                acts.push(Action::ReportRead { event_id: id });
            },
            Option::None => {},
        }
        proof {
            if issue {
                assert(before_report =~= seq![
                    ActionV::FetchMember { user_id: event@.sender_id },
                ]);
            } else {
                assert(before_report =~= Seq::<ActionV>::empty());
            }
            let (mk, emitv) = marker_step(
                old(self).focus(),
                old(self).marker(),
                head_id(self.msgs()),
            );
            assert(acts.deep_view() =~= before_report + report_acts(emitv));
        }
        acts
    }

    /// A member lookup resolved: the id is no longer in flight, the
    /// member is stored (overwriting any earlier answer), and the view is
    /// rebuilt so display names refresh.  Answers for other rooms are
    /// ignored.
    pub fn room_member_event(&mut self, room_id: &String, member: Member)
        requires
            old(self).wf(),
        ensures
            final(self).wf(),
            room_id@ != old(self).room_v() ==> *final(self) == *old(self),
            room_id@ == old(self).room_v() ==> {
                &&& final(self).evs() == old(self).evs()
                &&& final(self).mems() == resolve_members_spec(old(self).mems(), member@)
                &&& final(self).fl() == ids_without(old(self).fl(), member@.user_id)
                &&& final(self).msgs() == assemble(old(self).evs(), final(self).mems())
                &&& final(self).marker() == old(self).marker()
                &&& final(self).focus() == old(self).focus()
                &&& final(self).cursor() == old(self).cursor()
                &&& final(self).fetching() == old(self).fetching()
                &&& final(self).sel() == old(self).sel()
                &&& final(self).room_v() == old(self).room_v()
            },
    {
        if !(*room_id == self.room_id) {
            return ;
        }
        self.resolver.resolve(member);
        self.messages = make_message_list(self.store.events(), self.resolver.members());
    }

    /// The view gained focus: the current head is reported as read when
    /// it moved since the last report.
    pub fn focus_event(&mut self) -> (act: Option<Action>)
        requires
            old(self).wf(),
        ensures
            final(self).wf(),
            final(self).focus(),
            ({
                let (mk, emit) = marker_step(true, old(self).marker(), head_id(old(self).msgs()));
                &&& final(self).marker() == mk
                &&& (match act {
                    Option::Some(a) => a@ == (ActionV::ReportRead {
                        event_id: emit->0,
                    }) && emit is Some,
                    Option::None => emit is None,
                })
            }),
            final(self).evs() == old(self).evs(),
            final(self).mems() == old(self).mems(),
            final(self).fl() == old(self).fl(),
            final(self).msgs() == old(self).msgs(),
            final(self).cursor() == old(self).cursor(),
            final(self).fetching() == old(self).fetching(),
            final(self).sel() == old(self).sel(),
    {
        self.marker.on_focus_gained();
        let head = self.current_head();
        let emit = self.marker.on_message_list_changed(&head);
        match emit {
            Option::Some(id) => Option::Some(Action::ReportRead { event_id: id }),
            Option::None => Option::None,
        }
    }

    /// The view lost focus: nothing is reported until it returns.
    pub fn blur_event(&mut self)
        requires
            old(self).wf(),
        ensures
            final(self).wf(),
            !final(self).focus(),
            final(self).marker() == old(self).marker(),
            final(self).evs() == old(self).evs(),
            final(self).mems() == old(self).mems(),
            final(self).fl() == old(self).fl(),
            final(self).msgs() == old(self).msgs(),
            final(self).cursor() == old(self).cursor(),
            final(self).fetching() == old(self).fetching(),
            final(self).sel() == old(self).sel(),
    {
        self.marker.on_focus_lost();
    }

    /// Moves the selection one message toward older history.
    pub fn next(&mut self)
        requires
            old(self).wf(),
        ensures
            final(self).wf(),
            final(self).sel() == move_up_spec(old(self).sel(), old(self).msgs().len() as usize),
            final(self).evs() == old(self).evs(),
            final(self).mems() == old(self).mems(),
            final(self).msgs() == old(self).msgs(),
            final(self).cursor() == old(self).cursor(),
            final(self).fetching() == old(self).fetching(),
            final(self).marker() == old(self).marker(),
            final(self).focus() == old(self).focus(),
            final(self).fl() == old(self).fl(),
    {
        let len = self.messages.len();
        self.selection.move_up(len);
    }

    /// Moves the selection one message toward newer history.
    pub fn previous(&mut self)
        requires
            old(self).wf(),
        ensures
            final(self).wf(),
            final(self).sel() == move_down_spec(old(self).sel(), old(self).msgs().len() as usize),
            final(self).evs() == old(self).evs(),
            final(self).mems() == old(self).mems(),
            final(self).msgs() == old(self).msgs(),
            final(self).cursor() == old(self).cursor(),
            final(self).fetching() == old(self).fetching(),
            final(self).marker() == old(self).marker(),
            final(self).focus() == old(self).focus(),
            final(self).fl() == old(self).fl(),
    {
        let len = self.messages.len();
        self.selection.move_down(len);
    }

    /// An applied fetch batch: stores the cursor, notes every sender,
    /// ingests every event, rebuilds the view, resets the selection when
    /// the view was empty, reports the new head when focused, and — only
    /// when the batch yielded at least one net-new message — considers an
    /// immediate follow-up fetch.  Batches for other rooms are ignored.
    pub fn batch_event(&mut self, batch: Batch) -> (acts: Vec<Action>)
        requires
            old(self).wf(),
        ensures
            final(self).wf(),
            batch.room_id@ != old(self).room_v() ==> *final(self) == *old(self)
                && acts.deep_view() == Seq::<ActionV>::empty(),
            batch.room_id@ == old(self).room_v() ==> {
                let bevs = batch.events.deep_view();
                let (fl2, reqs) = note_all(old(self).mems(), old(self).fl(), bevs);
                let newevs = store_insert_all(old(self).evs(), bevs);
                let newmsgs = assemble(newevs, old(self).mems());
                let sel1 = if old(self).msgs().len() == 0 {
                    Option::Some(0usize)
                } else {
                    old(self).sel()
                };
                let (mk, emit) = marker_step(
                    old(self).focus(),
                    old(self).marker(),
                    head_id(newmsgs),
                );
                let buffer = buffer_spec(newmsgs.len() as int, sel1);
                let refetch = refetch_cond(
                    old(self).msgs().len() as int,
                    newmsgs.len() as int,
                    cursor_view(&batch.cursor),
                    buffer,
                );
                &&& final(self).evs() == newevs
                &&& final(self).mems() == old(self).mems()
                &&& final(self).fl() == fl2
                &&& final(self).msgs() == newmsgs
                &&& final(self).sel() == sel1
                &&& final(self).marker() == mk
                &&& final(self).focus() == old(self).focus()
                &&& final(self).cursor() == cursor_view(&batch.cursor)
                &&& final(self).fetching() == refetch
                &&& final(self).room_v() == old(self).room_v()
                &&& acts.deep_view() == member_acts(reqs) + report_acts(emit) + (if refetch {
                    seq![ActionV::FetchMessages { cursor: cursor_view(&batch.cursor) }]
                } else {
                    Seq::<ActionV>::empty()
                })
            },
    {
        let mut acts: Vec<Action> = Vec::new();
        if !(batch.room_id == self.room_id) {
            proof {
                assert(acts.deep_view() =~= Seq::<ActionV>::empty());
            }
            return acts;
        }
        let previous_count = self.messages.len();
        let events = batch.events;
        let ghost bevs = events.deep_view();
        let ghost ms0 = self.mems();
        let ghost fl0 = self.fl();
        let ghost evs0 = self.evs();
        let ghost mut reqs_acc: Seq<Seq<char>> = Seq::empty();
        let n = events.len();
        let mut i: usize = 0;
        proof {
            assert(bevs.skip(0) =~= bevs);
            assert(acts.deep_view() =~= Seq::<ActionV>::empty());
            assert(acts.deep_view() =~= member_acts(reqs_acc));
        }
        while i < n
            invariant
                n == bevs.len(),
                i <= n,
                bevs == events.deep_view(),
                store_wf(self.evs()),
                ms0 == old(self).mems(),
                fl0 == old(self).fl(),
                evs0 == old(self).evs(),
                self.mems() == ms0,
                self.messages == old(self).messages,
                self.pagination == old(self).pagination,
                self.marker == old(self).marker,
                self.selection == old(self).selection,
                self.room_id == old(self).room_id,
                self.room_name == old(self).room_name,
                self.me == old(self).me,
                self.muted == old(self).muted,
                store_insert_all(evs0, bevs) == store_insert_all(
                    self.evs(),
                    bevs.skip(i as int),
                ),
                note_all(ms0, fl0, bevs).0 == note_all(ms0, self.fl(), bevs.skip(i as int)).0,
                note_all(ms0, fl0, bevs).1 == reqs_acc + note_all(
                    ms0,
                    self.fl(),
                    bevs.skip(i as int),
                ).1,
                acts.deep_view() == member_acts(reqs_acc),
            decreases n - i,
        {
            proof {
                assert(bevs.skip(i as int)[0] == bevs[i as int]);
                assert(bevs.skip(i as int).drop_first() =~= bevs.skip(i as int + 1));
            }
            let e = &events[i];
            let ghost fl_before = self.fl();
            let ghost evs_before = self.evs();
            let issue = self.resolver.note_sender(&e.sender_id);
            proof {
                let sk = bevs.skip(i as int);
                let step = note_spec(ms0, fl_before, bevs[i as int].sender_id);
                assert(note_all(ms0, fl_before, sk).0 == note_all(
                    ms0,
                    step.0,
                    bevs.skip(i as int + 1),
                ).0);
                assert(self.fl() == step.0);
                assert(issue == step.1);
                if issue {
                    assert(note_all(ms0, fl_before, sk).1 == seq![bevs[i as int].sender_id]
                        + note_all(ms0, step.0, bevs.skip(i as int + 1)).1);
                } else {
                    assert(note_all(ms0, fl_before, sk).1 == note_all(
                        ms0,
                        step.0,
                        bevs.skip(i as int + 1),
                    ).1);
                }
            }
            if issue {
                let ghost ad = acts.deep_view();
                acts.push(Action::FetchMember { user_id: e.sender_id.clone() });
                proof {
                    assert(acts.deep_view() =~= ad.push(
                        ActionV::FetchMember { user_id: bevs[i as int].sender_id },
                    ));
                    reqs_acc = reqs_acc.push(bevs[i as int].sender_id);
                    assert(acts.deep_view() =~= member_acts(reqs_acc));
                    assert(reqs_acc + note_all(ms0, self.fl(), bevs.skip(i as int + 1)).1
                        =~= reqs_acc.drop_last() + (seq![bevs[i as int].sender_id] + note_all(
                        ms0,
                        self.fl(),
                        bevs.skip(i as int + 1),
                    ).1));
                }
            }
            let ev = e.clone();
            let _added = self.store.ingest(ev);
            proof {
                assert(store_insert_all(evs_before, bevs.skip(i as int)) == store_insert_all(
                    store_insert(evs_before, bevs[i as int]),
                    bevs.skip(i as int + 1),
                ));
            }
            i = i + 1;
        }
        proof {
            assert(bevs.skip(n as int) =~= Seq::<EventV>::empty());
            assert(store_insert_all(self.evs(), Seq::<EventV>::empty()) == self.evs());
            assert(note_all(ms0, self.fl(), Seq::<EventV>::empty()).0 == self.fl());
            assert(note_all(ms0, self.fl(), Seq::<EventV>::empty()).1
                =~= Seq::<Seq<char>>::empty());
            assert(reqs_acc + Seq::<Seq<char>>::empty() =~= reqs_acc);
            assert(self.evs() == store_insert_all(evs0, bevs));
            assert(self.fl() == note_all(ms0, fl0, bevs).0);
            assert(reqs_acc == note_all(ms0, fl0, bevs).1);
        }
        self.messages = make_message_list(self.store.events(), self.resolver.members());
        if previous_count == 0 {
            self.selection.reset_to_newest();
        }
        let head = self.current_head();
        let emit = self.marker.on_message_list_changed(&head);
        let ghost acts1 = acts.deep_view();
        match emit {
            Option::Some(id) => {
                acts.push(Action::ReportRead { event_id: id });
            },
            Option::None => {},
        }
        let ghost emitv = marker_step(
            old(self).focus(),
            old(self).marker(),
            head_id(self.msgs()),
        ).1;
        proof {
            assert(acts.deep_view() =~= acts1 + report_acts(emitv));
        }
        let new_count = self.messages.len();
        let s = match self.selection.selected() {
            Option::Some(i) => i,
            Option::None => 0,
        };
        let buffer = if new_count >= s {
            new_count - s
        } else {
            0
        };
        let fetch = self.pagination.on_batch_applied(previous_count, new_count, batch.cursor, buffer);
        let ghost acts2 = acts.deep_view();
        match fetch {
            Option::Some(c) => {
                acts.push(Action::FetchMessages { cursor: Option::Some(c) });
            },
            Option::None => {},
        }
        proof {
            if self.fetching() {
                assert(acts.deep_view() =~= acts2 + seq![
                    ActionV::FetchMessages { cursor: self.cursor() },
                ]);
            } else {
                assert(acts.deep_view() =~= acts2 + Seq::<ActionV>::empty());
            }
            assert(acts.deep_view() =~= member_acts(note_all(ms0, fl0, bevs).1) + report_acts(
                emitv,
            ) + (if self.fetching() {
                seq![ActionV::FetchMessages { cursor: self.cursor() }]
            } else {
                Seq::<ActionV>::empty()
            }));
        }
        acts
    }

    /// The message the selection cursor points at.
    pub fn selected_message(&self) -> (r: Option<&Message>)
        ensures
            match r {
                Option::Some(m) => selected_msg(self.msgs(), self.sel()) == Option::Some(m@),
                Option::None => selected_msg(self.msgs(), self.sel()) is None,
            },
    {
        if self.messages.len() == 0 {
            return Option::None;
        }
        let i = match self.selection.selected() {
            Option::Some(i) => i,
            Option::None => 0,
        };
        if i < self.messages.len() {
            Option::Some(&self.messages[i])
        } else {
            Option::None
        }
    }

    /// The reactions on the selected message.
    pub fn selected_reactions(&self) -> (r: Vec<Reaction>)
        ensures
            r.deep_view() == (match selected_msg(self.msgs(), self.sel()) {
                Option::Some(m) => m.reactions,
                Option::None => Seq::<crate::message::ReactionV>::empty(),
            }),
    {
        let mut out: Vec<Reaction> = Vec::new();
        match self.selected_message() {
            Option::Some(m) => {
                let n = m.reactions.len();
                let mut i: usize = 0;
                while i < n
                    invariant
                        n == m.reactions@.len(),
                        i <= n,
                        out@.len() == i,
                        forall|k: int|
                            0 <= k < i ==> (#[trigger] out@[k]).deep_view()
                                == m.reactions@[k].deep_view(),
                    decreases n - i,
                {
                    out.push(m.reactions[i].clone());
                    i = i + 1;
                }
                proof {
                    assert(out.deep_view() =~= m.reactions.deep_view());
                }
                out
            },
            Option::None => {
                proof {
                    assert(out.deep_view() =~= Seq::<crate::message::ReactionV>::empty());
                }
                out
            },
        }
    }

    /// The reactions on the selected message that carry one of the
    /// current user's reaction events.
    pub fn my_selected_reactions(&self) -> (r: Vec<Reaction>)
        ensures
            r.deep_view() == mine_buckets(
                (match selected_msg(self.msgs(), self.sel()) {
                    Option::Some(m) => m.reactions,
                    Option::None => Seq::<crate::message::ReactionV>::empty(),
                }),
                self.me_v(),
            ),
    {
        let all = self.selected_reactions();
        let ghost rv = all.deep_view();
        let mut out: Vec<Reaction> = Vec::new();
        let n = all.len();
        let mut i: usize = 0;
        proof {
            assert(rv.skip(0) =~= rv);
            assert(out.deep_view() =~= Seq::<crate::message::ReactionV>::empty());
            assert(Seq::<crate::message::ReactionV>::empty() + mine_buckets(rv, self.me_v())
                =~= mine_buckets(rv, self.me_v()));
        }
        while i < n
            invariant
                n == rv.len(),
                i <= n,
                rv == all.deep_view(),
                out.deep_view() + mine_buckets(rv.skip(i as int), self.me_v()) == mine_buckets(
                    rv,
                    self.me_v(),
                ),
            decreases n - i,
        {
            proof {
                assert(rv.skip(i as int)[0] == rv[i as int]);
                assert(rv.skip(i as int).drop_first() =~= rv.skip(i as int + 1));
            }
            let bucket = &all[i];
            let bn = bucket.events.len();
            let mut mine = false;
            let mut j: usize = 0;
            while j < bn
                invariant
                    bn == rv[i as int].events.len(),
                    i < n,
                    n == rv.len(),
                    rv == all.deep_view(),
                    bucket == &all[i as int],
                    j <= bn,
                    mine == exists|k: int|
                        0 <= k < j && (#[trigger] rv[i as int].events[k]).sender_id == self.me_v(),
                decreases bn - j,
            {
                if bucket.events[j].sender_id == self.me {
                    proof {
                        assert(rv[i as int].events[j as int].sender_id == self.me_v());
                    }
                    mine = true;
                }
                j = j + 1;
            }
            assert(mine == bucket_has_sender(rv[i as int], self.me_v()));
            let ghost od = out.deep_view();
            if mine {
                out.push(bucket.clone());
                proof {
                    assert(out.deep_view() =~= od.push(rv[i as int]));
                    assert(od.push(rv[i as int]) + mine_buckets(rv.skip(i as int + 1), self.me_v())
                        =~= od + (seq![rv[i as int]] + mine_buckets(
                        rv.skip(i as int + 1),
                        self.me_v(),
                    )));
                }
            }
            i = i + 1;
        }
        proof {
            assert(rv.skip(n as int) =~= Seq::<crate::message::ReactionV>::empty());
            assert(mine_buckets(Seq::<crate::message::ReactionV>::empty(), self.me_v())
                =~= Seq::<crate::message::ReactionV>::empty());
            assert(out.deep_view() + Seq::<crate::message::ReactionV>::empty()
                =~= out.deep_view());
        }
        out
    }

    /// The current user's own reaction event with this body on the
    /// selected message, when one exists; its id is what a retraction
    /// must redact.
    pub fn my_selected_reaction_event(&self, body: &String) -> (r: Option<ReactionEvent>)
        ensures
            ({
                let rs = match selected_msg(self.msgs(), self.sel()) {
                    Option::Some(m) => m.reactions,
                    Option::None => Seq::<crate::message::ReactionV>::empty(),
                };
                match r {
                    Option::Some(ev) => my_reaction_event(rs, body@, self.me_v())
                        == Option::Some(ev@),
                    Option::None => my_reaction_event(rs, body@, self.me_v()) is None,
                }
            }),
    {
        let all = self.selected_reactions();
        let ghost rv = all.deep_view();
        let n = all.len();
        let mut i: usize = 0;
        while i < n
            invariant
                n == rv.len(),
                i <= n,
                rv == all.deep_view(),
                rv == (match selected_msg(self.msgs(), self.sel()) {
                    Option::Some(m) => m.reactions,
                    Option::None => Seq::<crate::message::ReactionV>::empty(),
                }),
                forall|k: int| 0 <= k < i ==> (#[trigger] rv[k]).body != body@,
            decreases n - i,
        {
            if all[i].body == *body {
                proof {
                    crate::assemble::lemma_bucket_idx_prefix(rv, body@, 0, i as int);
                }
                let bucket = &all[i];
                let bn = bucket.events.len();
                let mut j: usize = 0;
                while j < bn
                    invariant
                        bn == rv[i as int].events.len(),
                        i < n,
                        n == rv.len(),
                        rv == all.deep_view(),
                        rv == (match selected_msg(self.msgs(), self.sel()) {
                            Option::Some(m) => m.reactions,
                            Option::None => Seq::<crate::message::ReactionV>::empty(),
                        }),
                        crate::message::bucket_idx_from(rv, body@, 0) == i as int,
                        bucket == &all[i as int],
                        j <= bn,
                        forall|k: int|
                            0 <= k < j ==> (#[trigger] rv[i as int].events[k]).sender_id
                                != self.me_v(),
                    decreases bn - j,
                {
                    if bucket.events[j].sender_id == self.me {
                        proof {
                            lemma_ev_idx_prefix(rv[i as int].events, self.me_v(), 0, j as int);
                        }
                        return Option::Some(bucket.events[j].clone());
                    }
                    j = j + 1;
                }
                proof {
                    lemma_ev_idx_none(rv[i as int].events, self.me_v(), 0);
                }
                return Option::None;
            }
            i = i + 1;
        }
        proof {
            crate::assemble::lemma_bucket_idx_none(rv, body@, 0);
        }
        Option::None
    }

    /// Checks whether the buffer above the scroll position is low and, if
    /// so, starts a backward fetch from the stored cursor.
    pub fn try_fetch_previous(&mut self) -> (act: Option<Action>)
        requires
            old(self).wf(),
        ensures
            final(self).wf(),
            ({
                let buffer = buffer_spec(old(self).msgs().len() as int, old(self).sel());
                let would = old(self).cursor() is Some && !old(self).fetching() && buffer
                    < FETCH_AHEAD_THRESHOLD as int;
                &&& (act is Some) == would
                &&& (match act {
                    Option::Some(a) => a@ == (ActionV::FetchMessages {
                        cursor: old(self).cursor(),
                    }),
                    Option::None => true,
                })
                &&& final(self).fetching() == (old(self).fetching() || would)
            }),
            final(self).cursor() == old(self).cursor(),
            final(self).evs() == old(self).evs(),
            final(self).mems() == old(self).mems(),
            final(self).msgs() == old(self).msgs(),
            final(self).marker() == old(self).marker(),
            final(self).focus() == old(self).focus(),
            final(self).sel() == old(self).sel(),
            final(self).fl() == old(self).fl(),
    {
        let len = self.messages.len();
        let s = match self.selection.selected() {
            Option::Some(i) => i,
            Option::None => 0,
        };
        let buffer = if len >= s {
            len - s
        } else {
            0
        };
        match self.pagination.maybe_fetch_more(buffer) {
            Option::Some(c) => Option::Some(
                Action::FetchMessages { cursor: Option::Some(c) },
            ),
            Option::None => Option::None,
        }
    }
}

} // verus!
