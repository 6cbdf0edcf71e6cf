//! Raw room events and their mathematical model.
//!
//! A `RawEvent` is an immutable record delivered by the backend: a root
//! message, an edit, a reaction, a redaction, or a membership change.  Its
//! spec-level value (`EventV`) carries the same data over `Seq<char>` and
//! `int`, so that contracts can speak of events independently of `String`
//! allocation identity.

use vstd::prelude::*;

use crate::order::lex_lt;

verus! {

/// Whether a reaction event adds a reaction or retracts a prior one.
#[derive(Clone, Copy, PartialEq, Eq, Structural, Debug)]
pub enum ReactionAction {
    Add,
    Remove,
}

/// The membership state a member event carries.
#[derive(Clone, Copy, PartialEq, Eq, Structural, Debug)]
pub enum MembershipState {
    Join,
    Invite,
    Leave,
    Ban,
    Knock,
}

/// The payload of a raw event.
///
/// For `Reaction` with action `Add`, `target_id` names the root message
/// being reacted to.  For `Reaction` with action `Remove`, `target_id`
/// names the original reaction event being retracted.  For `Redaction`,
/// `target_id` names either a root message (which removes the message) or
/// a prior reaction event (which removes that single reaction).
#[derive(Debug)]
pub enum EventKind {
    RootMessage { body: String, attachments: Vec<String> },
    Edit { target_id: String, new_body: String },
    Reaction { target_id: String, body: String, action: ReactionAction },
    Redaction { target_id: String },
    Membership { state: MembershipState },
}

/// Spec-level value of an `EventKind`.
#[verifier::ext_equal]
pub enum KindV {
    RootMessage { body: Seq<char>, attachments: Seq<Seq<char>> },
    Edit { target_id: Seq<char>, new_body: Seq<char> },
    Reaction { target_id: Seq<char>, body: Seq<char>, action: ReactionAction },
    Redaction { target_id: Seq<char> },
    Membership { state: MembershipState },
}

impl View for EventKind {
    type V = KindV;

    open spec fn view(&self) -> KindV {
        match self {
            EventKind::RootMessage { body, attachments } => KindV::RootMessage {
                body: body@,
                attachments: attachments.deep_view(),
            },
            EventKind::Edit { target_id, new_body } => KindV::Edit {
                target_id: target_id@,
                new_body: new_body@,
            },
            EventKind::Reaction { target_id, body, action } => KindV::Reaction {
                target_id: target_id@,
                body: body@,
                action: *action,
            },
            EventKind::Redaction { target_id } => KindV::Redaction { target_id: target_id@ },
            EventKind::Membership { state } => KindV::Membership { state: *state },
        }
    }
}

impl DeepView for EventKind {
    type V = KindV;

    open spec fn deep_view(&self) -> KindV {
        self.view()
    }
}

/// An immutable room event as delivered by the backend.
///
/// `id` is opaque and globally unique; it is the sole deduplication key.
/// `timestamp` is roughly monotonic but not unique.
#[derive(Debug)]
pub struct RawEvent {
    pub id: String,
    pub room_id: String,
    pub timestamp: u64,
    pub sender_id: String,
    pub kind: EventKind,
}

/// Spec-level value of a `RawEvent`.
#[verifier::ext_equal]
pub struct EventV {
    pub id: Seq<char>,
    pub room_id: Seq<char>,
    pub timestamp: int,
    pub sender_id: Seq<char>,
    pub kind: KindV,
}

impl View for RawEvent {
    type V = EventV;

    open spec fn view(&self) -> EventV {
        EventV {
            id: self.id@,
            room_id: self.room_id@,
            timestamp: self.timestamp as int,
            sender_id: self.sender_id@,
            kind: self.kind@,
        }
    }
}

impl DeepView for RawEvent {
    type V = EventV;

    open spec fn deep_view(&self) -> EventV {
        self.view()
    }
}

impl Clone for EventKind {
    fn clone(&self) -> (r: Self)
        ensures
            r@ == self@,
    {
        match self {
            EventKind::RootMessage { body, attachments } => {
                let mut atts: Vec<String> = Vec::new();
                let mut i: usize = 0;
                while i < attachments.len()
                    invariant
                        i <= attachments.len(),
                        atts@.len() == i,
                        forall|k: int| 0 <= k < i ==> (#[trigger] atts@[k])@ == attachments@[k]@,
                    decreases attachments.len() - i,
                {
                    atts.push(attachments[i].clone());
                    i = i + 1;
                }
                proof {
                    assert(atts.deep_view() =~= attachments.deep_view());
                }
                EventKind::RootMessage { body: body.clone(), attachments: atts }
            },
            EventKind::Edit { target_id, new_body } => EventKind::Edit {
                target_id: target_id.clone(),
                new_body: new_body.clone(),
            },
            EventKind::Reaction { target_id, body, action } => EventKind::Reaction {
                target_id: target_id.clone(),
                body: body.clone(),
                action: *action,
            },
            EventKind::Redaction { target_id } => EventKind::Redaction {
                target_id: target_id.clone(),
            },
            EventKind::Membership { state } => EventKind::Membership { state: *state },
        }
    }
}

impl Clone for RawEvent {
    fn clone(&self) -> (r: Self)
        ensures
            r@ == self@,
    {
        RawEvent {
            id: self.id.clone(),
            room_id: self.room_id.clone(),
            timestamp: self.timestamp,
            sender_id: self.sender_id.clone(),
            kind: self.kind.clone(),
        }
    }
}

/// The strict timeline order: ascending timestamp, ties broken by id.
pub open spec fn ev_lt(a: EventV, b: EventV) -> bool {
    a.timestamp < b.timestamp || (a.timestamp == b.timestamp && lex_lt(a.id, b.id))
}

/// Two distinct events are ordered one way or the other unless they share
/// both timestamp and id.
pub proof fn lemma_ev_connected(a: EventV, b: EventV)
    requires
        !ev_lt(a, b),
        !ev_lt(b, a),
    ensures
        a.timestamp == b.timestamp,
        a.id == b.id,
{
    crate::order::lemma_lex_connected(a.id, b.id);
}

/// The timeline order is asymmetric.
pub proof fn lemma_ev_asym(a: EventV, b: EventV)
    requires
        ev_lt(a, b),
    ensures
        !ev_lt(b, a),
{
    if a.timestamp == b.timestamp {
        crate::order::lemma_lex_asym(a.id, b.id);
    }
}

/// The timeline order is transitive.
pub proof fn lemma_ev_trans(a: EventV, b: EventV, c: EventV)
    requires
        ev_lt(a, b),
        ev_lt(b, c),
    ensures
        ev_lt(a, c),
{
    if a.timestamp == b.timestamp && b.timestamp == c.timestamp {
        crate::order::lemma_lex_trans(a.id, b.id, c.id);
    }
}

/// Compares two events in the timeline order.
pub fn event_before(a: &RawEvent, b: &RawEvent) -> (r: bool)
    ensures
        r == ev_lt(a@, b@),
{
    if a.timestamp < b.timestamp {
        true
    } else if a.timestamp == b.timestamp {
        crate::order::str_lt(a.id.as_str(), b.id.as_str())
    } else {
        false
    }
}

/// True of events that originate a display message.
pub open spec fn is_root(e: EventV) -> bool {
    e.kind is RootMessage
}

} // verus!
