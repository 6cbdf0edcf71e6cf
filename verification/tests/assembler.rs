use matui::assemble::make_message_list;
use matui::chat::Chat;
use matui::event::{EventKind, MembershipState, RawEvent, ReactionAction};
use matui::member::Member;
use matui::text::pretty_members;

const ROOM: &str = "!room:server";

fn ev(id: &str, ts: u64, sender: &str, kind: EventKind) -> RawEvent {
    RawEvent {
        id: id.to_string(),
        room_id: ROOM.to_string(),
        timestamp: ts,
        sender_id: sender.to_string(),
        kind,
    }
}

fn root_kind(body: &str) -> EventKind {
    EventKind::RootMessage { body: body.to_string(), attachments: vec![] }
}

fn new_chat() -> Chat {
    Chat::new(
        ROOM.to_string(),
        "Test Room".to_string(),
        "@me:server".to_string(),
        false,
    )
    .0
}

#[test]
fn direct_rebuild_is_newest_first() {
    let events = vec![
        ev("$a", 1, "@x:s", root_kind("one")),
        ev("$b", 2, "@x:s", root_kind("two")),
        ev(
            "$c",
            3,
            "@x:s",
            EventKind::Edit { target_id: "$a".to_string(), new_body: "one!".to_string() },
        ),
    ];
    let members = vec![Member {
        user_id: "@x:s".to_string(),
        display_name: Some("Xavier".to_string()),
        state: MembershipState::Join,
    }];
    let msgs = make_message_list(&events, &members);
    assert_eq!(msgs.len(), 2);
    assert_eq!(msgs[0].id, "$b");
    assert_eq!(msgs[0].sender, "Xavier");
    assert_eq!(msgs[1].id, "$a");
    assert_eq!(msgs[1].body, "one!");
    assert!(msgs[1].edited);
}

#[test]
fn unknown_targets_are_dropped_silently() {
    let mut chat = new_chat();
    chat.timeline_event(ev("$m1", 10, "@a:s", root_kind("hi")));
    // an edit, a reaction and a redaction against ids nobody knows
    chat.timeline_event(ev(
        "$m2",
        20,
        "@a:s",
        EventKind::Edit { target_id: "$ghost".to_string(), new_body: "x".to_string() },
    ));
    chat.timeline_event(ev(
        "$m3",
        30,
        "@a:s",
        EventKind::Reaction {
            target_id: "$ghost".to_string(),
            body: "👍".to_string(),
            action: ReactionAction::Add,
        },
    ));
    chat.timeline_event(ev(
        "$m4",
        40,
        "@a:s",
        EventKind::Reaction {
            target_id: "$ghost".to_string(),
            body: "👍".to_string(),
            action: ReactionAction::Remove,
        },
    ));
    chat.timeline_event(ev(
        "$m5",
        50,
        "@a:s",
        EventKind::Redaction { target_id: "$ghost".to_string() },
    ));
    let msgs = chat.messages();
    assert_eq!(msgs.len(), 1);
    assert_eq!(msgs[0].body, "hi");
    assert!(!msgs[0].edited);
    assert_eq!(msgs[0].reactions.len(), 0);
}

#[test]
fn membership_event_changes_no_message() {
    let mut chat = new_chat();
    chat.timeline_event(ev("$m1", 10, "@a:s", root_kind("hi")));
    let before: Vec<String> = chat.messages().iter().map(|m| m.body.clone()).collect();
    let acts = chat.timeline_event(ev(
        "$m2",
        20,
        "@newcomer:s",
        EventKind::Membership { state: MembershipState::Join },
    ));
    let after: Vec<String> = chat.messages().iter().map(|m| m.body.clone()).collect();
    assert_eq!(before, after);
    // the membership hint still triggers a lookup of the unknown sender
    assert!(acts.iter().any(|a| matches!(
        a,
        matui::chat::Action::FetchMember { user_id } if user_id == "@newcomer:s"
    )));
}

#[test]
fn empty_room_renders_empty() {
    let chat = new_chat();
    assert!(chat.messages().is_empty());
    assert_eq!(chat.pretty_members(), "");
    assert_eq!(
        chat.display_full(),
        "Test Room (!room:server)\n\n# Members\n\n"
    );
}

#[test]
fn pretty_members_empty_when_nobody_joined() {
    let members = vec![Member {
        user_id: "@gone:s".to_string(),
        display_name: Some("Gone".to_string()),
        state: MembershipState::Leave,
    }];
    assert_eq!(pretty_members(&members), "");
}

#[test]
fn attachments_ride_along_on_roots() {
    let events = vec![ev(
        "$a",
        1,
        "@x:s",
        EventKind::RootMessage {
            body: "see attached".to_string(),
            attachments: vec!["mxc://server/file".to_string()],
        },
    )];
    let msgs = make_message_list(&events, &Vec::new());
    assert_eq!(msgs.len(), 1);
    assert_eq!(msgs[0].body, "see attached");
}
