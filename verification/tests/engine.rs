use matui::chat::{Action, Batch, Chat};
use matui::event::{EventKind, MembershipState, RawEvent, ReactionAction};
use matui::member::Member;

const ROOM: &str = "!room:server";

fn root(id: &str, ts: u64, sender: &str, body: &str) -> RawEvent {
    RawEvent {
        id: id.to_string(),
        room_id: ROOM.to_string(),
        timestamp: ts,
        sender_id: sender.to_string(),
        kind: EventKind::RootMessage { body: body.to_string(), attachments: vec![] },
    }
}

fn edit(id: &str, ts: u64, sender: &str, target: &str, new_body: &str) -> RawEvent {
    RawEvent {
        id: id.to_string(),
        room_id: ROOM.to_string(),
        timestamp: ts,
        sender_id: sender.to_string(),
        kind: EventKind::Edit { target_id: target.to_string(), new_body: new_body.to_string() },
    }
}

fn react_add(id: &str, ts: u64, sender: &str, target: &str, body: &str) -> RawEvent {
    RawEvent {
        id: id.to_string(),
        room_id: ROOM.to_string(),
        timestamp: ts,
        sender_id: sender.to_string(),
        kind: EventKind::Reaction {
            target_id: target.to_string(),
            body: body.to_string(),
            action: ReactionAction::Add,
        },
    }
}

fn react_remove(id: &str, ts: u64, sender: &str, original: &str, body: &str) -> RawEvent {
    RawEvent {
        id: id.to_string(),
        room_id: ROOM.to_string(),
        timestamp: ts,
        sender_id: sender.to_string(),
        kind: EventKind::Reaction {
            target_id: original.to_string(),
            body: body.to_string(),
            action: ReactionAction::Remove,
        },
    }
}

fn redact(id: &str, ts: u64, sender: &str, target: &str) -> RawEvent {
    RawEvent {
        id: id.to_string(),
        room_id: ROOM.to_string(),
        timestamp: ts,
        sender_id: sender.to_string(),
        kind: EventKind::Redaction { target_id: target.to_string() },
    }
}

fn new_chat() -> Chat {
    let (chat, initial) = Chat::new(
        ROOM.to_string(),
        "Test Room".to_string(),
        "@me:server".to_string(),
        false,
    );
    assert!(matches!(initial, Action::FetchMessages { cursor: None }));
    chat
}

fn shape(chat: &Chat) -> Vec<(String, String, bool)> {
    chat.messages()
        .iter()
        .map(|m| (m.id.clone(), m.body.clone(), m.edited))
        .collect()
}

fn has_fetch(acts: &[Action]) -> bool {
    acts.iter().any(|a| matches!(a, Action::FetchMessages { .. }))
}

fn fetch_cursor(acts: &[Action]) -> Option<String> {
    acts.iter().find_map(|a| match a {
        Action::FetchMessages { cursor } => cursor.clone(),
        _ => None,
    })
}

fn reported(acts: &[Action]) -> Option<String> {
    acts.iter().find_map(|a| match a {
        Action::ReportRead { event_id } => Some(event_id.clone()),
        _ => None,
    })
}

fn member_lookups(acts: &[Action]) -> Vec<String> {
    acts.iter()
        .filter_map(|a| match a {
            Action::FetchMember { user_id } => Some(user_id.clone()),
            _ => None,
        })
        .collect()
}

#[test]
fn single_message_appears() {
    let mut chat = new_chat();
    chat.timeline_event(root("$e1", 10, "@alice:server", "hi"));
    assert_eq!(shape(&chat), vec![("$e1".to_string(), "hi".to_string(), false)]);
    // sender renders as the raw id until resolved
    assert_eq!(chat.messages()[0].sender, "@alice:server");
}

#[test]
fn dedup_idempotence() {
    let mut once = new_chat();
    once.timeline_event(root("$e1", 10, "@a:s", "hi"));

    let mut twice = new_chat();
    twice.timeline_event(root("$e1", 10, "@a:s", "hi"));
    twice.timeline_event(root("$e1", 10, "@a:s", "hi"));
    assert_eq!(shape(&once), shape(&twice));

    // a duplicate id is invisible even with a different timestamp or body
    twice.timeline_event(root("$e1", 99, "@a:s", "changed"));
    assert_eq!(shape(&once), shape(&twice));
}

#[test]
fn order_independence() {
    let evs = vec![
        root("$m1", 10, "@a:s", "first"),
        root("$m2", 20, "@b:s", "second"),
        edit("$m3", 30, "@a:s", "$m1", "first!"),
        react_add("$m4", 40, "@b:s", "$m2", "👍"),
    ];
    let mut forward = new_chat();
    for e in evs.iter() {
        forward.timeline_event(e.clone());
    }
    let mut backward = new_chat();
    for e in evs.iter().rev() {
        backward.timeline_event(e.clone());
    }
    assert_eq!(shape(&forward), shape(&backward));
    assert_eq!(
        forward.messages()[0].reactions.len(),
        backward.messages()[0].reactions.len()
    );
}

#[test]
fn reaction_add_then_remove_leaves_no_bucket() {
    let mut chat = new_chat();
    chat.timeline_event(root("$e1", 10, "@a:s", "hi"));
    chat.timeline_event(react_add("$e2", 20, "@b:s", "$e1", "👍"));
    assert_eq!(chat.messages()[0].reactions.len(), 1);
    chat.timeline_event(react_remove("$e3", 30, "@b:s", "$e2", "👍"));
    assert_eq!(chat.messages()[0].reactions.len(), 0);
}

#[test]
fn reaction_two_senders_one_bucket() {
    let mut chat = new_chat();
    chat.timeline_event(root("$e1", 10, "@a:s", "hi"));
    chat.timeline_event(react_add("$e2", 20, "@b:s", "$e1", "👍"));
    chat.timeline_event(react_add("$e3", 30, "@c:s", "$e1", "👍"));
    let msgs = chat.messages();
    assert_eq!(msgs[0].reactions.len(), 1);
    assert_eq!(msgs[0].reactions[0].body, "👍");
    assert_eq!(msgs[0].reactions[0].events.len(), 2);
    assert_eq!(msgs[0].reactions[0].events[0].sender_id, "@b:s");
    assert_eq!(msgs[0].reactions[0].events[1].sender_id, "@c:s");
}

#[test]
fn edit_precedence_latest_timestamp_wins() {
    let mut chat = new_chat();
    chat.timeline_event(root("$e1", 10, "@a:s", "original"));
    // the later edit arrives first
    chat.timeline_event(edit("$e3", 50, "@a:s", "$e1", "late"));
    chat.timeline_event(edit("$e2", 30, "@a:s", "$e1", "early"));
    assert_eq!(shape(&chat), vec![("$e1".to_string(), "late".to_string(), true)]);
}

#[test]
fn edit_precedence_tie_breaks_by_id() {
    let mut chat = new_chat();
    chat.timeline_event(root("$e1", 10, "@a:s", "original"));
    chat.timeline_event(edit("$zz", 50, "@a:s", "$e1", "larger id"));
    chat.timeline_event(edit("$aa", 50, "@a:s", "$e1", "smaller id"));
    assert_eq!(chat.messages()[0].body, "larger id");
}

#[test]
fn redaction_of_reaction_event() {
    // a root, a reaction on it, then a redaction of the reaction event:
    // one message with no reactions is left
    let mut chat = new_chat();
    chat.timeline_event(root("$e1", 10, "@a:s", "hi"));
    chat.timeline_event(react_add("$e2", 20, "@b:s", "$e1", "👍"));
    chat.timeline_event(redact("$e3", 30, "@a:s", "$e2"));
    assert_eq!(shape(&chat), vec![("$e1".to_string(), "hi".to_string(), false)]);
    assert_eq!(chat.messages()[0].reactions.len(), 0);
}

#[test]
fn redaction_of_root_removes_message() {
    let mut chat = new_chat();
    chat.timeline_event(root("$e1", 10, "@a:s", "hi"));
    chat.timeline_event(root("$e2", 20, "@a:s", "there"));
    chat.timeline_event(redact("$e3", 30, "@a:s", "$e1"));
    assert_eq!(shape(&chat), vec![("$e2".to_string(), "there".to_string(), false)]);
}

#[test]
fn late_root_revives_dropped_modifiers() {
    // modifiers that arrive before their target apply once it arrives
    let mut chat = new_chat();
    chat.timeline_event(edit("$e2", 30, "@a:s", "$e1", "edited"));
    assert_eq!(chat.messages().len(), 0);
    chat.timeline_event(root("$e1", 10, "@a:s", "original"));
    assert_eq!(shape(&chat), vec![("$e1".to_string(), "edited".to_string(), true)]);
}

#[test]
fn newest_first_and_tie_break_by_id() {
    let mut chat = new_chat();
    chat.timeline_event(root("$a", 10, "@x:s", "one"));
    chat.timeline_event(root("$b", 10, "@x:s", "two"));
    chat.timeline_event(root("$c", 5, "@x:s", "zero"));
    let ids: Vec<String> = chat.messages().iter().map(|m| m.id.clone()).collect();
    // ascending order is $c, $a, $b; the view is newest first
    assert_eq!(ids, vec!["$b".to_string(), "$a".to_string(), "$c".to_string()]);
}

#[test]
fn pagination_stall_guard() {
    let mut chat = new_chat();
    // the initial fetch result: three events, a cursor, progress was made
    let acts = chat.batch_event(Batch {
        room_id: ROOM.to_string(),
        events: vec![
            root("$e1", 10, "@a:s", "one"),
            root("$e2", 20, "@a:s", "two"),
            root("$e3", 30, "@a:s", "three"),
        ],
        cursor: Some("tok0".to_string()),
    });
    // progress plus a low buffer: the engine keeps filling
    assert_eq!(fetch_cursor(&acts), Some("tok0".to_string()));

    // the follow-up returns only duplicates with a fresh cursor
    let acts = chat.batch_event(Batch {
        room_id: ROOM.to_string(),
        events: vec![
            root("$e1", 10, "@a:s", "one"),
            root("$e2", 20, "@a:s", "two"),
            root("$e3", 30, "@a:s", "three"),
        ],
        cursor: Some("tok1".to_string()),
    });
    assert_eq!(chat.messages().len(), 3);
    assert!(!has_fetch(&acts), "a batch without progress must not refetch");

    // the cursor was still stored: a user-driven check picks it up
    let act = chat.try_fetch_previous();
    match act {
        Some(Action::FetchMessages { cursor }) => assert_eq!(cursor, Some("tok1".to_string())),
        _ => panic!("expected a fetch from the stored cursor"),
    }
}

#[test]
fn pagination_buffer_threshold() {
    // a batch that fills the buffer to the threshold stops fetching
    let mut chat = new_chat();
    let mut events = Vec::new();
    for i in 0..25 {
        events.push(root(&format!("$e{:03}", i), 10 + i as u64, "@a:s", "m"));
    }
    let acts = chat.batch_event(Batch {
        room_id: ROOM.to_string(),
        events,
        cursor: Some("tok0".to_string()),
    });
    // buffer is 25, not below the threshold
    assert!(!has_fetch(&acts));

    // one message fewer and the engine keeps fetching
    let mut chat = new_chat();
    let mut events = Vec::new();
    for i in 0..24 {
        events.push(root(&format!("$e{:03}", i), 10 + i as u64, "@a:s", "m"));
    }
    let acts = chat.batch_event(Batch {
        room_id: ROOM.to_string(),
        events,
        cursor: Some("tok0".to_string()),
    });
    assert!(has_fetch(&acts));
}

#[test]
fn pagination_no_cursor_no_fetch() {
    let mut chat = new_chat();
    let acts = chat.batch_event(Batch {
        room_id: ROOM.to_string(),
        events: vec![root("$e1", 10, "@a:s", "one")],
        cursor: None,
    });
    assert!(!has_fetch(&acts), "no cursor means history is exhausted");
    assert!(chat.try_fetch_previous().is_none());
}

#[test]
fn member_dedup() {
    let mut chat = new_chat();
    let acts = chat.timeline_event(root("$e1", 10, "@alice:server", "hi"));
    assert_eq!(member_lookups(&acts), vec!["@alice:server".to_string()]);
    // same unresolved sender again: no second lookup
    let acts = chat.timeline_event(root("$e2", 20, "@alice:server", "again"));
    assert_eq!(member_lookups(&acts), Vec::<String>::new());
    // once resolved, the display name shows and no lookup is issued
    chat.room_member_event(
        &ROOM.to_string(),
        Member {
            user_id: "@alice:server".to_string(),
            display_name: Some("Alice".to_string()),
            state: MembershipState::Join,
        },
    );
    assert_eq!(chat.messages()[0].sender, "Alice");
    let acts = chat.timeline_event(root("$e3", 30, "@alice:server", "more"));
    assert_eq!(member_lookups(&acts), Vec::<String>::new());
}

#[test]
fn resolve_overwrites() {
    let mut chat = new_chat();
    chat.timeline_event(root("$e1", 10, "@a:s", "hi"));
    let member = |name: &str| Member {
        user_id: "@a:s".to_string(),
        display_name: Some(name.to_string()),
        state: MembershipState::Join,
    };
    chat.room_member_event(&ROOM.to_string(), member("First"));
    assert_eq!(chat.messages()[0].sender, "First");
    chat.room_member_event(&ROOM.to_string(), member("Second"));
    assert_eq!(chat.messages()[0].sender, "Second");
}

#[test]
fn read_marker_suppression() {
    let mut chat = new_chat();
    let acts = chat.timeline_event(root("$e1", 10, "@a:s", "hi"));
    assert_eq!(reported(&acts), Some("$e1".to_string()));
    // an older event does not change the head: nothing is re-reported
    let acts = chat.timeline_event(root("$e0", 5, "@a:s", "earlier"));
    assert_eq!(reported(&acts), None);
    // a newer event moves the head
    let acts = chat.timeline_event(root("$e2", 20, "@a:s", "newer"));
    assert_eq!(reported(&acts), Some("$e2".to_string()));
}

#[test]
fn read_marker_focus_gate() {
    let mut chat = new_chat();
    chat.blur_event();
    let acts = chat.timeline_event(root("$e1", 10, "@a:s", "hi"));
    assert_eq!(reported(&acts), None, "nothing is reported without focus");
    let act = chat.focus_event();
    match act {
        Some(Action::ReportRead { event_id }) => assert_eq!(event_id, "$e1"),
        _ => panic!("regaining focus reports the unseen head"),
    }
    // focus again with an unchanged head: suppressed
    assert!(chat.focus_event().is_none());
}

#[test]
fn selection_moves_and_clamps() {
    let mut chat = new_chat();
    assert!(chat.selected_message().is_none());
    chat.timeline_event(root("$e1", 10, "@a:s", "one"));
    chat.timeline_event(root("$e2", 20, "@a:s", "two"));
    // first move selects the newest message
    chat.next();
    assert_eq!(chat.selected_message().unwrap().id, "$e2");
    chat.next();
    assert_eq!(chat.selected_message().unwrap().id, "$e1");
    // clamped at the oldest
    chat.next();
    assert_eq!(chat.selected_message().unwrap().id, "$e1");
    chat.previous();
    assert_eq!(chat.selected_message().unwrap().id, "$e2");
    // clamped at the newest
    chat.previous();
    assert_eq!(chat.selected_message().unwrap().id, "$e2");
}

#[test]
fn my_reactions_on_selection() {
    let mut chat = new_chat();
    chat.timeline_event(root("$e1", 10, "@a:s", "hi"));
    chat.timeline_event(react_add("$e2", 20, "@me:server", "$e1", "👍"));
    chat.timeline_event(react_add("$e3", 30, "@b:s", "$e1", "🎉"));
    chat.next();
    assert_eq!(chat.selected_reactions().len(), 2);
    let mine = chat.my_selected_reactions();
    assert_eq!(mine.len(), 1);
    assert_eq!(mine[0].body, "👍");
    let ev = chat.my_selected_reaction_event(&"👍".to_string()).unwrap();
    assert_eq!(ev.id, "$e2");
    assert_eq!(ev.sender_id, "@me:server");
    assert!(chat.my_selected_reaction_event(&"🎉".to_string()).is_none());
}

#[test]
fn other_rooms_are_ignored() {
    let mut chat = new_chat();
    let mut foreign = root("$e1", 10, "@a:s", "hi");
    foreign.room_id = "!other:server".to_string();
    let acts = chat.timeline_event(foreign);
    assert!(acts.is_empty());
    assert!(chat.messages().is_empty());

    let acts = chat.batch_event(Batch {
        room_id: "!other:server".to_string(),
        events: vec![root("$e2", 20, "@a:s", "hi")],
        cursor: Some("tok".to_string()),
    });
    assert!(acts.is_empty());
    assert!(chat.messages().is_empty());
}

#[test]
fn muted_and_room() {
    let (chat, _) = Chat::new(
        ROOM.to_string(),
        "Test Room".to_string(),
        "@me:server".to_string(),
        true,
    );
    assert!(chat.muted());
    assert_eq!(chat.room().as_str(), ROOM);
}
