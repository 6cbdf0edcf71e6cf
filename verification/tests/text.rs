use matui::chat::Chat;
use matui::event::MembershipState;
use matui::member::Member;
use matui::text::{display_full, first_word, localpart, pretty_list, pretty_members};

fn member(user_id: &str, name: Option<&str>, state: MembershipState) -> Member {
    Member {
        user_id: user_id.to_string(),
        display_name: name.map(|n| n.to_string()),
        state,
    }
}

#[test]
fn localpart_strips_sigil_and_server() {
    assert_eq!(localpart("@alice:example.org"), "alice");
    assert_eq!(localpart("@bob:srv"), "bob");
    assert_eq!(localpart("plain"), "plain");
    assert_eq!(localpart("@nocolon"), "nocolon");
    assert_eq!(localpart(""), "");
}

#[test]
fn first_word_splits_on_whitespace() {
    assert_eq!(first_word("Alice Smith"), "Alice");
    assert_eq!(first_word("  padded name"), "padded");
    assert_eq!(first_word("single"), "single");
    assert_eq!(first_word("   "), "");
    assert_eq!(first_word(""), "");
}

#[test]
fn pretty_list_shapes() {
    let items = |v: &[&str]| v.iter().map(|s| s.to_string()).collect::<Vec<_>>();
    assert_eq!(pretty_list(&items(&[])), "");
    assert_eq!(pretty_list(&items(&["a"])), "a");
    assert_eq!(pretty_list(&items(&["a", "b"])), "a and b");
    assert_eq!(pretty_list(&items(&["a", "b", "c"])), "a, b and c");
}

#[test]
fn pretty_members_sorts_dedups_and_filters() {
    let members = vec![
        member("@zoe:s", Some("Zoe Q"), MembershipState::Join),
        member("@bob:s", Some("Bob Jones"), MembershipState::Join),
        member("@bob2:s", Some("Bob Other"), MembershipState::Join),
        member("@carl:s", Some("Carl"), MembershipState::Leave),
        member("@alice:s", None, MembershipState::Join),
    ];
    // joined labels: Zoe, Bob, Bob, alice; sorted and deduplicated:
    // capital letters order before lower-case ones
    assert_eq!(pretty_members(&members), "Bob, Zoe and alice");
}

#[test]
fn pretty_members_caps_at_ten() {
    let mut members = Vec::new();
    for i in 0..12 {
        members.push(member(
            &format!("@u{:02}:s", i),
            Some(&format!("n{:02}", i)),
            MembershipState::Join,
        ));
    }
    let line = pretty_members(&members);
    assert_eq!(
        line,
        "n00, n01, n02, n03, n04, n05, n06, n07, n08 and n09"
    );
}

#[test]
fn display_full_lists_members() {
    let members = vec![
        member("@alice:s", Some("Alice"), MembershipState::Join),
        member("@bob:s", None, MembershipState::Leave),
    ];
    let text = display_full(
        &"My Room".to_string(),
        &"!r:s".to_string(),
        &members,
    );
    assert_eq!(
        text,
        "My Room (!r:s)\n\n# Members\n\n* Alice (@alice:s)\n* @bob:s (@bob:s)\n"
    );
}

#[test]
fn chat_exposes_summary_and_info() {
    let (mut chat, _) = Chat::new(
        "!r:s".to_string(),
        "My Room".to_string(),
        "@me:s".to_string(),
        false,
    );
    chat.room_member_event(
        &"!r:s".to_string(),
        member("@alice:s", Some("Alice Liddell"), MembershipState::Join),
    );
    assert_eq!(chat.pretty_members(), "Alice");
    assert_eq!(
        chat.display_full(),
        "My Room (!r:s)\n\n# Members\n\n* Alice Liddell (@alice:s)\n"
    );
}
