use pptalk::contacts::{author_label, ContactKey};
use pptalk::group::GroupProfile;
use pptalk::history::{group_messages, GroupMessage};
use pptalk::ids::{ConversationId, DeviceId, EventId, IdentityId};
use pptalk::ordered::SortedMap;
use pptalk::protocol::{ConversationEvent, EventBody, MessageContent, PROTOCOL_VERSION};

fn group_id() -> ConversationId {
    ConversationId::from_bytes([9; 32])
}

fn team() -> Vec<GroupProfile> {
    vec![GroupProfile {
        id: group_id(),
        name: "Team".into(),
        owner: IdentityId::from_bytes([1; 32]),
        admins: vec![],
        members: vec![IdentityId::from_bytes([1; 32]), IdentityId::from_bytes([2; 32])],
        member_devices: vec![],
        history_since_ms: vec![],
    }]
}

fn event(author: u8, id: u8, time: i64, body: EventBody) -> ConversationEvent {
    ConversationEvent {
        version: PROTOCOL_VERSION,
        conversation_id: group_id(),
        event_id: EventId::from_bytes([id; 32]),
        author_identity: IdentityId::from_bytes([author; 32]),
        author_device: DeviceId::from_bytes([author; 32]),
        device_sequence: id as u64,
        causal_frontier: SortedMap::new(),
        logical_time_ms: time,
        body,
    }
}

fn content(text: &str) -> MessageContent {
    MessageContent {
        text: text.into(),
        reply_to: None,
        attachment_ids: vec![],
    }
}

fn texts(messages: &[GroupMessage]) -> Vec<(&str, bool, bool)> {
    messages.iter().map(|m| (m.text.as_str(), m.edited, m.deleted)).collect()
}

#[test]
fn history_applies_edits_and_deletions_of_their_authors_only() {
    let first = EventId::from_bytes([10; 32]);
    let second = EventId::from_bytes([11; 32]);
    let events = vec![
        event(1, 10, 1_000, EventBody::MessageCreate { content: content("hello") }),
        event(2, 11, 2_000, EventBody::MessageCreate { content: content("hi") }),
        // Another member cannot edit or delete the first message.
        event(2, 12, 3_000, EventBody::MessageEdit { target: first, content: content("hijacked") }),
        event(2, 13, 3_500, EventBody::MessageDelete { target: first }),
        // Its author can.
        event(1, 14, 4_000, EventBody::MessageEdit { target: first, content: content("hello there") }),
        event(2, 15, 5_000, EventBody::MessageDelete { target: second }),
        // A rename shows no message; an edit of an unknown message changes nothing.
        event(1, 16, 6_000, EventBody::GroupRename { name: "Crew".into() }),
        event(1, 17, 7_000, EventBody::MessageEdit { target: EventId::from_bytes([99; 32]), content: content("x") }),
    ];
    let messages = group_messages(&team(), group_id(), &events).expect("known group");
    assert_eq!(texts(&messages), vec![("hello there", true, false), ("", false, true)]);
    assert_eq!(messages[0].message_id, first);
    assert_eq!(messages[0].logical_time_ms, 1_000);
    assert_eq!(messages[1].author_identity, IdentityId::from_bytes([2; 32]));
}

#[test]
fn a_deleted_message_edited_again_stays_deleted() {
    let first = EventId::from_bytes([10; 32]);
    let events = vec![
        event(1, 10, 1_000, EventBody::MessageCreate { content: content("draft") }),
        event(1, 11, 2_000, EventBody::MessageDelete { target: first }),
        event(1, 12, 3_000, EventBody::MessageEdit { target: first, content: content("back") }),
    ];
    let messages = group_messages(&team(), group_id(), &events).expect("known group");
    assert_eq!(texts(&messages), vec![("back", true, true)]);
}

#[test]
fn history_of_an_unknown_group_is_refused() {
    assert!(group_messages(&team(), ConversationId::from_bytes([3; 32]), &[]).is_none());
    assert!(group_messages(&team(), group_id(), &[]).expect("known group").is_empty());
}

#[test]
fn authors_are_named_by_profile_contact_or_identifier() {
    let local = IdentityId::from_bytes([1; 32]);
    let contacts = vec![
        ContactKey {
            name: "Bob".into(),
            identity_id: IdentityId::from_bytes([2; 32]),
            device_id: DeviceId::from_bytes([21; 32]),
            blocked: false,
            removed: false,
            manually_verified: false,
            hide_presence: false,
        },
        ContactKey {
            name: "Bobby".into(),
            identity_id: IdentityId::from_bytes([2; 32]),
            device_id: DeviceId::from_bytes([22; 32]),
            blocked: false,
            removed: false,
            manually_verified: false,
            hide_presence: false,
        },
    ];
    assert_eq!(author_label(local, "Alice", &contacts, local), "Alice");
    assert_eq!(author_label(local, "Alice", &contacts, IdentityId::from_bytes([2; 32])), "Bob");
    assert_eq!(author_label(local, "Alice", &contacts, IdentityId::from_bytes([0xab; 32])), "abababababab");
}
