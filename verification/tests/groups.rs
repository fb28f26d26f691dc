use std::collections::BTreeMap;

use pptalk::client::{
    attachment_chunk_ok, attachment_manifest_ok, attachment_size_ok, combine_delivery, direct_message_id,
    ordered_chunks, sender_device_proof, Delivery,
};
use pptalk::group::{
    check_commit, check_dissolve, check_event_author, check_file_chunk, check_file_offer, check_member,
    check_mutation, check_profile_update, check_replayed_event, check_welcome, events_to_replay, find_group,
    groups_missing_device, history_floor, identity_devices, revoked_devices, without_devices, CommitEffect,
    GroupProfile, GroupRuleError,
};
use pptalk::identity::{DeviceKeyPair, IdentityEvent, IdentityEventKind, IdentityLog};
use pptalk::ids::{ConversationId, DeviceId, EventId, IdentityId};
use pptalk::ordered::SortedMap;
use pptalk::protocol::{BlobManifest, ConversationEvent, EventBody, MessageContent, PROTOCOL_VERSION};

fn id(n: u8) -> IdentityId {
    IdentityId::from_bytes([n; 32])
}

fn device(n: u8) -> DeviceId {
    DeviceId::from_bytes([n; 32])
}

fn group() -> GroupProfile {
    GroupProfile {
        id: ConversationId::from_bytes([9; 32]),
        name: "friends".into(),
        owner: id(1),
        admins: vec![id(2)],
        members: vec![id(1), id(2), id(3)],
        member_devices: vec![device(1), device(2)],
        history_since_ms: vec![(id(3), 500)],
    }
}

fn event(author: u8, sequence: u64, time: i64, body: EventBody) -> ConversationEvent {
    ConversationEvent {
        version: PROTOCOL_VERSION,
        conversation_id: ConversationId::from_bytes([9; 32]),
        event_id: EventId::from_bytes([sequence as u8 + 100; 32]),
        author_identity: id(author),
        author_device: device(author),
        device_sequence: sequence,
        causal_frontier: SortedMap::new(),
        logical_time_ms: time,
        body,
    }
}

fn create(attachments: Vec<[u8; 32]>) -> EventBody {
    EventBody::MessageCreate {
        content: MessageContent {
            text: "hi".into(),
            reply_to: None,
            attachment_ids: attachments,
        },
    }
}

#[test]
fn welcomes_commits_updates_and_dissolution_follow_roles() {
    let g = group();
    assert!(check_welcome(&g, id(1), id(3)).is_ok());
    assert_eq!(check_welcome(&g, id(2), id(3)), Err(GroupRuleError::InvalidWelcome));
    assert_eq!(check_welcome(&g, id(1), id(7)), Err(GroupRuleError::InvalidWelcome));

    let mut proposed = g.clone();
    proposed.members.push(id(4));
    assert_eq!(check_commit(&g, &proposed, id(2), id(3)), Ok(CommitEffect::Replace));
    assert_eq!(check_commit(&g, &proposed, id(3), id(3)), Err(GroupRuleError::NotAdministrator));
    let mut removal = g.clone();
    removal.members.retain(|m| *m != id(3));
    assert_eq!(check_commit(&g, &removal, id(1), id(3)), Ok(CommitEffect::Leave));
    let mut takeover = g.clone();
    takeover.owner = id(2);
    assert_eq!(check_commit(&g, &takeover, id(2), id(3)), Err(GroupRuleError::NotAdministrator));

    let mut renamed = g.clone();
    renamed.name = "family".into();
    assert!(check_profile_update(&g, &renamed, id(1)).is_ok());
    assert_eq!(check_profile_update(&g, &renamed, id(2)), Err(GroupRuleError::InvalidProfileUpdate));
    assert_eq!(check_profile_update(&g, &proposed, id(1)), Err(GroupRuleError::InvalidProfileUpdate));
    let mut owner_admin = g.clone();
    owner_admin.admins.push(id(1));
    assert_eq!(check_profile_update(&g, &owner_admin, id(1)), Err(GroupRuleError::InvalidProfileUpdate));

    assert!(check_dissolve(&g, id(1)).is_ok());
    assert_eq!(check_dissolve(&g, id(2)), Err(GroupRuleError::NotOwner));
    assert!(check_member(&g, id(3)).is_ok());
    assert_eq!(check_member(&g, id(8)), Err(GroupRuleError::NotMember));
    assert_eq!(find_group(&vec![group()], &ConversationId::from_bytes([9; 32])), Some(0));
    assert_eq!(find_group(&vec![group()], &ConversationId::from_bytes([8; 32])), None);
}

#[test]
fn group_events_are_checked_against_their_sender_and_history() {
    let g = group();
    let created = event(3, 0, 600, create(vec![]));
    assert!(check_event_author(&created, g.id, id(3)).is_ok());
    assert_eq!(check_event_author(&created, g.id, id(2)), Err(GroupRuleError::AuthorMismatch));
    let delete = event(3, 1, 700, EventBody::MessageDelete { target: created.event_id });
    assert!(check_mutation(&delete, &[created.clone()], id(3)).is_ok());
    assert_eq!(check_mutation(&delete, &[created.clone()], id(2)), Err(GroupRuleError::ForeignMutation));
    assert!(check_mutation(&created, &[], id(2)).is_ok());

    assert_eq!(history_floor(&g, id(3)), 500);
    assert_eq!(history_floor(&g, id(2)), i64::MAX);
    assert!(check_replayed_event(&created, g.id, id(3), 500).is_ok());
    assert_eq!(check_replayed_event(&created, g.id, id(3), 601), Err(GroupRuleError::OutsideHistory));

    let events = vec![event(1, 0, 400, create(vec![])), event(1, 1, 600, create(vec![])), event(2, 0, 700, create(vec![]))];
    assert_eq!(events_to_replay(&events, 500, id(1)), vec![1]);
    assert_eq!(events_to_replay(&events, i64::MAX, id(1)), Vec::<usize>::new());
}

#[test]
fn group_attachments_are_checked() {
    let g = group();
    let transfer = [5; 32];
    let manifest = BlobManifest {
        ciphertext_hash: transfer,
        byte_len: 10,
        chunk_size: 8,
        chunk_hashes: vec![[0; 32]; 2],
        media_type: "a".into(),
        file_name: "b".into(),
        key_envelope: vec![],
    };
    let offer = event(3, 0, 600, create(vec![transfer]));
    assert!(check_file_offer(&manifest, &transfer, &offer, g.id, id(3)).is_ok());
    assert_eq!(check_file_offer(&manifest, &[6; 32], &offer, g.id, id(3)), Err(GroupRuleError::InvalidManifest));
    let plain = event(3, 0, 600, create(vec![]));
    assert_eq!(check_file_offer(&manifest, &transfer, &plain, g.id, id(3)), Err(GroupRuleError::AttachmentMismatch));
    assert!(check_file_chunk(10, None, g.id).is_ok());
    assert_eq!(check_file_chunk(4 * 1024 * 1024 + 1, None, g.id), Err(GroupRuleError::ChunkTooLarge));
    assert_eq!(
        check_file_chunk(10, Some(ConversationId::from_bytes([1; 32])), g.id),
        Err(GroupRuleError::ChangedConversation)
    );
    assert!(attachment_manifest_ok(&manifest, &transfer));
    assert!(!attachment_chunk_ok(4 * 1024 * 1024 + 1));
    assert!(attachment_size_ok(512 * 1024 * 1024));
    assert!(!attachment_size_ok(512 * 1024 * 1024 + 1));
}

#[test]
fn owned_groups_track_member_devices() {
    let groups = vec![group(), GroupProfile { owner: id(2), ..group() }];
    assert_eq!(groups_missing_device(&groups, id(1), id(3), device(3)), vec![0]);
    assert_eq!(groups_missing_device(&groups, id(1), id(3), device(2)), Vec::<usize>::new());

    let first = DeviceKeyPair::generate();
    let public = first.public_key();
    let genesis = IdentityEvent {
        sequence: 0,
        previous_hash: [0; 32],
        author_device: first.device_id(),
        created_at_unix: 1,
        kind: IdentityEventKind::Genesis { public_key: public, label: "desktop".into() },
        signature: vec![],
    };
    let revoke = IdentityEvent {
        kind: IdentityEventKind::RevokeDevice { device_id: device(2), reason: "lost".into() },
        ..genesis.clone()
    };
    assert_eq!(identity_devices(&[genesis, revoke]), vec![first.device_id()]);

    let log = IdentityLog::empty(id(1));
    let revoked = revoked_devices(&vec![device(1), device(2)], &vec![device(2)], &log);
    assert_eq!(revoked, vec![device(2)]);
    assert_eq!(without_devices(&vec![device(1), device(2)], &revoked), vec![device(1)]);
}

#[test]
fn deliveries_and_received_chunks() {
    assert_eq!(combine_delivery(Delivery::Direct, Delivery::Mailbox), Delivery::Mailbox);
    assert_eq!(combine_delivery(Delivery::Mailbox, Delivery::Direct), Delivery::Mailbox);
    assert_eq!(combine_delivery(Delivery::Mailbox, Delivery::Queued), Delivery::Queued);
    assert_eq!(combine_delivery(Delivery::Queued, Delivery::Direct), Delivery::Queued);
    assert_eq!(Delivery::Mailbox.name(), "mailbox");

    let mut chunks = BTreeMap::new();
    chunks.insert(1u32, vec![2]);
    assert_eq!(ordered_chunks(&chunks, 2), None);
    chunks.insert(0u32, vec![1]);
    assert_eq!(ordered_chunks(&chunks, 2), Some(vec![vec![1], vec![2]]));
    assert_eq!(ordered_chunks(&chunks, 3), None);

    assert_eq!(direct_message_id([4; 32], b"packet"), [4; 32]);
    assert_eq!(direct_message_id([0; 32], b"packet"), *blake3::hash(b"packet").as_bytes());

    let key = DeviceKeyPair::generate();
    assert!(sender_device_proof(PROTOCOL_VERSION, &key.public_key(), key.device_id()));
    assert!(!sender_device_proof(PROTOCOL_VERSION + 1, &key.public_key(), key.device_id()));
    assert!(!sender_device_proof(PROTOCOL_VERSION, &key.public_key(), device(1)));
}
