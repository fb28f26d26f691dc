use pptalk::contacts::{block_contact, remove_contact, sender_is_blocked, ContactKey};
use pptalk::ids::{DeviceId, IdentityId};
use pptalk::profile::{
    activity_update, avatar_update_from, conversation_key_ok, edit_profile, find_settings, preference_update,
    AvatarUpdate, ProfileError,
};
use pptalk::storage::ConversationSettings;

fn settings(key: &str) -> ConversationSettings {
    ConversationSettings {
        conversation_key: key.into(),
        pinned: true,
        archived: false,
        muted_until_unix: Some(9),
        unread_count: u32::MAX - 1,
        last_summary: "earlier".into(),
        last_activity_unix: 100,
        notification_preview: false,
    }
}

#[test]
fn profile_edits_trim_the_name_and_bound_the_avatar() {
    let (name, avatar) = edit_profile("  Alice ", AvatarUpdate::Preserve, Some("old".into())).expect("edit");
    assert_eq!(name, "Alice");
    assert_eq!(avatar, Some("old".into()));
    let (_, avatar) = edit_profile("Alice", avatar_update_from(Some("new".into())), Some("old".into())).expect("edit");
    assert_eq!(avatar, Some("new".into()));
    let (_, avatar) = edit_profile("Alice", avatar_update_from(None), Some("old".into())).expect("edit");
    assert_eq!(avatar, None);
    let (_, avatar) = edit_profile("Alice", AvatarUpdate::SetTo(String::new()), Some("old".into())).expect("edit");
    assert_eq!(avatar, None);
    assert_eq!(edit_profile("   ", AvatarUpdate::Preserve, None), Err(ProfileError::InvalidName));
    // The name is counted once trimmed.
    let padded = format!("  {}  ", "n".repeat(64));
    assert!(edit_profile(&padded, AvatarUpdate::Preserve, None).is_ok());
    assert_eq!(edit_profile(&"n".repeat(65), AvatarUpdate::Preserve, None), Err(ProfileError::InvalidName));
    let large = "a".repeat(512 * 1024 + 1);
    assert_eq!(edit_profile("Alice", AvatarUpdate::SetTo(large), None), Err(ProfileError::AvatarTooLarge));
    assert!(edit_profile("Alice", AvatarUpdate::SetTo("a".repeat(512 * 1024)), None).is_ok());
}

#[test]
fn conversation_keys_are_bounded_in_bytes() {
    assert!(conversation_key_ok("direct:abc"));
    assert!(!conversation_key_ok("  "));
    assert!(conversation_key_ok(&"k".repeat(128)));
    assert!(!conversation_key_ok(&"k".repeat(129)));
    // Counted in bytes: 43 three-byte characters exceed 128 bytes.
    assert!(!conversation_key_ok(&"€".repeat(43)));
    let all = vec![settings("a"), settings("b")];
    assert_eq!(find_settings(&all, "b"), Some(1));
    assert_eq!(find_settings(&all, "c"), None);
}

#[test]
fn preferences_and_activity_update_conversation_settings() {
    let fresh = preference_update("a".into(), false, true, true, None);
    assert_eq!(fresh.muted_until_unix, Some(i64::MAX));
    assert_eq!(fresh.unread_count, 0);
    assert!(fresh.notification_preview);
    let previous = settings("a");
    let kept = preference_update("a".into(), false, false, false, Some(&previous));
    assert_eq!(kept.muted_until_unix, None);
    assert_eq!(kept.unread_count, previous.unread_count);
    assert_eq!(kept.last_summary, "earlier");
    assert!(!kept.notification_preview);

    let busier = activity_update("a".into(), String::new(), true, false, 500, Some(&previous));
    assert_eq!(busier.unread_count, u32::MAX);
    assert_eq!(busier.last_summary, "earlier");
    assert_eq!(busier.last_activity_unix, 500);
    assert!(busier.pinned);
    assert_eq!(busier.muted_until_unix, Some(9));
    let saturated = activity_update("a".into(), "new".into(), true, false, 600, Some(&busier));
    assert_eq!(saturated.unread_count, u32::MAX);
    assert_eq!(saturated.last_summary, "new");
    let read = activity_update("a".into(), String::new(), false, true, 700, Some(&saturated));
    assert_eq!(read.unread_count, 0);
    assert_eq!(read.last_activity_unix, 600);
    let first = activity_update("b".into(), "hi".into(), true, false, 800, None);
    assert_eq!(first.unread_count, 1);
    assert_eq!(first.last_activity_unix, 800);
    assert!(!first.pinned);
    let first_read = activity_update("c".into(), String::new(), false, true, 900, None);
    assert_eq!(first_read.last_activity_unix, 900);
}

#[test]
fn blocking_and_removing_apply_to_every_device_of_an_identity() {
    let contact = |name: &str, identity: u8, device: u8| ContactKey {
        name: name.into(),
        identity_id: IdentityId::from_bytes([identity; 32]),
        device_id: DeviceId::from_bytes([device; 32]),
        blocked: false,
        removed: false,
        manually_verified: false,
        hide_presence: false,
    };
    let mut contacts = vec![contact("Bob", 2, 21), contact("Bob", 2, 22), contact("Carol", 3, 31)];
    let bob = IdentityId::from_bytes([2; 32]);
    assert!(block_contact(&mut contacts, bob, true));
    assert!(contacts[0].blocked && contacts[1].blocked && !contacts[2].blocked);
    assert!(sender_is_blocked(&contacts, bob));
    assert!(block_contact(&mut contacts, bob, false));
    assert!(!sender_is_blocked(&contacts, bob));
    assert!(remove_contact(&mut contacts, bob));
    assert!(contacts[0].removed && contacts[1].removed && !contacts[2].removed);
    assert!(!remove_contact(&mut contacts, IdentityId::from_bytes([9; 32])));
}
