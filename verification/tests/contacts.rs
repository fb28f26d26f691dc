use pptalk::contacts::{
    contact_devices, contact_list, eq_ignore_ascii_case, refresh_template, unauthorized_devices, group_remote_contacts, resolve_call_recipients, sender_is_blocked,
    upsert_position, CallTargetError, ContactKey, set_contact_privacy, set_contact_verified, bundle_contacts,
};
use pptalk::group::GroupProfile;
use pptalk::identity::{DeviceKeyPair, IdentityLog};
use pptalk::ids::{ConversationId, DeviceId, IdentityId};

fn contact(name: &str, identity: u8, device: u8, blocked: bool, removed: bool) -> ContactKey {
    ContactKey {
        name: name.into(),
        identity_id: IdentityId::from_bytes([identity; 32]),
        device_id: DeviceId::from_bytes([device; 32]),
        blocked,
        removed,
        manually_verified: false,
        hide_presence: false,
    }
}

fn contacts() -> Vec<ContactKey> {
    vec![
        contact("Alice", 1, 11, false, false),
        contact("alice", 1, 12, false, false),
        contact("Bob", 2, 21, true, false),
        contact("Carol", 3, 31, false, true),
        contact("Carol", 3, 32, false, false),
    ]
}

fn group(members: usize, devices: Vec<u8>) -> GroupProfile {
    GroupProfile {
        id: ConversationId::from_bytes([0xaa; 32]),
        name: "Team".into(),
        owner: IdentityId::from_bytes([1; 32]),
        admins: vec![],
        members: (0..members).map(|n| IdentityId::from_bytes([n as u8; 32])).collect(),
        member_devices: devices.into_iter().map(|d| DeviceId::from_bytes([d; 32])).collect(),
        history_since_ms: vec![],
    }
}

#[test]
fn names_are_compared_without_ascii_case() {
    assert!(eq_ignore_ascii_case("ALICE", "alice"));
    assert!(!eq_ignore_ascii_case("alice", "alicia"));
    assert!(!eq_ignore_ascii_case("Ä", "ä"));
}

#[test]
fn contact_names_pick_every_reachable_device_of_an_identity() {
    let list = contacts();
    assert_eq!(contact_devices(&list, "ALICE"), Some(vec![0, 1]));
    assert_eq!(contact_devices(&list, "bob"), None, "blocked contacts are not addressed");
    assert_eq!(contact_devices(&list, "carol"), Some(vec![4]), "removed devices are skipped");
    assert!(sender_is_blocked(&list, IdentityId::from_bytes([2; 32])));
    assert!(!sender_is_blocked(&list, IdentityId::from_bytes([1; 32])));
    assert_eq!(
        upsert_position(&list, IdentityId::from_bytes([1; 32]), DeviceId::from_bytes([12; 32])),
        Some(1)
    );
    assert_eq!(upsert_position(&list, IdentityId::from_bytes([1; 32]), DeviceId::from_bytes([13; 32])), None);
}

#[test]
fn calls_ring_contacts_or_small_groups() {
    let list = contacts();
    let local = DeviceId::from_bytes([11; 32]);
    assert_eq!(resolve_call_recipients(&list, &[], "alice", local), Ok(vec![0, 1]));
    let team = group(3, vec![11, 12, 32]);
    assert_eq!(group_remote_contacts(&list, &team, local), vec![1, 4]);
    assert_eq!(resolve_call_recipients(&list, &[team.clone()], "team", local), Ok(vec![1, 4]));
    assert_eq!(resolve_call_recipients(&list, &[team.clone()], &"aa".repeat(32), local), Ok(vec![1, 4]));
    assert_eq!(
        resolve_call_recipients(&list, &[group(9, vec![12])], "team", local),
        Err(CallTargetError::TooManyParticipants)
    );
    assert_eq!(
        resolve_call_recipients(&list, &[group(2, vec![11])], "team", local),
        Err(CallTargetError::NoRemoteParticipants)
    );
    assert_eq!(resolve_call_recipients(&list, &[team], "nobody", local), Err(CallTargetError::NotFound));
}

#[test]
fn contact_list_shows_each_identity_once() {
    let list = contact_list(&contacts(), IdentityId::from_bytes([1; 32]));
    // The local identity is left out, a removed device is not listed but
    // still counted among its identity's devices.
    assert_eq!(list, vec![(2, 1), (4, 2)]);
    let list = contact_list(&contacts(), IdentityId::from_bytes([9; 32]));
    assert_eq!(list, vec![(0, 2), (2, 1), (4, 2)]);
}

#[test]
fn refreshes_start_from_the_contact_that_shares_the_secret() {
    let list = contacts();
    let secrets = [[1_u8; 32], [2_u8; 32], [3_u8; 32], [4_u8; 32], [4_u8; 32]];
    assert_eq!(refresh_template(&list, &secrets, IdentityId::from_bytes([1; 32]), &[2; 32]), Some(1));
    assert_eq!(refresh_template(&list, &secrets, IdentityId::from_bytes([3; 32]), &[4; 32]), Some(3));
    assert_eq!(refresh_template(&list, &secrets, IdentityId::from_bytes([1; 32]), &[4; 32]), None);
}

#[test]
fn refreshes_drop_devices_the_identity_log_no_longer_authorizes() {
    let key = DeviceKeyPair::generate();
    let log = IdentityLog::create(&key, "desktop".into(), 1, b"genesis");
    let carol = IdentityId::from_bytes([3; 32]);
    let mut list = contacts();
    list[4].device_id = key.device_id();
    // Carol's first device is not in her log; her second is.
    assert_eq!(unauthorized_devices(&list, carol, &log), vec![3]);
    let empty = IdentityLog::empty(carol);
    assert_eq!(unauthorized_devices(&list, carol, &empty), vec![3, 4]);
    assert!(unauthorized_devices(&list, IdentityId::from_bytes([9; 32]), &empty).is_empty());
}

#[test]
fn privacy_setting_applies_to_every_device_of_the_identity() {
    let mut list = contacts();
    assert!(set_contact_privacy(&mut list, IdentityId::from_bytes([1; 32]), true));
    assert!(list[0].hide_presence && list[1].hide_presence);
    assert!(!list[2].hide_presence && !list[3].hide_presence && !list[4].hide_presence);
    assert!(set_contact_privacy(&mut list, IdentityId::from_bytes([1; 32]), false));
    assert!(!list[0].hide_presence && !list[1].hide_presence);
    assert!(!set_contact_privacy(&mut list, IdentityId::from_bytes([9; 32]), true));
    assert!(list.iter().all(|c| !c.hide_presence));
}

#[test]
fn manual_verification_applies_to_every_device_of_the_identity() {
    let mut list = contacts();
    assert!(set_contact_verified(&mut list, IdentityId::from_bytes([3; 32]), true));
    assert!(list[3].manually_verified && list[4].manually_verified);
    assert!(!list[0].manually_verified && !list[2].manually_verified);
    assert!(list[3].removed && !list[3].blocked);
    assert!(!set_contact_verified(&mut list, IdentityId::from_bytes([9; 32]), true));
}

#[test]
fn device_bundle_leaves_out_the_local_identity() {
    let list = contacts();
    assert_eq!(bundle_contacts(&list, IdentityId::from_bytes([1; 32])), vec![2, 3, 4]);
    assert_eq!(bundle_contacts(&list, IdentityId::from_bytes([3; 32])), vec![0, 1, 2]);
    assert_eq!(bundle_contacts(&[], IdentityId::from_bytes([3; 32])), Vec::<usize>::new());
}
