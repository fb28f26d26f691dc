use pptalk::admin::{
    add_member, new_group, remove_member, set_admin, transfer_ownership, GroupAdminError, Invitee,
};
use pptalk::group::{check_commit, check_profile_update, CommitEffect, GroupProfile};
use pptalk::ids::{ConversationId, DeviceId, IdentityId};

fn id(n: u8) -> IdentityId {
    IdentityId::from_bytes([n; 32])
}

fn device(n: u8) -> DeviceId {
    DeviceId::from_bytes([n; 32])
}

fn invitee(n: u8) -> Invitee {
    Invitee { identity_id: id(n), device_id: device(n + 100), has_key_package: true }
}

fn team() -> GroupProfile {
    new_group(ConversationId::from_bytes([9; 32]), "  Team ", id(1), device(101), &[invitee(2), invitee(3)], 5_000)
        .expect("group")
}

#[test]
fn new_groups_list_their_owner_first() {
    let group = team();
    assert_eq!(group.name, "Team");
    assert_eq!(group.owner, id(1));
    assert_eq!(group.members, vec![id(1), id(2), id(3)]);
    assert_eq!(group.member_devices, vec![device(101), device(102), device(103)]);
    assert_eq!(group.history_since_ms, vec![(id(1), 5_000), (id(2), 5_000), (id(3), 5_000)]);
    assert!(group.admins.is_empty());
}

#[test]
fn new_groups_need_a_name_and_between_one_and_fifteen_contacts() {
    let gid = ConversationId::from_bytes([9; 32]);
    assert_eq!(new_group(gid, "   ", id(1), device(101), &[invitee(2)], 0).unwrap_err(), GroupAdminError::InvalidGroup);
    let long = "x".repeat(129);
    assert_eq!(new_group(gid, &long, id(1), device(101), &[invitee(2)], 0).unwrap_err(), GroupAdminError::InvalidGroup);
    assert!(new_group(gid, &"x".repeat(128), id(1), device(101), &[invitee(2)], 0).is_ok());
    assert_eq!(new_group(gid, "Team", id(1), device(101), &[], 0).unwrap_err(), GroupAdminError::InvalidGroup);
    let fifteen: Vec<Invitee> = (2..17).map(invitee).collect();
    assert!(new_group(gid, "Team", id(1), device(101), &fifteen, 0).is_ok());
    let sixteen: Vec<Invitee> = (2..18).map(invitee).collect();
    assert_eq!(new_group(gid, "Team", id(1), device(101), &sixteen, 0).unwrap_err(), GroupAdminError::InvalidGroup);
    let mut without_package = invitee(3);
    without_package.has_key_package = false;
    assert_eq!(
        new_group(gid, "Team", id(1), device(101), &[invitee(2), without_package], 0).unwrap_err(),
        GroupAdminError::MissingKeyPackage
    );
}

#[test]
fn administrators_add_members_up_to_sixteen() {
    let mut group = team();
    assert_eq!(add_member(&mut group, id(2), id(4), device(104), true, 9), Err(GroupAdminError::NotAdministrator));
    assert_eq!(add_member(&mut group, id(1), id(4), device(104), false, 9), Err(GroupAdminError::MissingKeyPackage));
    assert_eq!(add_member(&mut group, id(1), id(2), device(102), true, 9), Err(GroupAdminError::AlreadyMember));
    let before = group.clone();
    add_member(&mut group, id(1), id(4), device(104), true, 9).expect("add");
    assert_eq!(group.members, vec![id(1), id(2), id(3), id(4)]);
    assert_eq!(group.history_since_ms.last(), Some(&(id(4), 9)));
    // Members accept the commit and keep the group.
    assert_eq!(check_commit(&before, &group, id(1), id(2)), Ok(CommitEffect::Replace));
    for n in 5..17 {
        add_member(&mut group, id(1), id(n), device(n + 100), true, 9).expect("add");
    }
    assert_eq!(group.members.len(), 16);
    assert_eq!(add_member(&mut group, id(1), id(40), device(140), true, 9), Err(GroupAdminError::GroupFull));
}

#[test]
fn removals_spare_the_owner_and_other_administrators() {
    let mut group = team();
    set_admin(&mut group, id(1), id(2), true).expect("admin");
    add_member(&mut group, id(1), id(4), device(104), true, 9).expect("add");
    assert_eq!(remove_member(&mut group, id(3), id(4), &[device(104)]), Err(GroupAdminError::NotAdministrator));
    assert_eq!(remove_member(&mut group, id(2), id(1), &[device(101)]), Err(GroupAdminError::ProtectedMember));
    set_admin(&mut group, id(1), id(3), true).expect("admin");
    assert_eq!(remove_member(&mut group, id(2), id(3), &[device(103)]), Err(GroupAdminError::ProtectedMember));
    assert_eq!(remove_member(&mut group, id(2), id(9), &[]), Err(GroupAdminError::NotMember));
    let before = group.clone();
    let removed = remove_member(&mut group, id(2), id(4), &[device(104), device(199)]).expect("remove");
    assert_eq!(removed, vec![device(104)]);
    assert_eq!(group.members, vec![id(1), id(2), id(3)]);
    assert_eq!(group.member_devices, vec![device(101), device(102), device(103)]);
    assert!(group.history_since_ms.iter().all(|(who, _)| *who != id(4)));
    assert_eq!(check_commit(&before, &group, id(2), id(4)), Ok(CommitEffect::Leave));
    // The owner may remove an administrator, who stays listed as one.
    remove_member(&mut group, id(1), id(3), &[device(103)]).expect("remove administrator");
    assert_eq!(group.admins, vec![id(2), id(3)]);
}

#[test]
fn only_the_owner_names_administrators_and_hands_ownership_on() {
    let mut group = team();
    assert_eq!(set_admin(&mut group, id(2), id(3), true), Err(GroupAdminError::NotOwner));
    assert_eq!(set_admin(&mut group, id(1), id(1), true), Err(GroupAdminError::NotRegularMember));
    assert_eq!(set_admin(&mut group, id(1), id(7), true), Err(GroupAdminError::NotRegularMember));
    let before = group.clone();
    set_admin(&mut group, id(1), id(2), true).expect("admin");
    set_admin(&mut group, id(1), id(2), true).expect("admin again");
    assert_eq!(group.admins, vec![id(2)]);
    assert!(check_profile_update(&before, &group, id(1)).is_ok());

    let before = group.clone();
    assert_eq!(transfer_ownership(&mut group, id(2), id(3)), Err(GroupAdminError::NotOwner));
    assert_eq!(transfer_ownership(&mut group, id(1), id(8)), Err(GroupAdminError::NotMember));
    transfer_ownership(&mut group, id(1), id(2)).expect("transfer");
    assert_eq!(group.owner, id(2));
    assert!(group.admins.is_empty());
    assert!(check_profile_update(&before, &group, id(1)).is_ok());

    let before = group.clone();
    set_admin(&mut group, id(2), id(1), true).expect("former owner as administrator");
    set_admin(&mut group, id(2), id(1), false).expect("dropped");
    assert!(group.admins.is_empty());
    assert!(check_profile_update(&before, &group, id(2)).is_ok());
}
