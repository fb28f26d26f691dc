//! What the owner and the administrators of a group may do to it locally:
//! create it, add and remove members, name administrators, hand ownership
//! on. The receiving side's rules are in `group`; the laws here say that
//! what an administrator changes is what the members accept.
use vstd::prelude::*;
use crate::devices::trimmed;
use crate::group::{
    commit_authorized, contains_device, contains_identity, has_device, has_identity, profile_update_valid,
    GroupProfile,
};
use crate::ids::{ConversationId, DeviceId, IdentityId};

verus! {

/// The most members a group may have, its owner included.
pub const MAX_GROUP_MEMBERS: usize = 16;

/// The most characters a group name may have.
pub const MAX_GROUP_NAME_CHARS: usize = 128;

/// Why a group could not be created or changed.
#[derive(Debug, Clone, Copy, PartialEq, Eq)]
pub enum GroupAdminError {
    /// A group needs a name of 1 to `MAX_GROUP_NAME_CHARS` characters and
    /// 1 to `MAX_GROUP_MEMBERS - 1` invited contacts.
    InvalidGroup,
    /// Every member must have published an MLS key package.
    MissingKeyPackage,
    /// Only the owner or an administrator may change membership.
    NotAdministrator,
    /// Only the owner may name administrators or hand ownership on.
    NotOwner,
    /// The group already has `MAX_GROUP_MEMBERS` members.
    GroupFull,
    /// The contact is already a member.
    AlreadyMember,
    /// The contact is not a member.
    NotMember,
    /// Nobody removes the owner, and an administrator does not remove
    /// another administrator.
    ProtectedMember,
    /// Administrators are members other than the owner.
    NotRegularMember,
}

/// A contact invited into a new group.
#[derive(Debug, Clone, Copy, PartialEq, Eq)]
pub struct Invitee {
    pub identity_id: IdentityId,
    pub device_id: DeviceId,
    pub has_key_package: bool,
}

/// Whether a group record is coherent: its owner is a member, and its
/// administrators are members other than the owner.
pub open spec fn group_wf(g: GroupProfile) -> bool {
    &&& has_identity(g.members@, g.owner)
    &&& forall|i: int|
        0 <= i < g.admins@.len() ==> has_identity(g.members@, #[trigger] g.admins@[i]) && g.admins@[i] != g.owner
}

/// Whether an identity may change a group's membership.
pub open spec fn manages(g: GroupProfile, who: IdentityId) -> bool {
    g.owner == who || has_identity(g.admins@, who)
}

/// Whether a group name is acceptable.
pub open spec fn group_name_ok(name: Seq<char>) -> bool {
    trimmed(name).len() > 0 && name.len() <= MAX_GROUP_NAME_CHARS
}

/// Why a new group is refused, if it is.
pub open spec fn creation_error(name: Seq<char>, invited: Seq<Invitee>) -> Option<GroupAdminError> {
    if !group_name_ok(name) || invited.len() == 0 || invited.len() > MAX_GROUP_MEMBERS - 1 {
        Some(GroupAdminError::InvalidGroup)
    } else if exists|i: int| 0 <= i < invited.len() && !(#[trigger] invited[i]).has_key_package {
        Some(GroupAdminError::MissingKeyPackage)
    } else {
        None
    }
}

/// The members of a new group: its owner, then the invited identities.
pub open spec fn founding_members(owner: IdentityId, invited: Seq<Invitee>) -> Seq<IdentityId> {
    seq![owner] + Seq::new(invited.len(), |i: int| invited[i].identity_id)
}

/// The devices of a new group: the owner's, then the invited ones.
pub open spec fn founding_devices(owner_device: DeviceId, invited: Seq<Invitee>) -> Seq<DeviceId> {
    seq![owner_device] + Seq::new(invited.len(), |i: int| invited[i].device_id)
}

fn trim_bounds_of(s: &str) -> (r: (usize, usize))
    ensures
        r.0 <= r.1 <= s@.len(),
        s@.subrange(r.0 as int, r.1 as int) == trimmed(s@),
{
    crate::devices::trim_text_bounds(s)
}

/// Creates a group owned by `owner` from its first device, with the
/// invited contacts as members; every founding member may read its history
/// from `created_at_ms`, and the name is kept trimmed.
pub fn new_group(
    id: ConversationId,
    name: &str,
    owner: IdentityId,
    owner_device: DeviceId,
    invited: &[Invitee],
    created_at_ms: i64,
) -> (r: Result<GroupProfile, GroupAdminError>)
    ensures
        match creation_error(name@, invited@) {
            Some(e) => r == Err::<GroupProfile, GroupAdminError>(e),
            None => r matches Ok(g) && {
                &&& g.id == id
                &&& g.name@ == trimmed(name@)
                &&& g.owner == owner
                &&& g.admins@.len() == 0
                &&& g.members@ == founding_members(owner, invited@)
                &&& g.member_devices@ == founding_devices(owner_device, invited@)
                &&& g.history_since_ms@ == Seq::new(
                    g.members@.len(),
                    |i: int| (g.members@[i], created_at_ms),
                )
            },
        },
{
    let (lo, hi) = trim_bounds_of(name);
    if lo == hi || name.unicode_len() > MAX_GROUP_NAME_CHARS || invited.len() == 0 || invited.len()
        > MAX_GROUP_MEMBERS - 1 {
        return Err(GroupAdminError::InvalidGroup);
    }
    let mut k: usize = 0;
    while k < invited.len()
        invariant
            k <= invited@.len(),
            group_name_ok(name@),
            0 < invited@.len() <= MAX_GROUP_MEMBERS - 1,
            forall|j: int| 0 <= j < k ==> (#[trigger] invited@[j]).has_key_package,
        decreases invited@.len() - k,
    {
        if !invited[k].has_key_package {
            assert(!invited@[k as int].has_key_package);
            return Err(GroupAdminError::MissingKeyPackage);
        }
        k = k + 1;
    }
    let mut members: Vec<IdentityId> = Vec::new();
    let mut devices: Vec<DeviceId> = Vec::new();
    let mut history: Vec<(IdentityId, i64)> = Vec::new();
    members.push(owner);
    devices.push(owner_device);
    history.push((owner, created_at_ms));
    let mut i: usize = 0;
    while i < invited.len()
        invariant
            i <= invited@.len(),
            members@ == seq![owner] + Seq::new(i as nat, |j: int| invited@[j].identity_id),
            devices@ == seq![owner_device] + Seq::new(i as nat, |j: int| invited@[j].device_id),
            history@ == Seq::new(members@.len(), |j: int| (members@[j], created_at_ms)),
        decreases invited@.len() - i,
    {
        let invitee = invited[i];
        members.push(invitee.identity_id);
        devices.push(invitee.device_id);
        history.push((invitee.identity_id, created_at_ms));
        i = i + 1;
        assert(members@ =~= seq![owner] + Seq::new(i as nat, |j: int| invited@[j].identity_id));
        assert(devices@ =~= seq![owner_device] + Seq::new(i as nat, |j: int| invited@[j].device_id));
        assert(history@ =~= Seq::new(members@.len(), |j: int| (members@[j], created_at_ms)));
    }
    Ok(GroupProfile {
        id,
        name: String::from_str(name.substring_char(lo, hi)),
        owner,
        admins: Vec::new(),
        members,
        member_devices: devices,
        history_since_ms: history,
    })
}

/// Why adding `identity` to the group on behalf of `local` is refused, if
/// it is.
pub open spec fn addition_error(g: GroupProfile, local: IdentityId, identity: IdentityId, has_key_package: bool) -> Option<
    GroupAdminError,
> {
    if !manages(g, local) {
        Some(GroupAdminError::NotAdministrator)
    } else if g.members@.len() >= MAX_GROUP_MEMBERS {
        Some(GroupAdminError::GroupFull)
    } else if !has_key_package {
        Some(GroupAdminError::MissingKeyPackage)
    } else if has_identity(g.members@, identity) {
        Some(GroupAdminError::AlreadyMember)
    } else {
        None
    }
}

/// Adds a contact's identity and device to the group on behalf of `local`;
/// the new member may read the history from `joined_at_ms`.
pub fn add_member(
    group: &mut GroupProfile,
    local: IdentityId,
    identity: IdentityId,
    device: DeviceId,
    has_key_package: bool,
    joined_at_ms: i64,
) -> (r: Result<(), GroupAdminError>)
    ensures
        match addition_error(*old(group), local, identity, has_key_package) {
            Some(e) => r == Err::<(), GroupAdminError>(e) && *final(group) == *old(group),
            None => {
                &&& r is Ok
                &&& final(group).members@ == old(group).members@.push(identity)
                &&& final(group).member_devices@ == old(group).member_devices@.push(device)
                &&& final(group).history_since_ms@ == old(group).history_since_ms@.push((identity, joined_at_ms))
                &&& final(group).id == old(group).id
                &&& final(group).name == old(group).name
                &&& final(group).owner == old(group).owner
                &&& final(group).admins == old(group).admins
            },
        },
{
    if !(group.owner.same(&local) || contains_identity(&group.admins, &local)) {
        return Err(GroupAdminError::NotAdministrator);
    }
    if group.members.len() >= MAX_GROUP_MEMBERS {
        return Err(GroupAdminError::GroupFull);
    }
    if !has_key_package {
        return Err(GroupAdminError::MissingKeyPackage);
    }
    if contains_identity(&group.members, &identity) {
        return Err(GroupAdminError::AlreadyMember);
    }
    group.members.push(identity);
    group.member_devices.push(device);
    group.history_since_ms.push((identity, joined_at_ms));
    Ok(())
}

/// Why removing `identity` from the group on behalf of `local` is refused,
/// if it is.
pub open spec fn removal_error(g: GroupProfile, local: IdentityId, identity: IdentityId) -> Option<GroupAdminError> {
    if !manages(g, local) {
        Some(GroupAdminError::NotAdministrator)
    } else if !has_identity(g.members@, identity) {
        Some(GroupAdminError::NotMember)
    } else if identity == g.owner || (g.owner != local && has_identity(g.admins@, identity)) {
        Some(GroupAdminError::ProtectedMember)
    } else {
        None
    }
}

/// The group's devices among a removed identity's contact devices.
pub open spec fn removed_devices(g: GroupProfile, contact_devices: Seq<DeviceId>) -> Seq<DeviceId> {
    contact_devices.filter(|d: DeviceId| has_device(g.member_devices@, d))
}

fn devices_in_group(group: &GroupProfile, contact_devices: &[DeviceId]) -> (r: Vec<DeviceId>)
    ensures
        r@ == removed_devices(*group, contact_devices@),
{
    let mut out: Vec<DeviceId> = Vec::new();
    let mut i: usize = 0;
    while i < contact_devices.len()
        invariant
            i <= contact_devices@.len(),
            out@ == contact_devices@.take(i as int).filter(|d: DeviceId| has_device(group.member_devices@, d)),
        decreases contact_devices@.len() - i,
    {
        let d = contact_devices[i];
        proof {
            reveal(Seq::filter);
            assert(contact_devices@.take(i as int + 1).drop_last() =~= contact_devices@.take(i as int));
        }
        if contains_device(&group.member_devices, &d) {
            out.push(d);
        }
        i = i + 1;
    }
    assert(contact_devices@.take(i as int) =~= contact_devices@);
    out
}

fn without_identity(ids: &Vec<IdentityId>, removed: IdentityId) -> (r: Vec<IdentityId>)
    ensures
        r@ == ids@.filter(|x: IdentityId| x != removed),
{
    let mut out: Vec<IdentityId> = Vec::new();
    let mut i: usize = 0;
    while i < ids.len()
        invariant
            i <= ids@.len(),
            out@ == ids@.take(i as int).filter(|x: IdentityId| x != removed),
        decreases ids@.len() - i,
    {
        let x = ids[i];
        proof {
            reveal(Seq::filter);
            assert(ids@.take(i as int + 1).drop_last() =~= ids@.take(i as int));
        }
        if !x.same(&removed) {
            out.push(x);
        }
        i = i + 1;
    }
    assert(ids@.take(i as int) =~= ids@);
    out
}

fn without_history(entries: &Vec<(IdentityId, i64)>, removed: IdentityId) -> (r: Vec<(IdentityId, i64)>)
    ensures
        r@ == entries@.filter(|e: (IdentityId, i64)| e.0 != removed),
{
    let mut out: Vec<(IdentityId, i64)> = Vec::new();
    let mut i: usize = 0;
    while i < entries.len()
        invariant
            i <= entries@.len(),
            out@ == entries@.take(i as int).filter(|e: (IdentityId, i64)| e.0 != removed),
        decreases entries@.len() - i,
    {
        let e = entries[i];
        proof {
            reveal(Seq::filter);
            assert(entries@.take(i as int + 1).drop_last() =~= entries@.take(i as int));
        }
        if !e.0.same(&removed) {
            out.push(e);
        }
        i = i + 1;
    }
    assert(entries@.take(i as int) =~= entries@);
    out
}

/// Removes an identity from the group on behalf of `local`, with those of
/// its contact devices that are the group's; answers the devices removed.
/// The administrators are left as they were.
pub fn remove_member(group: &mut GroupProfile, local: IdentityId, identity: IdentityId, contact_devices: &[DeviceId]) -> (r:
    Result<Vec<DeviceId>, GroupAdminError>)
    ensures
        match removal_error(*old(group), local, identity) {
            Some(e) => r == Err::<Vec<DeviceId>, GroupAdminError>(e) && *final(group) == *old(group),
            None => r matches Ok(removed) && {
                &&& removed@ == removed_devices(*old(group), contact_devices@)
                &&& final(group).members@ == old(group).members@.filter(|x: IdentityId| x != identity)
                &&& final(group).member_devices@ == old(group).member_devices@.filter(
                    |d: DeviceId| !has_device(removed@, d),
                )
                &&& final(group).history_since_ms@ == old(group).history_since_ms@.filter(
                    |e: (IdentityId, i64)| e.0 != identity,
                )
                &&& final(group).id == old(group).id
                &&& final(group).name == old(group).name
                &&& final(group).owner == old(group).owner
                &&& final(group).admins == old(group).admins
            },
        },
{
    let is_owner = group.owner.same(&local);
    if !(is_owner || contains_identity(&group.admins, &local)) {
        return Err(GroupAdminError::NotAdministrator);
    }
    if !contains_identity(&group.members, &identity) {
        return Err(GroupAdminError::NotMember);
    }
    if identity.same(&group.owner) || (!is_owner && contains_identity(&group.admins, &identity)) {
        return Err(GroupAdminError::ProtectedMember);
    }
    let removed = devices_in_group(group, contact_devices);
    let members = without_identity(&group.members, identity);
    let devices = crate::group::without_devices(&group.member_devices, &removed);
    let history = without_history(&group.history_since_ms, identity);
    group.members = members;
    group.member_devices = devices;
    group.history_since_ms = history;
    Ok(removed)
}

/// Why naming or dropping `identity` as administrator on behalf of `local`
/// is refused, if it is.
pub open spec fn admin_change_error(g: GroupProfile, local: IdentityId, identity: IdentityId) -> Option<GroupAdminError> {
    if g.owner != local {
        Some(GroupAdminError::NotOwner)
    } else if !has_identity(g.members@, identity) || identity == g.owner {
        Some(GroupAdminError::NotRegularMember)
    } else {
        None
    }
}

/// Names (`admin`) or drops (`!admin`) `identity` as an administrator, on
/// behalf of the owner `local`.
pub fn set_admin(group: &mut GroupProfile, local: IdentityId, identity: IdentityId, admin: bool) -> (r: Result<
    (),
    GroupAdminError,
>)
    ensures
        match admin_change_error(*old(group), local, identity) {
            Some(e) => r == Err::<(), GroupAdminError>(e) && *final(group) == *old(group),
            None => {
                &&& r is Ok
                &&& final(group).admins@ == if admin {
                    if has_identity(old(group).admins@, identity) {
                        old(group).admins@
                    } else {
                        old(group).admins@.push(identity)
                    }
                } else {
                    old(group).admins@.filter(|x: IdentityId| x != identity)
                }
                &&& final(group).id == old(group).id
                &&& final(group).name == old(group).name
                &&& final(group).owner == old(group).owner
                &&& final(group).members == old(group).members
                &&& final(group).member_devices == old(group).member_devices
                &&& final(group).history_since_ms == old(group).history_since_ms
            },
        },
{
    if !group.owner.same(&local) {
        return Err(GroupAdminError::NotOwner);
    }
    if !contains_identity(&group.members, &identity) || identity.same(&group.owner) {
        return Err(GroupAdminError::NotRegularMember);
    }
    if admin {
        if !contains_identity(&group.admins, &identity) {
            group.admins.push(identity);
        }
    } else {
        let admins = without_identity(&group.admins, identity);
        group.admins = admins;
    }
    Ok(())
}

/// Why handing ownership to `identity` on behalf of `local` is refused,
/// if it is.
pub open spec fn transfer_error(g: GroupProfile, local: IdentityId, identity: IdentityId) -> Option<GroupAdminError> {
    if g.owner != local {
        Some(GroupAdminError::NotOwner)
    } else if !has_identity(g.members@, identity) {
        Some(GroupAdminError::NotMember)
    } else {
        None
    }
}

/// Hands the group's ownership to the member `identity`, on behalf of the
/// owner `local`; the new owner is no longer listed as an administrator.
pub fn transfer_ownership(group: &mut GroupProfile, local: IdentityId, identity: IdentityId) -> (r: Result<
    (),
    GroupAdminError,
>)
    ensures
        match transfer_error(*old(group), local, identity) {
            Some(e) => r == Err::<(), GroupAdminError>(e) && *final(group) == *old(group),
            None => {
                &&& r is Ok
                &&& final(group).owner == identity
                &&& final(group).admins@ == old(group).admins@.filter(|x: IdentityId| x != identity)
                &&& final(group).id == old(group).id
                &&& final(group).name == old(group).name
                &&& final(group).members == old(group).members
                &&& final(group).member_devices == old(group).member_devices
                &&& final(group).history_since_ms == old(group).history_since_ms
            },
        },
{
    if !group.owner.same(&local) {
        return Err(GroupAdminError::NotOwner);
    }
    if !contains_identity(&group.members, &identity) {
        return Err(GroupAdminError::NotMember);
    }
    let admins = without_identity(&group.admins, identity);
    group.admins = admins;
    group.owner = identity;
    Ok(())
}

proof fn lemma_filter_keeps(s: Seq<IdentityId>, x: IdentityId, y: IdentityId)
    requires
        has_identity(s, y),
        y != x,
    ensures
        has_identity(s.filter(|z: IdentityId| z != x), y),
{
    let pred = |z: IdentityId| z != x;
    let i = choose|i: int| 0 <= i < s.len() && s[i] == y;
    s.lemma_filter_contains(pred, i);
    let f = s.filter(pred);
    assert(f.contains(y));
    let k = choose|k: int| 0 <= k < f.len() && f[k] == y;
    assert(f[k] == y);
}

proof fn lemma_filter_subset(s: Seq<IdentityId>, x: IdentityId, i: int)
    requires
        0 <= i < s.filter(|z: IdentityId| z != x).len(),
    ensures
        has_identity(s, s.filter(|z: IdentityId| z != x)[i]),
        s.filter(|z: IdentityId| z != x)[i] != x,
    decreases s.len(),
{
    reveal(Seq::filter);
    let pred = |z: IdentityId| z != x;
    if s.len() > 0 {
        let sub = s.drop_last().filter(pred);
        if i < sub.len() {
            lemma_filter_subset(s.drop_last(), x, i);
            let j = choose|j: int| 0 <= j < s.drop_last().len() && s.drop_last()[j] == sub[i];
            assert(s[j] == s.drop_last()[j]);
            assert(s.filter(pred)[i] == sub[i]);
        } else {
            assert(s.filter(pred)[i] == s.last());
            assert(s[s.len() - 1] == s.last());
        }
    }
}

/// What the owner sends when it names or drops an administrator, members
/// accept as a profile update, for a coherent group.
pub proof fn law_admin_changes_are_accepted(
    before: GroupProfile,
    after: GroupProfile,
    local: IdentityId,
    identity: IdentityId,
    admin: bool,
)
    requires
        group_wf(before),
        admin_change_error(before, local, identity) is None,
        after.owner == before.owner,
        after.members == before.members,
        after.member_devices == before.member_devices,
        after.admins@ == if admin {
            if has_identity(before.admins@, identity) {
                before.admins@
            } else {
                before.admins@.push(identity)
            }
        } else {
            before.admins@.filter(|x: IdentityId| x != identity)
        },
    ensures
        profile_update_valid(before, after, local),
        group_wf(after),
{
    assert forall|i: int| 0 <= i < after.admins@.len() implies has_identity(after.members@, #[trigger] after.admins@[i])
        && after.admins@[i] != after.owner by {
        if admin {
            if !has_identity(before.admins@, identity) && i == before.admins@.len() {
            } else {
                assert(after.admins@[i] == before.admins@[i]);
            }
        } else {
            lemma_filter_subset(before.admins@, identity, i);
            let a = after.admins@[i];
            let j = choose|j: int| 0 <= j < before.admins@.len() && before.admins@[j] == a;
            assert(before.admins@[j] == a);
        }
    }
}

/// What the owner sends when it hands ownership to a member, members
/// accept as a profile update, for a coherent group.
pub proof fn law_ownership_transfer_is_accepted(before: GroupProfile, after: GroupProfile, local: IdentityId, identity: IdentityId)
    requires
        group_wf(before),
        transfer_error(before, local, identity) is None,
        after.owner == identity,
        after.members == before.members,
        after.member_devices == before.member_devices,
        after.admins@ == before.admins@.filter(|x: IdentityId| x != identity),
    ensures
        profile_update_valid(before, after, local),
        group_wf(after),
{
    assert forall|i: int| 0 <= i < after.admins@.len() implies has_identity(after.members@, #[trigger] after.admins@[i])
        && after.admins@[i] != after.owner by {
        lemma_filter_subset(before.admins@, identity, i);
        let a = after.admins@[i];
        let j = choose|j: int| 0 <= j < before.admins@.len() && before.admins@[j] == a;
        assert(before.admins@[j] == a);
    }
}

/// What an administrator commits when it adds or removes a member, members
/// accept: it manages the group and the owner stays the owner. The owner
/// stays a member, and a coherent group stays coherent, unless an
/// administrator is removed, who stays listed.
pub proof fn law_membership_changes_are_accepted(
    before: GroupProfile,
    after: GroupProfile,
    local: IdentityId,
    identity: IdentityId,
)
    requires
        group_wf(before),
        manages(before, local),
        identity != before.owner,
        after.owner == before.owner,
        after.admins == before.admins,
        after.members@ == before.members@.push(identity) || after.members@ == before.members@.filter(
            |x: IdentityId| x != identity,
        ),
    ensures
        commit_authorized(before, after, local),
        has_identity(after.members@, after.owner),
        !has_identity(before.admins@, identity) ==> group_wf(after),
{
    if after.members@ == before.members@.push(identity) {
        let i = choose|i: int| 0 <= i < before.members@.len() && before.members@[i] == before.owner;
        assert(after.members@[i] == before.owner);
        assert forall|k: int| 0 <= k < after.admins@.len() implies has_identity(after.members@, #[trigger] after.admins@[k])
            && after.admins@[k] != after.owner by {
            let a = after.admins@[k];
            assert(a == before.admins@[k]);
            let j = choose|j: int| 0 <= j < before.members@.len() && before.members@[j] == a;
            assert(after.members@[j] == a);
        }
    } else {
        lemma_filter_keeps(before.members@, identity, before.owner);
        if !has_identity(before.admins@, identity) {
            assert forall|k: int| 0 <= k < after.admins@.len() implies has_identity(
                after.members@,
                #[trigger] after.admins@[k],
            ) && after.admins@[k] != after.owner by {
                let a = after.admins@[k];
                assert(a == before.admins@[k]);
                assert(a != identity);
                lemma_filter_keeps(before.members@, identity, a);
            }
        }
    }
}

} // verus!
