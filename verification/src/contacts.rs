//! Which of a profile's contact devices a message, a call or a group
//! commit goes to. A contact is one device of one identity; the rules read
//! only its name, identity, device and whether it is blocked or removed, so
//! they take those and answer with positions in the caller's list.
use vstd::prelude::*;
use crate::digest::hex_lower;
use crate::group::{has_device, GroupProfile};
use crate::ids::{DeviceId, IdentityId};
use crate::identity::{is_active, IdentityLog};
use crate::protocol::same_bytes32;

verus! {

/// What the routing rules read of a contact device.
#[derive(Debug, Clone)]
pub struct ContactKey {
    pub name: String,
    pub identity_id: IdentityId,
    pub device_id: DeviceId,
    pub blocked: bool,
    pub removed: bool,
    pub manually_verified: bool,
    pub hide_presence: bool,
}

/// Why a call has no recipients.
#[derive(Debug, Clone, Copy, PartialEq, Eq)]
pub enum CallTargetError {
    /// No contact and no group goes by that name.
    NotFound,
    /// Group calls take at most `MAX_CALL_PARTICIPANTS` members.
    TooManyParticipants,
    /// The group has no other device to call.
    NoRemoteParticipants,
}

/// The most members a group call may have.
pub const MAX_CALL_PARTICIPANTS: usize = 8;

/// A character with ASCII letters folded to lower case.
pub open spec fn ascii_lower(c: char) -> char {
    if 'A' <= c <= 'Z' {
        ((c as int) + 32) as char
    } else {
        c
    }
}

/// Whether two texts are equal once ASCII letters are folded to lower case.
pub open spec fn same_ignoring_ascii_case(a: Seq<char>, b: Seq<char>) -> bool {
    a.len() == b.len() && forall|i: int| 0 <= i < a.len() ==> ascii_lower(#[trigger] a[i]) == ascii_lower(b[i])
}

fn lower_char(c: char) -> (r: char)
    ensures
        r == ascii_lower(c),
{
    if 'A' <= c && c <= 'Z' {
        ((c as u32) + 32) as u8 as char
    } else {
        c
    }
}

/// Whether two texts are equal once ASCII letters are folded to lower case.
pub fn eq_ignore_ascii_case(a: &str, b: &str) -> (r: bool)
    ensures
        r == same_ignoring_ascii_case(a@, b@),
{
    let n = a.unicode_len();
    if n != b.unicode_len() {
        return false;
    }
    let mut i: usize = 0;
    while i < n
        invariant
            n == a@.len(),
            n == b@.len(),
            i <= n,
            forall|j: int| 0 <= j < i ==> ascii_lower(#[trigger] a@[j]) == ascii_lower(b@[j]),
        decreases n - i,
    {
        if lower_char(a.get_char(i)) != lower_char(b.get_char(i)) {
            return false;
        }
        i = i + 1;
    }
    true
}

/// Whether a contact device can be reached: neither blocked nor removed.
pub open spec fn reachable(c: ContactKey) -> bool {
    !c.blocked && !c.removed
}

/// Whether a contact device answers to a name.
pub open spec fn named(c: ContactKey, name: Seq<char>) -> bool {
    same_ignoring_ascii_case(c.name@, name) && reachable(c)
}

/// The first contact device that answers to `name`.
pub fn find_named(contacts: &[ContactKey], name: &str) -> (r: Option<usize>)
    ensures
        r matches Some(i) ==> i < contacts@.len() && named(contacts@[i as int], name@) && forall|j: int|
            0 <= j < i ==> !named(#[trigger] contacts@[j], name@),
        r is None ==> forall|j: int| 0 <= j < contacts@.len() ==> !named(#[trigger] contacts@[j], name@),
{
    let mut i: usize = 0;
    while i < contacts.len()
        invariant
            i <= contacts@.len(),
            forall|j: int| 0 <= j < i ==> !named(#[trigger] contacts@[j], name@),
        decreases contacts@.len() - i,
    {
        let c = &contacts[i];
        if eq_ignore_ascii_case(c.name.as_str(), name) && !c.blocked && !c.removed {
            return Some(i);
        }
        i = i + 1;
    }
    None
}

/// The positions, in order, of the reachable devices of an identity.
pub open spec fn devices_of(contacts: Seq<ContactKey>, identity: IdentityId) -> Seq<usize>
    decreases contacts.len(),
{
    if contacts.len() == 0 {
        Seq::empty()
    } else {
        let rest = devices_of(contacts.drop_last(), identity);
        let c = contacts.last();
        if c.identity_id == identity && reachable(c) {
            rest.push((contacts.len() - 1) as usize)
        } else {
            rest
        }
    }
}

/// The positions, in order, of the reachable devices of an identity.
pub fn identity_devices_of(contacts: &[ContactKey], identity: IdentityId) -> (r: Vec<usize>)
    ensures
        r@ == devices_of(contacts@, identity),
{
    let mut out: Vec<usize> = Vec::new();
    let mut i: usize = 0;
    while i < contacts.len()
        invariant
            i <= contacts@.len(),
            out@ == devices_of(contacts@.take(i as int), identity),
        decreases contacts@.len() - i,
    {
        assert(contacts@.take(i as int + 1).drop_last() =~= contacts@.take(i as int));
        assert(contacts@.take(i as int + 1).last() == contacts@[i as int]);
        let c = &contacts[i];
        if c.identity_id.same(&identity) && !c.blocked && !c.removed {
            out.push(i);
        }
        i = i + 1;
    }
    assert(contacts@.take(i as int) =~= contacts@);
    out
}

/// The devices of the contact a name picks: every reachable device of the
/// identity of the first reachable contact device with that name, or
/// nothing where none has it.
pub fn contact_devices(contacts: &[ContactKey], name: &str) -> (r: Option<Vec<usize>>)
    ensures
        match r {
            Some(v) => exists|i: int|
                0 <= i < contacts@.len() && named(contacts@[i], name@) && (forall|j: int|
                    0 <= j < i ==> !named(#[trigger] contacts@[j], name@)) && v@ == devices_of(
                    contacts@,
                    contacts@[i].identity_id,
                ),
            None => forall|j: int| 0 <= j < contacts@.len() ==> !named(#[trigger] contacts@[j], name@),
        },
{
    match find_named(contacts, name) {
        Some(i) => Some(identity_devices_of(contacts, contacts[i].identity_id)),
        None => None,
    }
}

/// The positions, in order, of the contact devices other than the local one
/// that belong to a group.
pub open spec fn group_devices(contacts: Seq<ContactKey>, member_devices: Seq<DeviceId>, local: DeviceId) -> Seq<usize>
    decreases contacts.len(),
{
    if contacts.len() == 0 {
        Seq::empty()
    } else {
        let rest = group_devices(contacts.drop_last(), member_devices, local);
        let c = contacts.last();
        if c.device_id != local && has_device(member_devices, c.device_id) {
            rest.push((contacts.len() - 1) as usize)
        } else {
            rest
        }
    }
}

/// The contact devices a group message goes to: the group's member devices
/// other than the local one.
pub fn group_remote_contacts(contacts: &[ContactKey], group: &GroupProfile, local_device: DeviceId) -> (r: Vec<usize>)
    ensures
        r@ == group_devices(contacts@, group.member_devices@, local_device),
{
    let mut out: Vec<usize> = Vec::new();
    let mut i: usize = 0;
    while i < contacts.len()
        invariant
            i <= contacts@.len(),
            out@ == group_devices(contacts@.take(i as int), group.member_devices@, local_device),
        decreases contacts@.len() - i,
    {
        assert(contacts@.take(i as int + 1).drop_last() =~= contacts@.take(i as int));
        assert(contacts@.take(i as int + 1).last() == contacts@[i as int]);
        let c = &contacts[i];
        if !c.device_id.same(&local_device) && crate::group::contains_device(&group.member_devices, &c.device_id) {
            out.push(i);
        }
        i = i + 1;
    }
    assert(contacts@.take(i as int) =~= contacts@);
    out
}

/// Whether a group answers to a call target: by name, ignoring ASCII case,
/// or by its identifier in hexadecimal.
pub open spec fn group_named(group: GroupProfile, target: Seq<char>) -> bool {
    same_ignoring_ascii_case(group.name@, target) || hex_lower(group.id@) == target
}

/// Who a call to `target` rings: the reachable devices of the contact of
/// that name; otherwise the other devices of the group of that name or
/// identifier, for a group of at most `MAX_CALL_PARTICIPANTS` members.
pub fn resolve_call_recipients(
    contacts: &[ContactKey],
    groups: &[GroupProfile],
    target: &str,
    local_device: DeviceId,
) -> (r: Result<Vec<usize>, CallTargetError>)
    ensures
        (exists|i: int| 0 <= i < contacts@.len() && named(#[trigger] contacts@[i], target@)) ==> (r matches Ok(v)
            && exists|i: int|
            0 <= i < contacts@.len() && named(contacts@[i], target@) && (forall|j: int|
                0 <= j < i ==> !named(#[trigger] contacts@[j], target@)) && v@ == devices_of(
                contacts@,
                contacts@[i].identity_id,
            )),
        (forall|i: int| 0 <= i < contacts@.len() ==> !named(#[trigger] contacts@[i], target@)) ==> match r {
            Err(CallTargetError::NotFound) => forall|g: int| 0 <= g < groups@.len() ==> !group_named(#[trigger] groups@[g], target@),
            Err(CallTargetError::TooManyParticipants) => exists|g: int|
                0 <= g < groups@.len() && group_named(#[trigger] groups@[g], target@) && groups@[g].members@.len()
                    > MAX_CALL_PARTICIPANTS,
            Err(CallTargetError::NoRemoteParticipants) => exists|g: int|
                0 <= g < groups@.len() && group_named(#[trigger] groups@[g], target@) && group_devices(
                    contacts@,
                    groups@[g].member_devices@,
                    local_device,
                ).len() == 0,
            Ok(v) => exists|g: int|
                0 <= g < groups@.len() && group_named(#[trigger] groups@[g], target@) && (forall|h: int|
                    0 <= h < g ==> !group_named(#[trigger] groups@[h], target@)) && groups@[g].members@.len()
                    <= MAX_CALL_PARTICIPANTS && v@ == group_devices(contacts@, groups@[g].member_devices@, local_device)
                    && v@.len() > 0,
        },
{
    match find_named(contacts, target) {
        Some(i) => {
            return Ok(identity_devices_of(contacts, contacts[i].identity_id));
        },
        None => {},
    }
    let mut g: usize = 0;
    while g < groups.len()
        invariant
            g <= groups@.len(),
            forall|j: int| 0 <= j < contacts@.len() ==> !named(#[trigger] contacts@[j], target@),
            forall|h: int| 0 <= h < g ==> !group_named(#[trigger] groups@[h], target@),
        decreases groups@.len() - g,
    {
        let group = &groups[g];
        let by_id = group.id.to_hex();
        if eq_ignore_ascii_case(group.name.as_str(), target) || crate::text::same_text(by_id.as_str(), target) {
            if group.members.len() > MAX_CALL_PARTICIPANTS {
                return Err(CallTargetError::TooManyParticipants);
            }
            let recipients = group_remote_contacts(contacts, group, local_device);
            if recipients.len() == 0 {
                return Err(CallTargetError::NoRemoteParticipants);
            }
            return Ok(recipients);
        }
        g = g + 1;
    }
    Err(CallTargetError::NotFound)
}

/// Whether a sender is blocked: some device of its identity is.
pub open spec fn sender_blocked(contacts: Seq<ContactKey>, sender: IdentityId) -> bool {
    exists|i: int| 0 <= i < contacts.len() && (#[trigger] contacts[i]).identity_id == sender && contacts[i].blocked
}

/// Whether messages from an identity are dropped.
pub fn sender_is_blocked(contacts: &[ContactKey], sender: IdentityId) -> (r: bool)
    ensures
        r == sender_blocked(contacts@, sender),
{
    let mut i: usize = 0;
    while i < contacts.len()
        invariant
            i <= contacts@.len(),
            forall|j: int| 0 <= j < i ==> !((#[trigger] contacts@[j]).identity_id == sender && contacts@[j].blocked),
        decreases contacts@.len() - i,
    {
        if contacts[i].identity_id.same(&sender) && contacts[i].blocked {
            return true;
        }
        i = i + 1;
    }
    false
}

/// Where a contact device goes in the list: the position of the entry of
/// the same identity and device, which it replaces, or nothing, and it is
/// appended.
pub fn upsert_position(contacts: &[ContactKey], identity: IdentityId, device: DeviceId) -> (r: Option<usize>)
    ensures
        r matches Some(i) ==> i < contacts@.len() && contacts@[i as int].identity_id == identity
            && contacts@[i as int].device_id == device && forall|j: int|
            0 <= j < i ==> !((#[trigger] contacts@[j]).identity_id == identity && contacts@[j].device_id == device),
        r is None ==> forall|j: int|
            0 <= j < contacts@.len() ==> !((#[trigger] contacts@[j]).identity_id == identity && contacts@[j].device_id
                == device),
{
    let mut i: usize = 0;
    while i < contacts.len()
        invariant
            i <= contacts@.len(),
            forall|j: int|
                0 <= j < i ==> !((#[trigger] contacts@[j]).identity_id == identity && contacts@[j].device_id == device),
        decreases contacts@.len() - i,
    {
        if contacts[i].identity_id.same(&identity) && contacts[i].device_id.same(&device) {
            return Some(i);
        }
        i = i + 1;
    }
    None
}

/// The first contact device of an identity, if any.
pub open spec fn first_of(contacts: Seq<ContactKey>, identity: IdentityId) -> Option<int>
    decreases contacts.len(),
{
    if contacts.len() == 0 {
        None
    } else if contacts[0].identity_id == identity {
        Some(0)
    } else {
        match first_of(contacts.drop_first(), identity) {
            Some(i) => Some(i + 1),
            None => None,
        }
    }
}

/// The name a message's author is shown under: the local name for the
/// local identity, else the name of the author's first contact device,
/// else the short hexadecimal form of the author's identifier.
pub open spec fn author_name(
    local: IdentityId,
    local_name: Seq<char>,
    contacts: Seq<ContactKey>,
    author: IdentityId,
) -> Seq<char> {
    if author == local {
        local_name
    } else {
        match first_of(contacts, author) {
            Some(i) => contacts[i].name@,
            None => hex_lower(author@.take(6)),
        }
    }
}

/// The name a message's author is shown under.
pub fn author_label(local: IdentityId, local_name: &str, contacts: &[ContactKey], author: IdentityId) -> (r: String)
    ensures
        r@ == author_name(local, local_name@, contacts@, author),
{
    if author.same(&local) {
        return String::from_str(local_name);
    }
    let mut i: usize = 0;
    assert(contacts@.skip(0) =~= contacts@);
    while i < contacts.len()
        invariant
            i <= contacts@.len(),
            author != local,
            forall|j: int| 0 <= j < i ==> (#[trigger] contacts@[j]).identity_id != author,
            first_of(contacts@, author) == match first_of(contacts@.skip(i as int), author) {
                Some(k) => Some(k + i),
                None => None::<int>,
            },
        decreases contacts@.len() - i,
    {
        assert(contacts@.skip(i as int).drop_first() =~= contacts@.skip(i + 1));
        if contacts[i].identity_id.same(&author) {
            assert(contacts@.skip(i as int)[0] == contacts@[i as int]);
            return contacts[i].name.clone();
        }
        i = i + 1;
    }
    assert(contacts@.skip(i as int) =~= Seq::<ContactKey>::empty());
    author.short()
}

/// Whether a contact device is listed at all: it is not of the local
/// identity, and not removed.
pub open spec fn shown(c: ContactKey, local: IdentityId) -> bool {
    c.identity_id != local && !c.removed
}

/// Whether contact device `i` stands for its identity in the contact list:
/// it is shown, and no earlier shown device has the same identity.
pub open spec fn lists_identity(contacts: Seq<ContactKey>, local: IdentityId, i: int) -> bool {
    &&& shown(contacts[i], local)
    &&& forall|j: int| 0 <= j < i ==> !(shown(#[trigger] contacts[j], local) && contacts[j].identity_id
        == contacts[i].identity_id)
}

/// The positions, among the first `n`, of the devices that stand for
/// their identities in the contact list, in order.
pub open spec fn listed_positions(contacts: Seq<ContactKey>, local: IdentityId, n: int) -> Seq<usize>
    decreases n,
{
    if n <= 0 {
        Seq::empty()
    } else if lists_identity(contacts, local, n - 1) {
        listed_positions(contacts, local, n - 1).push((n - 1) as usize)
    } else {
        listed_positions(contacts, local, n - 1)
    }
}

/// How many of the first `n` contact devices belong to the identity.
pub open spec fn identity_device_count(contacts: Seq<ContactKey>, identity: IdentityId, n: int) -> nat
    decreases n,
{
    if n <= 0 {
        0
    } else {
        identity_device_count(contacts, identity, n - 1) + if contacts[n - 1].identity_id == identity {
            1nat
        } else {
            0nat
        }
    }
}

fn count_devices(contacts: &[ContactKey], identity: IdentityId) -> (r: usize)
    ensures
        r == identity_device_count(contacts@, identity, contacts@.len() as int),
{
    let mut count: usize = 0;
    let mut i: usize = 0;
    while i < contacts.len()
        invariant
            i <= contacts@.len(),
            count == identity_device_count(contacts@, identity, i as int),
            count <= i,
        decreases contacts@.len() - i,
    {
        if contacts[i].identity_id.same(&identity) {
            count = count + 1;
        }
        i = i + 1;
    }
    count
}

/// The contact list: one entry for each identity other than the local one
/// with a device that is not removed, at the position of its first such
/// device, with the number of devices of that identity the profile knows.
pub fn contact_list(contacts: &[ContactKey], local: IdentityId) -> (r: Vec<(usize, usize)>)
    ensures
        r@.len() == listed_positions(contacts@, local, contacts@.len() as int).len(),
        forall|k: int|
            0 <= k < r@.len() ==> {
                &&& (#[trigger] r@[k]).0 == listed_positions(contacts@, local, contacts@.len() as int)[k]
                &&& r@[k].1 == identity_device_count(
                    contacts@,
                    contacts@[r@[k].0 as int].identity_id,
                    contacts@.len() as int,
                )
            },
{
    let mut out: Vec<(usize, usize)> = Vec::new();
    let mut i: usize = 0;
    while i < contacts.len()
        invariant
            i <= contacts@.len(),
            out@.len() == listed_positions(contacts@, local, i as int).len(),
            forall|k: int|
                0 <= k < out@.len() ==> {
                    &&& (#[trigger] out@[k]).0 == listed_positions(contacts@, local, i as int)[k]
                    &&& out@[k].0 < i
                    &&& out@[k].1 == identity_device_count(
                        contacts@,
                        contacts@[out@[k].0 as int].identity_id,
                        contacts@.len() as int,
                    )
                },
        decreases contacts@.len() - i,
    {
        let c = &contacts[i];
        if !c.identity_id.same(&local) && !c.removed {
            let mut first = true;
            let mut j: usize = 0;
            while j < i
                invariant
                    j <= i < contacts@.len(),
                    first == forall|m: int| 0 <= m < j ==> !(shown(#[trigger] contacts@[m], local)
                        && contacts@[m].identity_id == contacts@[i as int].identity_id),
                decreases i - j,
            {
                if !contacts[j].identity_id.same(&local) && !contacts[j].removed
                    && contacts[j].identity_id.same(&contacts[i].identity_id) {
                    first = false;
                }
                j = j + 1;
            }
            if first {
                let count = count_devices(contacts, contacts[i].identity_id);
                out.push((i, count));
            }
        }
        i = i + 1;
    }
    out
}

/// The contact device with its flags changed: removed where `removed`
/// is set, blocked as `blocked` says where it is given.
pub open spec fn flagged(c: ContactKey, removed: bool, blocked: Option<bool>) -> ContactKey {
    ContactKey {
        removed: c.removed || removed,
        blocked: match blocked {
            Some(b) => b,
            None => c.blocked,
        },
        ..c
    }
}

/// The contact devices with those of the identity flagged.
pub open spec fn with_flags(contacts: Seq<ContactKey>, identity: IdentityId, removed: bool, blocked: Option<bool>) -> Seq<
    ContactKey,
> {
    Seq::new(
        contacts.len(),
        |i: int|
            if contacts[i].identity_id == identity {
                flagged(contacts[i], removed, blocked)
            } else {
                contacts[i]
            },
    )
}

/// Whether some contact device is of the identity.
pub open spec fn knows_identity(contacts: Seq<ContactKey>, identity: IdentityId) -> bool {
    exists|i: int| 0 <= i < contacts.len() && (#[trigger] contacts[i]).identity_id == identity
}

fn flag_identity(contacts: &mut Vec<ContactKey>, identity: IdentityId, removed: bool, blocked: Option<bool>) -> (r: bool)
    ensures
        final(contacts)@ == with_flags(old(contacts)@, identity, removed, blocked),
        r == knows_identity(old(contacts)@, identity),
{
    let ghost before = contacts@;
    let mut changed = false;
    let mut i: usize = 0;
    while i < contacts.len()
        invariant
            i <= contacts@.len(),
            contacts@.len() == before.len(),
            forall|k: int| i <= k < before.len() ==> #[trigger] contacts@[k] == before[k],
            forall|k: int|
                0 <= k < i ==> #[trigger] contacts@[k] == if before[k].identity_id == identity {
                    flagged(before[k], removed, blocked)
                } else {
                    before[k]
                },
            changed == exists|k: int| 0 <= k < i && (#[trigger] before[k]).identity_id == identity,
        decreases before.len() - i,
    {
        if contacts[i].identity_id.same(&identity) {
            let c = &contacts[i];
            let updated = ContactKey {
                name: c.name.clone(),
                identity_id: c.identity_id,
                device_id: c.device_id,
                blocked: match blocked {
                    Some(b) => b,
                    None => c.blocked,
                },
                removed: c.removed || removed,
                manually_verified: c.manually_verified,
                hide_presence: c.hide_presence,
            };
            contacts.set(i, updated);
            changed = true;
        }
        i = i + 1;
    }
    assert(contacts@ =~= with_flags(before, identity, removed, blocked));
    changed
}

/// Marks every device of the identity removed; answers whether it had
/// any.
pub fn remove_contact(contacts: &mut Vec<ContactKey>, identity: IdentityId) -> (r: bool)
    ensures
        final(contacts)@ == with_flags(old(contacts)@, identity, true, None),
        r == knows_identity(old(contacts)@, identity),
{
    flag_identity(contacts, identity, true, None)
}

/// Blocks or unblocks every device of the identity; answers whether it
/// had any.
pub fn block_contact(contacts: &mut Vec<ContactKey>, identity: IdentityId, blocked: bool) -> (r: bool)
    ensures
        final(contacts)@ == with_flags(old(contacts)@, identity, false, Some(blocked)),
        r == knows_identity(old(contacts)@, identity),
{
    flag_identity(contacts, identity, false, Some(blocked))
}

/// A per-contact setting the user chooses.
#[derive(Debug, Clone, Copy, PartialEq, Eq)]
pub enum ContactSetting {
    /// Whether presence is hidden from the contact.
    HidePresence(bool),
    /// Whether the user verified the contact by hand.
    ManuallyVerified(bool),
}

/// The contact device with the setting applied.
pub open spec fn with_setting(c: ContactKey, setting: ContactSetting) -> ContactKey {
    match setting {
        ContactSetting::HidePresence(b) => ContactKey { hide_presence: b, ..c },
        ContactSetting::ManuallyVerified(b) => ContactKey { manually_verified: b, ..c },
    }
}

/// The contact devices with the setting applied to those of the identity.
pub open spec fn with_identity_setting(contacts: Seq<ContactKey>, identity: IdentityId, setting: ContactSetting) -> Seq<
    ContactKey,
> {
    Seq::new(
        contacts.len(),
        |i: int|
            if contacts[i].identity_id == identity {
                with_setting(contacts[i], setting)
            } else {
                contacts[i]
            },
    )
}

/// Applies the setting to every device of the identity; answers whether it
/// had any.
pub fn set_contact_setting(contacts: &mut Vec<ContactKey>, identity: IdentityId, setting: ContactSetting) -> (r: bool)
    ensures
        final(contacts)@ == with_identity_setting(old(contacts)@, identity, setting),
        r == knows_identity(old(contacts)@, identity),
{
    let ghost before = contacts@;
    let mut changed = false;
    let mut i: usize = 0;
    while i < contacts.len()
        invariant
            i <= contacts@.len(),
            contacts@.len() == before.len(),
            forall|k: int| i <= k < before.len() ==> #[trigger] contacts@[k] == before[k],
            forall|k: int|
                0 <= k < i ==> #[trigger] contacts@[k] == if before[k].identity_id == identity {
                    with_setting(before[k], setting)
                } else {
                    before[k]
                },
            changed == exists|k: int| 0 <= k < i && (#[trigger] before[k]).identity_id == identity,
        decreases before.len() - i,
    {
        if contacts[i].identity_id.same(&identity) {
            let c = &contacts[i];
            let (manually_verified, hide_presence) = match setting {
                ContactSetting::HidePresence(b) => (c.manually_verified, b),
                ContactSetting::ManuallyVerified(b) => (b, c.hide_presence),
            };
            let updated = ContactKey {
                name: c.name.clone(),
                identity_id: c.identity_id,
                device_id: c.device_id,
                blocked: c.blocked,
                removed: c.removed,
                manually_verified,
                hide_presence,
            };
            contacts.set(i, updated);
            changed = true;
        }
        i = i + 1;
    }
    assert(contacts@ =~= with_identity_setting(before, identity, setting));
    changed
}

/// Hides presence from every device of the identity, or stops hiding it;
/// answers whether it had any.
pub fn set_contact_privacy(contacts: &mut Vec<ContactKey>, identity: IdentityId, hide_presence: bool) -> (r: bool)
    ensures
        final(contacts)@ == with_identity_setting(old(contacts)@, identity, ContactSetting::HidePresence(hide_presence)),
        r == knows_identity(old(contacts)@, identity),
{
    set_contact_setting(contacts, identity, ContactSetting::HidePresence(hide_presence))
}

/// Marks every device of the identity verified by hand, or not; answers
/// whether it had any.
pub fn set_contact_verified(contacts: &mut Vec<ContactKey>, identity: IdentityId, verified: bool) -> (r: bool)
    ensures
        final(contacts)@ == with_identity_setting(old(contacts)@, identity, ContactSetting::ManuallyVerified(verified)),
        r == knows_identity(old(contacts)@, identity),
{
    set_contact_setting(contacts, identity, ContactSetting::ManuallyVerified(verified))
}

/// The positions, in order, of the contact devices a device bundle carries
/// to a newly linked device: all but those of the local identity.
pub open spec fn bundle_positions(contacts: Seq<ContactKey>, local: IdentityId, n: int) -> Seq<usize>
    decreases n,
{
    if n <= 0 {
        Seq::empty()
    } else if contacts[n - 1].identity_id != local {
        bundle_positions(contacts, local, n - 1).push((n - 1) as usize)
    } else {
        bundle_positions(contacts, local, n - 1)
    }
}

/// The positions of the contact devices to hand a newly linked device, in
/// order: every device not of the local identity.
pub fn bundle_contacts(contacts: &[ContactKey], local: IdentityId) -> (r: Vec<usize>)
    ensures
        r@ == bundle_positions(contacts@, local, contacts@.len() as int),
{
    let mut out: Vec<usize> = Vec::new();
    let mut i: usize = 0;
    while i < contacts.len()
        invariant
            i <= contacts@.len(),
            out@ == bundle_positions(contacts@, local, i as int),
        decreases contacts@.len() - i,
    {
        if !contacts[i].identity_id.same(&local) {
            out.push(i);
        }
        i = i + 1;
    }
    out
}

/// Blocking a known identity drops its messages, and unblocking it lets
/// them through again.
pub proof fn law_blocking_decides_dropping(contacts: Seq<ContactKey>, identity: IdentityId)
    requires
        knows_identity(contacts, identity),
    ensures
        sender_blocked(with_flags(contacts, identity, false, Some(true)), identity),
        !sender_blocked(with_flags(contacts, identity, false, Some(false)), identity),
{
    let i = choose|i: int| 0 <= i < contacts.len() && (#[trigger] contacts[i]).identity_id == identity;
    let blocked = with_flags(contacts, identity, false, Some(true));
    assert(blocked[i].identity_id == identity && blocked[i].blocked);
    let unblocked = with_flags(contacts, identity, false, Some(false));
    assert forall|j: int| 0 <= j < unblocked.len() && (#[trigger] unblocked[j]).identity_id == identity implies !unblocked[j].blocked by {
        assert(contacts[j].identity_id == identity);
    }
}

/// The contact device whose record a packet from `sender`, routed by the
/// shared `secret`, refreshes: the first of that identity holding that
/// secret. `secrets` holds each contact device's shared secret.
pub fn refresh_template(contacts: &[ContactKey], secrets: &[[u8; 32]], sender: IdentityId, secret: &[u8; 32]) -> (r:
    Option<usize>)
    requires
        secrets@.len() == contacts@.len(),
    ensures
        r matches Some(i) ==> i < contacts@.len() && contacts@[i as int].identity_id == sender && secrets@[i as int]@
            == secret@ && forall|j: int|
            0 <= j < i ==> !((#[trigger] contacts@[j]).identity_id == sender && secrets@[j]@ == secret@),
        r is None ==> forall|j: int|
            0 <= j < contacts@.len() ==> !((#[trigger] contacts@[j]).identity_id == sender && secrets@[j]@ == secret@),
{
    let mut i: usize = 0;
    while i < contacts.len()
        invariant
            secrets@.len() == contacts@.len(),
            i <= contacts@.len(),
            forall|j: int| 0 <= j < i ==> !((#[trigger] contacts@[j]).identity_id == sender && secrets@[j]@ == secret@),
        decreases contacts@.len() - i,
    {
        if contacts[i].identity_id.same(&sender) && same_bytes32(&secrets[i], secret) {
            return Some(i);
        }
        i = i + 1;
    }
    None
}

/// The positions, in order, of the sender's contact devices that its
/// identity log no longer authorizes, which a refresh drops.
pub fn unauthorized_devices(contacts: &[ContactKey], sender: IdentityId, log: &IdentityLog) -> (r: Vec<usize>)
    requires
        log.wf(),
    ensures
        forall|k: int| 0 <= k < r@.len() ==> (#[trigger] r@[k]) < contacts@.len(),
        forall|a: int, b: int| 0 <= a < b < r@.len() ==> r@[a] < r@[b],
        forall|i: int|
            0 <= i < contacts@.len() ==> (r@.contains(i as usize) <==> ((#[trigger] contacts@[i]).identity_id == sender
                && !is_active(log@, contacts@[i].device_id@))),
{
    let mut out: Vec<usize> = Vec::new();
    let mut i: usize = 0;
    while i < contacts.len()
        invariant
            log.wf(),
            i <= contacts@.len(),
            forall|k: int| 0 <= k < out@.len() ==> (#[trigger] out@[k]) < i,
            forall|a: int, b: int| 0 <= a < b < out@.len() ==> out@[a] < out@[b],
            forall|j: int|
                0 <= j < contacts@.len() ==> (out@.contains(j as usize) <==> (j < i && (#[trigger] contacts@[j]).identity_id
                    == sender && !is_active(log@, contacts@[j].device_id@))),
        decreases contacts@.len() - i,
    {
        let drop = contacts[i].identity_id.same(&sender) && log.active_device(contacts[i].device_id).is_none();
        let ghost before = out@;
        if drop {
            out.push(i);
        }
        proof {
            assert forall|j: int| 0 <= j < contacts@.len() implies (out@.contains(j as usize) <==> (j < i + 1
                && (#[trigger] contacts@[j]).identity_id == sender && !is_active(log@, contacts@[j].device_id@))) by {
                if out@.contains(j as usize) {
                    let k = choose|k: int| 0 <= k < out@.len() && out@[k] == j as usize;
                    if drop && k == out@.len() - 1 {
                        assert(j == i);
                    } else {
                        assert(before[k] == j as usize);
                        assert(before.contains(j as usize));
                    }
                }
                if j < i + 1 && contacts@[j].identity_id == sender && !is_active(log@, contacts@[j].device_id@) {
                    if j < i {
                        assert(before.contains(j as usize));
                        let k = choose|k: int| 0 <= k < before.len() && before[k] == j as usize;
                        assert(out@[k] == j as usize);
                    } else {
                        assert(out@[out@.len() - 1] == j as usize);
                    }
                }
            }
        }
        i = i + 1;
    }
    out
}

} // verus!
