//! The rules a device applies to group control messages and group events
//! from its contacts: who may welcome, commit, rename, dissolve, publish and
//! replay, and what a commit does to the local copy of the group.
use vstd::prelude::*;
use crate::ids::{ConversationId, DeviceId, EventId, IdentityId};
use crate::protocol::{BlobManifest, ConversationEvent, EventBody, same_bytes32};
use crate::client::{event_references_attachment, references_attachment};
use crate::identity::{device_id_from_public_key, device_id_of, is_active, IdentityEvent, IdentityEventKind, IdentityLog};

verus! {

/// The most chunks a group attachment may have.
pub const MAX_GROUP_ATTACHMENT_CHUNKS: usize = 65536;

/// The largest sealed chunk of a group attachment: 4 MiB.
pub const MAX_GROUP_CHUNK_BYTES: usize = 4194304;

/// The local record of a group.
#[derive(Debug, Clone)]
pub struct GroupProfile {
    pub id: ConversationId,
    pub name: String,
    pub owner: IdentityId,
    pub admins: Vec<IdentityId>,
    pub members: Vec<IdentityId>,
    pub member_devices: Vec<DeviceId>,
    /// From when on each member may be sent the group's history.
    pub history_since_ms: Vec<(IdentityId, i64)>,
}

/// Why a group message was refused.
#[derive(Debug, Clone, Copy, PartialEq, Eq)]
pub enum GroupRuleError {
    /// A welcome must come from the owner and name both the owner and the
    /// local identity as members.
    InvalidWelcome,
    /// The group is not known locally.
    UnknownGroup,
    /// The sender is not a member.
    NotMember,
    /// The event's conversation or author is not the sender's.
    AuthorMismatch,
    /// An edit or deletion targets a message the sender did not create.
    ForeignMutation,
    /// Only the owner or an administrator may commit membership changes, and
    /// a commit cannot change the owner.
    NotAdministrator,
    /// A profile update must come from the owner, keep the members and their
    /// devices, keep the owner a member, and name as administrators only
    /// members other than the owner.
    InvalidProfileUpdate,
    /// Only the owner may dissolve the group.
    NotOwner,
    /// An attachment manifest must be named by its ciphertext digest and
    /// have at most `MAX_GROUP_ATTACHMENT_CHUNKS` chunks.
    InvalidManifest,
    /// An attachment's event must be the sender's, in the group, and carry
    /// the attachment.
    AttachmentMismatch,
    /// A chunk exceeds `MAX_GROUP_CHUNK_BYTES`.
    ChunkTooLarge,
    /// The chunks of one attachment came for two groups.
    ChangedConversation,
    /// A replayed event is outside the history the local member may see.
    OutsideHistory,
}

/// Whether an identity is among the identities.
pub open spec fn has_identity(ids: Seq<IdentityId>, id: IdentityId) -> bool {
    exists|i: int| 0 <= i < ids.len() && ids[i] == id
}

/// Whether an identity is among the identities.
pub fn contains_identity(ids: &Vec<IdentityId>, id: &IdentityId) -> (r: bool)
    ensures
        r == has_identity(ids@, *id),
{
    let mut i: usize = 0;
    while i < ids.len()
        invariant
            i <= ids@.len(),
            forall|j: int| 0 <= j < i ==> ids@[j] != *id,
        decreases ids@.len() - i,
    {
        if ids[i].same(id) {
            assert(ids@[i as int] == *id);
            return true;
        }
        i = i + 1;
    }
    false
}

/// Whether two device lists are the same.
fn same_devices(a: &Vec<DeviceId>, b: &Vec<DeviceId>) -> (r: bool)
    ensures
        r == (a@ == b@),
{
    if a.len() != b.len() {
        return false;
    }
    let mut i: usize = 0;
    while i < a.len()
        invariant
            i <= a@.len(),
            a@.len() == b@.len(),
            forall|j: int| 0 <= j < i ==> a@[j] == b@[j],
        decreases a@.len() - i,
    {
        if !a[i].same(&b[i]) {
            return false;
        }
        i = i + 1;
    }
    assert(a@ =~= b@);
    true
}

/// Whether two identity lists are the same.
fn same_identities(a: &Vec<IdentityId>, b: &Vec<IdentityId>) -> (r: bool)
    ensures
        r == (a@ == b@),
{
    if a.len() != b.len() {
        return false;
    }
    let mut i: usize = 0;
    while i < a.len()
        invariant
            i <= a@.len(),
            a@.len() == b@.len(),
            forall|j: int| 0 <= j < i ==> a@[j] == b@[j],
        decreases a@.len() - i,
    {
        if !a[i].same(&b[i]) {
            return false;
        }
        i = i + 1;
    }
    assert(a@ =~= b@);
    true
}

/// Whether a welcome into `group` from `sender` is acceptable to `local`.
pub open spec fn welcome_valid(group: GroupProfile, sender: IdentityId, local: IdentityId) -> bool {
    &&& group.owner == sender
    &&& has_identity(group.members@, local)
    &&& has_identity(group.members@, group.owner)
}

/// Checks a welcome into a group.
pub fn check_welcome(group: &GroupProfile, sender: IdentityId, local: IdentityId) -> (r: Result<(), GroupRuleError>)
    ensures
        r is Ok <==> welcome_valid(*group, sender, local),
        r is Err ==> r == Err::<(), GroupRuleError>(GroupRuleError::InvalidWelcome),
{
    if !group.owner.same(&sender) || !contains_identity(&group.members, &local) || !contains_identity(
        &group.members,
        &group.owner,
    ) {
        return Err(GroupRuleError::InvalidWelcome);
    }
    Ok(())
}

/// The position of a group among the known groups, by identifier.
pub fn find_group(groups: &Vec<GroupProfile>, id: &ConversationId) -> (r: Option<usize>)
    ensures
        r matches Some(i) ==> i < groups@.len() && groups@[i as int].id == *id && forall|j: int|
            0 <= j < i ==> groups@[j].id != *id,
        r is None ==> forall|j: int| 0 <= j < groups@.len() ==> groups@[j].id != *id,
{
    let mut i: usize = 0;
    while i < groups.len()
        invariant
            i <= groups@.len(),
            forall|j: int| 0 <= j < i ==> groups@[j].id != *id,
        decreases groups@.len() - i,
    {
        if groups[i].id.same(id) {
            return Some(i);
        }
        i = i + 1;
    }
    None
}

/// Whether the sender may commit a membership change from `previous` to
/// `proposed`: an owner or administrator, keeping the owner.
pub open spec fn commit_authorized(previous: GroupProfile, proposed: GroupProfile, sender: IdentityId) -> bool {
    &&& (previous.owner == sender || has_identity(previous.admins@, sender))
    &&& proposed.owner == previous.owner
}

/// What a valid commit does to the local record.
#[derive(Debug, Clone, Copy, PartialEq, Eq)]
pub enum CommitEffect {
    /// The local identity stays a member: the record becomes the proposed
    /// group.
    Replace,
    /// The local identity was removed: the group is forgotten.
    Leave,
}

/// Checks a membership commit and tells what it does locally.
pub fn check_commit(previous: &GroupProfile, proposed: &GroupProfile, sender: IdentityId, local: IdentityId) -> (r:
    Result<CommitEffect, GroupRuleError>)
    ensures
        !commit_authorized(*previous, *proposed, sender) ==> r == Err::<CommitEffect, GroupRuleError>(
            GroupRuleError::NotAdministrator,
        ),
        commit_authorized(*previous, *proposed, sender) ==> r == Ok::<CommitEffect, GroupRuleError>(
            if has_identity(proposed.members@, local) {
                CommitEffect::Replace
            } else {
                CommitEffect::Leave
            },
        ),
{
    let authorized = previous.owner.same(&sender) || contains_identity(&previous.admins, &sender);
    if !authorized || !proposed.owner.same(&previous.owner) {
        return Err(GroupRuleError::NotAdministrator);
    }
    if contains_identity(&proposed.members, &local) {
        Ok(CommitEffect::Replace)
    } else {
        Ok(CommitEffect::Leave)
    }
}

/// Whether a profile update from `sender` may replace `previous` with
/// `proposed`.
pub open spec fn profile_update_valid(previous: GroupProfile, proposed: GroupProfile, sender: IdentityId) -> bool {
    &&& previous.owner == sender
    &&& previous.members@ == proposed.members@
    &&& previous.member_devices@ == proposed.member_devices@
    &&& has_identity(proposed.members@, proposed.owner)
    &&& forall|i: int|
        0 <= i < proposed.admins@.len() ==> has_identity(proposed.members@, #[trigger] proposed.admins@[i])
            && proposed.admins@[i] != proposed.owner
}

/// Checks a profile update: a new name, administrators or history window,
/// never new members.
pub fn check_profile_update(previous: &GroupProfile, proposed: &GroupProfile, sender: IdentityId) -> (r: Result<
    (),
    GroupRuleError,
>)
    ensures
        r is Ok <==> profile_update_valid(*previous, *proposed, sender),
        r is Err ==> r == Err::<(), GroupRuleError>(GroupRuleError::InvalidProfileUpdate),
{
    if !previous.owner.same(&sender) || !same_identities(&previous.members, &proposed.members) || !same_devices(
        &previous.member_devices,
        &proposed.member_devices,
    ) || !contains_identity(&proposed.members, &proposed.owner) {
        return Err(GroupRuleError::InvalidProfileUpdate);
    }
    let mut i: usize = 0;
    while i < proposed.admins.len()
        invariant
            i <= proposed.admins@.len(),
            forall|j: int|
                0 <= j < i ==> has_identity(proposed.members@, #[trigger] proposed.admins@[j])
                    && proposed.admins@[j] != proposed.owner,
        decreases proposed.admins@.len() - i,
    {
        let admin = &proposed.admins[i];
        if !contains_identity(&proposed.members, admin) || admin.same(&proposed.owner) {
            return Err(GroupRuleError::InvalidProfileUpdate);
        }
        i = i + 1;
    }
    Ok(())
}

/// Checks that the sender owns the group it dissolves.
pub fn check_dissolve(group: &GroupProfile, sender: IdentityId) -> (r: Result<(), GroupRuleError>)
    ensures
        r is Ok <==> group.owner == sender,
        r is Err ==> r == Err::<(), GroupRuleError>(GroupRuleError::NotOwner),
{
    if group.owner.same(&sender) {
        Ok(())
    } else {
        Err(GroupRuleError::NotOwner)
    }
}

/// Checks that the sender is a member of the group.
pub fn check_member(group: &GroupProfile, sender: IdentityId) -> (r: Result<(), GroupRuleError>)
    ensures
        r is Ok <==> has_identity(group.members@, sender),
        r is Err ==> r == Err::<(), GroupRuleError>(GroupRuleError::NotMember),
{
    if contains_identity(&group.members, &sender) {
        Ok(())
    } else {
        Err(GroupRuleError::NotMember)
    }
}

/// Checks that a group event belongs to the group and is the sender's own.
pub fn check_event_author(event: &ConversationEvent, group_id: ConversationId, sender: IdentityId) -> (r: Result<
    (),
    GroupRuleError,
>)
    ensures
        r is Ok <==> event.conversation_id == group_id && event.author_identity == sender,
        r is Err ==> r == Err::<(), GroupRuleError>(GroupRuleError::AuthorMismatch),
{
    if !event.conversation_id.same(&group_id) || !event.author_identity.same(&sender) {
        return Err(GroupRuleError::AuthorMismatch);
    }
    Ok(())
}

/// The message an event edits or deletes, if it does.
pub open spec fn mutation_target(body: EventBody) -> Option<EventId> {
    match body {
        EventBody::MessageEdit { target, .. } => Some(target),
        EventBody::MessageDelete { target } => Some(target),
        _ => None,
    }
}

/// Whether one of the events is a message `sender` created with identifier
/// `target`.
pub open spec fn created_by(events: Seq<ConversationEvent>, target: EventId, sender: IdentityId) -> bool {
    exists|i: int|
        0 <= i < events.len() && (#[trigger] events[i]).event_id == target && events[i].author_identity == sender
            && events[i].body is MessageCreate
}

/// Checks that an edit or deletion targets a message its sender created,
/// among the group's stored events; other events pass.
pub fn check_mutation(event: &ConversationEvent, stored: &[ConversationEvent], sender: IdentityId) -> (r: Result<
    (),
    GroupRuleError,
>)
    ensures
        r is Ok <==> match mutation_target(event.body) {
            Some(target) => created_by(stored@, target, sender),
            None => true,
        },
        r is Err ==> r == Err::<(), GroupRuleError>(GroupRuleError::ForeignMutation),
{
    let target = match &event.body {
        EventBody::MessageEdit { target, .. } => *target,
        EventBody::MessageDelete { target } => *target,
        _ => {
            return Ok(());
        },
    };
    let mut i: usize = 0;
    while i < stored.len()
        invariant
            i <= stored@.len(),
            mutation_target(event.body) == Some(target),
            forall|j: int|
                0 <= j < i ==> !((#[trigger] stored@[j]).event_id == target && stored@[j].author_identity == sender
                    && stored@[j].body is MessageCreate),
        decreases stored@.len() - i,
    {
        let candidate = &stored[i];
        let is_create = match &candidate.body {
            EventBody::MessageCreate { .. } => true,
            _ => false,
        };
        if candidate.event_id.same(&target) && candidate.author_identity.same(&sender) && is_create {
            return Ok(());
        }
        i = i + 1;
    }
    Err(GroupRuleError::ForeignMutation)
}

/// From when on an identity may see the group's history; `i64::MAX`, never,
/// where the group records no start for it.
pub open spec fn history_floor_of(history: Seq<(IdentityId, i64)>, identity: IdentityId) -> i64
    decreases history.len(),
{
    if history.len() == 0 {
        i64::MAX
    } else if history[0].0 == identity {
        history[0].1
    } else {
        history_floor_of(history.drop_first(), identity)
    }
}

/// From when on an identity may see the group's history.
pub fn history_floor(group: &GroupProfile, identity: IdentityId) -> (r: i64)
    ensures
        r == history_floor_of(group.history_since_ms@, identity),
{
    let mut i: usize = 0;
    assert(group.history_since_ms@.skip(0) =~= group.history_since_ms@);
    while i < group.history_since_ms.len()
        invariant
            i <= group.history_since_ms@.len(),
            history_floor_of(group.history_since_ms@, identity) == history_floor_of(
                group.history_since_ms@.skip(i as int),
                identity,
            ),
        decreases group.history_since_ms@.len() - i,
    {
        let (id, floor) = group.history_since_ms[i];
        assert(group.history_since_ms@.skip(i as int)[0] == (id, floor));
        if id.same(&identity) {
            return floor;
        }
        assert(group.history_since_ms@.skip(i as int).drop_first() =~= group.history_since_ms@.skip(i + 1));
        i = i + 1;
    }
    i64::MAX
}

/// The events, in order, that a member whose history starts at `floor` is
/// sent when it asks to catch up: those the local identity authored, from
/// the floor on.
pub open spec fn replayable(events: Seq<ConversationEvent>, floor: i64, local: IdentityId) -> Seq<ConversationEvent>
    decreases events.len(),
{
    if events.len() == 0 {
        Seq::empty()
    } else {
        let rest = replayable(events.drop_last(), floor, local);
        let e = events.last();
        if e.logical_time_ms >= floor && e.author_identity == local {
            rest.push(e)
        } else {
            rest
        }
    }
}

/// The events to replay to a member whose history starts at `floor`, of
/// those its frontier does not cover.
pub fn events_to_replay(events: &[ConversationEvent], floor: i64, local: IdentityId) -> (r: Vec<usize>)
    ensures
        r@.len() == replayable(events@, floor, local).len(),
        forall|k: int| 0 <= k < r@.len() ==> r@[k] < events@.len() && events@[r@[k] as int] == replayable(
            events@,
            floor,
            local,
        )[k],
{
    let mut out: Vec<usize> = Vec::new();
    let mut i: usize = 0;
    while i < events.len()
        invariant
            i <= events@.len(),
            out@.len() == replayable(events@.take(i as int), floor, local).len(),
            forall|k: int|
                0 <= k < out@.len() ==> #[trigger] out@[k] < i && events@[out@[k] as int] == replayable(
                    events@.take(i as int),
                    floor,
                    local,
                )[k],
        decreases events@.len() - i,
    {
        let ghost before = replayable(events@.take(i as int), floor, local);
        let ghost out_before = out@;
        assert(events@.take(i as int + 1).drop_last() =~= events@.take(i as int));
        assert(events@.take(i as int + 1).last() == events@[i as int]);
        let ghost after = replayable(events@.take(i as int + 1), floor, local);
        let e = &events[i];
        if e.logical_time_ms >= floor && e.author_identity.same(&local) {
            out.push(i);
            assert(after == before.push(events@[i as int]));
        } else {
            assert(after == before);
        }
        assert forall|k: int| 0 <= k < out@.len() implies out@[k] < i + 1 && events@[out@[k] as int] == after[k] by {
            if k < out_before.len() {
                assert(out@[k] == out_before[k]);
                assert(out_before[k] < i && events@[out_before[k] as int] == before[k]);
                assert(after[k] == before[k]);
            }
        }
        i = i + 1;
    }
    assert(events@.take(i as int) =~= events@);
    assert(replayable(events@.take(i as int), floor, local) == replayable(events@, floor, local));
    out
}

/// Checks that a replayed event is the sender's, in the group, and within
/// the history the local member may see.
pub fn check_replayed_event(event: &ConversationEvent, group_id: ConversationId, sender: IdentityId, local_floor: i64) -> (r:
    Result<(), GroupRuleError>)
    ensures
        r is Ok <==> event.conversation_id == group_id && event.author_identity == sender && event.logical_time_ms
            >= local_floor,
        r is Err ==> r == Err::<(), GroupRuleError>(GroupRuleError::OutsideHistory),
{
    if !event.conversation_id.same(&group_id) || !event.author_identity.same(&sender) || event.logical_time_ms
        < local_floor {
        return Err(GroupRuleError::OutsideHistory);
    }
    Ok(())
}

/// Whether an attachment offer's manifest and event are acceptable.
pub open spec fn file_offer_valid(
    manifest: BlobManifest,
    transfer_id: Seq<u8>,
    event: ConversationEvent,
    group_id: ConversationId,
    sender: IdentityId,
) -> bool {
    &&& manifest.ciphertext_hash@ == transfer_id
    &&& manifest.chunk_hashes@.len() <= MAX_GROUP_ATTACHMENT_CHUNKS
    &&& event.conversation_id == group_id
    &&& event.author_identity == sender
    &&& references_attachment(event.body, transfer_id)
}

/// Checks an attachment offer: the manifest first, then its event.
pub fn check_file_offer(
    manifest: &BlobManifest,
    transfer_id: &[u8; 32],
    event: &ConversationEvent,
    group_id: ConversationId,
    sender: IdentityId,
) -> (r: Result<(), GroupRuleError>)
    ensures
        r is Ok <==> file_offer_valid(*manifest, transfer_id@, *event, group_id, sender),
        manifest.ciphertext_hash@ != transfer_id@ || manifest.chunk_hashes@.len() > MAX_GROUP_ATTACHMENT_CHUNKS
            ==> r == Err::<(), GroupRuleError>(GroupRuleError::InvalidManifest),
        manifest.ciphertext_hash@ == transfer_id@ && manifest.chunk_hashes@.len() <= MAX_GROUP_ATTACHMENT_CHUNKS
            && r is Err ==> r == Err::<(), GroupRuleError>(GroupRuleError::AttachmentMismatch),
{
    if !same_bytes32(&manifest.ciphertext_hash, transfer_id) || manifest.chunk_hashes.len()
        > MAX_GROUP_ATTACHMENT_CHUNKS {
        return Err(GroupRuleError::InvalidManifest);
    }
    if !event.conversation_id.same(&group_id) || !event.author_identity.same(&sender)
        || !event_references_attachment(event, transfer_id) {
        return Err(GroupRuleError::AttachmentMismatch);
    }
    Ok(())
}

/// Checks one chunk of a group attachment: its size, and that it belongs to
/// the same group as the chunks before it.
pub fn check_file_chunk(chunk_len: usize, known_group: Option<ConversationId>, group_id: ConversationId) -> (r:
    Result<(), GroupRuleError>)
    ensures
        chunk_len > MAX_GROUP_CHUNK_BYTES ==> r == Err::<(), GroupRuleError>(GroupRuleError::ChunkTooLarge),
        chunk_len <= MAX_GROUP_CHUNK_BYTES ==> (r is Ok <==> match known_group {
            Some(g) => g == group_id,
            None => true,
        }),
        chunk_len <= MAX_GROUP_CHUNK_BYTES && r is Err ==> r == Err::<(), GroupRuleError>(
            GroupRuleError::ChangedConversation,
        ),
{
    if chunk_len > MAX_GROUP_CHUNK_BYTES {
        return Err(GroupRuleError::ChunkTooLarge);
    }
    match known_group {
        Some(g) => if g.same(&group_id) {
            Ok(())
        } else {
            Err(GroupRuleError::ChangedConversation)
        },
        None => Ok(()),
    }
}

/// Whether a device is among the devices.
pub open spec fn has_device(devices: Seq<DeviceId>, device: DeviceId) -> bool {
    exists|i: int| 0 <= i < devices.len() && devices[i] == device
}

/// Whether a device is among the devices.
pub fn contains_device(devices: &Vec<DeviceId>, device: &DeviceId) -> (r: bool)
    ensures
        r == has_device(devices@, *device),
{
    let mut i: usize = 0;
    while i < devices.len()
        invariant
            i <= devices@.len(),
            forall|j: int| 0 <= j < i ==> devices@[j] != *device,
        decreases devices@.len() - i,
    {
        if devices[i].same(device) {
            assert(devices@[i as int] == *device);
            return true;
        }
        i = i + 1;
    }
    false
}

/// Whether the local identity owns a group that counts `identity` as a
/// member but does not yet hold `device`: the groups a newly authorized
/// device of a member is added to.
pub open spec fn missing_device(group: GroupProfile, local: IdentityId, identity: IdentityId, device: DeviceId) -> bool {
    &&& group.owner == local
    &&& has_identity(group.members@, identity)
    &&& !has_device(group.member_devices@, device)
}

/// The positions, ascending, of the groups a new device of a member must be
/// added to.
pub open spec fn missing_positions(groups: Seq<GroupProfile>, local: IdentityId, identity: IdentityId, device: DeviceId) -> Seq<
    usize,
>
    decreases groups.len(),
{
    if groups.len() == 0 {
        Seq::empty()
    } else {
        let rest = missing_positions(groups.drop_last(), local, identity, device);
        if missing_device(groups.last(), local, identity, device) {
            rest.push((groups.len() - 1) as usize)
        } else {
            rest
        }
    }
}

/// The positions, ascending, of the owned groups a new device of a member
/// must be added to.
pub fn groups_missing_device(groups: &Vec<GroupProfile>, local: IdentityId, identity: IdentityId, device: DeviceId) -> (r:
    Vec<usize>)
    ensures
        r@ == missing_positions(groups@, local, identity, device),
{
    let mut out: Vec<usize> = Vec::new();
    let mut i: usize = 0;
    while i < groups.len()
        invariant
            i <= groups@.len(),
            out@ == missing_positions(groups@.take(i as int), local, identity, device),
        decreases groups@.len() - i,
    {
        assert(groups@.take(i as int + 1).drop_last() =~= groups@.take(i as int));
        assert(groups@.take(i as int + 1).last() == groups@[i as int]);
        let group = &groups[i];
        if group.owner.same(&local) && contains_identity(&group.members, &identity) && !contains_device(
            &group.member_devices,
            &device,
        ) {
            out.push(i);
        }
        i = i + 1;
    }
    assert(groups@.take(i as int) =~= groups@);
    out
}

/// The device an identity event authorizes, if it authorizes one.
pub open spec fn authorized_by(event: IdentityEvent) -> Option<DeviceId> {
    match event.kind {
        IdentityEventKind::Genesis { public_key, .. } => Some(crate::identity::device_with_bytes(device_id_of(public_key@))),
        IdentityEventKind::AddDevice { public_key, .. } => Some(crate::identity::device_with_bytes(device_id_of(public_key@))),
        IdentityEventKind::RevokeDevice { .. } => None,
    }
}

/// The devices a log has ever authorized, in the order of its events.
pub open spec fn authorized_devices(events: Seq<IdentityEvent>) -> Seq<DeviceId>
    decreases events.len(),
{
    if events.len() == 0 {
        Seq::empty()
    } else {
        let rest = authorized_devices(events.drop_last());
        match authorized_by(events.last()) {
            Some(d) => rest.push(d),
            None => rest,
        }
    }
}

/// The devices a log has ever authorized: those of its genesis and
/// added-device events, in order.
pub fn identity_devices(events: &[IdentityEvent]) -> (r: Vec<DeviceId>)
    ensures
        r@ == authorized_devices(events@),
{
    let mut out: Vec<DeviceId> = Vec::new();
    let mut i: usize = 0;
    while i < events.len()
        invariant
            i <= events@.len(),
            out@ == authorized_devices(events@.take(i as int)),
        decreases events@.len() - i,
    {
        assert(events@.take(i as int + 1).drop_last() =~= events@.take(i as int));
        assert(events@.take(i as int + 1).last() == events@[i as int]);
        match &events[i].kind {
            IdentityEventKind::Genesis { public_key, .. } => {
                out.push(device_id_from_public_key(public_key));
            },
            IdentityEventKind::AddDevice { public_key, .. } => {
                out.push(device_id_from_public_key(public_key));
            },
            IdentityEventKind::RevokeDevice { .. } => {},
        }
        i = i + 1;
    }
    assert(events@.take(i as int) =~= events@);
    out
}

/// A log's devices are read off its events in order: the result holds, at
/// strictly increasing event positions, one device for every genesis and
/// every added-device event, the device whose identifier is the digest of
/// that event's public key, and nothing for any other event. The positions
/// are returned.
pub proof fn law_identity_devices_follow_events(events: Seq<IdentityEvent>) -> (idx: Seq<int>)
    ensures
        idx.len() == authorized_devices(events).len(),
        forall|j: int|
            0 <= j < idx.len() ==> 0 <= #[trigger] idx[j] < events.len() && ((events[idx[j]].kind matches
                IdentityEventKind::Genesis { public_key, .. } && authorized_devices(events)[j]
                == crate::identity::device_with_bytes(device_id_of(public_key@))) || (events[idx[j]].kind matches
                IdentityEventKind::AddDevice { public_key, .. } && authorized_devices(events)[j]
                == crate::identity::device_with_bytes(device_id_of(public_key@)))),
        forall|i: int, j: int| 0 <= i < j < idx.len() ==> #[trigger] idx[i] < #[trigger] idx[j],
        forall|k: int|
            0 <= k < events.len() ==> ((#[trigger] events[k]).kind is Genesis || events[k].kind is AddDevice
                <==> exists|j: int| 0 <= j < idx.len() && idx[j] == k),
    decreases events.len(),
{
    if events.len() == 0 {
        Seq::empty()
    } else {
        let prefix = events.drop_last();
        let n = events.len() - 1;
        let rest = law_identity_devices_follow_events(prefix);
        let e = events.last();
        assert forall|k: int| 0 <= k < n implies events[k] == prefix[k] by {}
        if e.kind is Genesis || e.kind is AddDevice {
            let idx = rest.push(n);
            assert forall|j: int| 0 <= j < idx.len() implies 0 <= #[trigger] idx[j] < events.len() && ((
            events[idx[j]].kind matches IdentityEventKind::Genesis { public_key, .. } && authorized_devices(
                events,
            )[j] == crate::identity::device_with_bytes(device_id_of(public_key@))) || (events[idx[j]].kind matches
                IdentityEventKind::AddDevice { public_key, .. } && authorized_devices(events)[j]
                == crate::identity::device_with_bytes(device_id_of(public_key@)))) by {
                if j < rest.len() {
                    assert(idx[j] == rest[j]);
                    assert(events[rest[j]] == prefix[rest[j]]);
                }
            }
            assert forall|k: int| 0 <= k < events.len() implies ((#[trigger] events[k]).kind is Genesis
                || events[k].kind is AddDevice <==> exists|j: int| 0 <= j < idx.len() && idx[j] == k) by {
                if k < n {
                    assert(events[k] == prefix[k]);
                    if prefix[k].kind is Genesis || prefix[k].kind is AddDevice {
                        let j = choose|j: int| 0 <= j < rest.len() && rest[j] == k;
                        assert(idx[j] == k);
                    }
                    if exists|j: int| 0 <= j < idx.len() && idx[j] == k {
                        let j = choose|j: int| 0 <= j < idx.len() && idx[j] == k;
                        assert(j < rest.len());
                        assert(rest[j] == k);
                    }
                } else {
                    assert(idx[rest.len() as int] == k);
                }
            }
            idx
        } else {
            assert forall|j: int| 0 <= j < rest.len() implies 0 <= #[trigger] rest[j] < events.len() && ((
            events[rest[j]].kind matches IdentityEventKind::Genesis { public_key, .. } && authorized_devices(
                events,
            )[j] == crate::identity::device_with_bytes(device_id_of(public_key@))) || (events[rest[j]].kind matches
                IdentityEventKind::AddDevice { public_key, .. } && authorized_devices(events)[j]
                == crate::identity::device_with_bytes(device_id_of(public_key@)))) by {
                assert(events[rest[j]] == prefix[rest[j]]);
            }
            assert forall|k: int| 0 <= k < events.len() implies ((#[trigger] events[k]).kind is Genesis
                || events[k].kind is AddDevice <==> exists|j: int| 0 <= j < rest.len() && rest[j] == k) by {
                if k < n {
                    assert(events[k] == prefix[k]);
                } else {
                    if exists|j: int| 0 <= j < rest.len() && rest[j] == k {
                        let j = choose|j: int| 0 <= j < rest.len() && rest[j] == k;
                        assert(rest[j] < prefix.len());
                    }
                }
            }
            rest
        }
    }
}

/// The member devices, in order, that a log authorized once (they are among
/// `known`) and no longer holds active.
pub open spec fn revoked_of(devices: Seq<DeviceId>, known: Seq<DeviceId>, log: IdentityLog) -> Seq<DeviceId>
    decreases devices.len(),
{
    if devices.len() == 0 {
        Seq::empty()
    } else {
        let rest = revoked_of(devices.drop_last(), known, log);
        let d = devices.last();
        if has_device(known, d) && !is_active(log@, d@) {
            rest.push(d)
        } else {
            rest
        }
    }
}

/// The member devices of a group that the member's log authorized once
/// and has since revoked: those the group's owner removes.
pub fn revoked_devices(member_devices: &Vec<DeviceId>, known: &Vec<DeviceId>, log: &IdentityLog) -> (r: Vec<DeviceId>)
    requires
        log.wf(),
    ensures
        r@ == revoked_of(member_devices@, known@, *log),
{
    let mut out: Vec<DeviceId> = Vec::new();
    let mut i: usize = 0;
    while i < member_devices.len()
        invariant
            i <= member_devices@.len(),
            log.wf(),
            out@ == revoked_of(member_devices@.take(i as int), known@, *log),
        decreases member_devices@.len() - i,
    {
        assert(member_devices@.take(i as int + 1).drop_last() =~= member_devices@.take(i as int));
        assert(member_devices@.take(i as int + 1).last() == member_devices@[i as int]);
        let d = member_devices[i];
        if contains_device(known, &d) && log.active_device(d).is_none() {
            out.push(d);
        }
        i = i + 1;
    }
    assert(member_devices@.take(i as int) =~= member_devices@);
    out
}

/// The devices, in order, without the removed ones.
pub fn without_devices(devices: &Vec<DeviceId>, removed: &Vec<DeviceId>) -> (r: Vec<DeviceId>)
    ensures
        r@ == devices@.filter(|d: DeviceId| !has_device(removed@, d)),
{
    let mut out: Vec<DeviceId> = Vec::new();
    let mut i: usize = 0;
    while i < devices.len()
        invariant
            i <= devices@.len(),
            out@ == devices@.take(i as int).filter(|d: DeviceId| !has_device(removed@, d)),
        decreases devices@.len() - i,
    {
        let d = devices[i];
        proof {
            reveal(Seq::filter);
            assert(devices@.take(i as int + 1).drop_last() =~= devices@.take(i as int));
        }
        if !contains_device(removed, &d) {
            out.push(d);
        }
        i = i + 1;
    }
    assert(devices@.take(i as int) =~= devices@);
    out
}

/// A profile update never changes who is in the group.
pub proof fn law_profile_update_keeps_membership(previous: GroupProfile, proposed: GroupProfile, sender: IdentityId)
    requires
        profile_update_valid(previous, proposed, sender),
    ensures
        proposed.members@ == previous.members@,
        proposed.member_devices@ == previous.member_devices@,
        has_identity(proposed.members@, proposed.owner),
{
}

/// Only the owner and the administrators change membership, and the owner
/// stays the owner.
pub proof fn law_only_administrators_commit(previous: GroupProfile, proposed: GroupProfile, sender: IdentityId)
    requires
        commit_authorized(previous, proposed, sender),
    ensures
        sender == previous.owner || has_identity(previous.admins@, sender),
        proposed.owner == previous.owner,
{
}

/// A member catching up is never sent an event from before its history
/// starts, nor one the local identity did not author.
pub proof fn law_replay_respects_history(events: Seq<ConversationEvent>, floor: i64, local: IdentityId, k: int)
    requires
        0 <= k < replayable(events, floor, local).len(),
    ensures
        replayable(events, floor, local)[k].logical_time_ms >= floor,
        replayable(events, floor, local)[k].author_identity == local,
    decreases events.len(),
{
    let rest = replayable(events.drop_last(), floor, local);
    if k < rest.len() {
        law_replay_respects_history(events.drop_last(), floor, local, k);
    }
}

} // verus!
