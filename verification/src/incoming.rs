//! What a received direct packet is checked against before it is trusted:
//! which shared secret routes it, whether the sender's identity log carries
//! on from the one already known, and what a packet teaches about the
//! sender's contact devices.
use vstd::prelude::*;
use crate::client::{route_of, routing_capability};
use crate::ordered::{entries_have, lex_lt, SortKey, SortedMap};
use crate::identity::{IdentityEvent, IdentityEventKind};
use crate::ids::{parsed_id_bytes, DeviceId, IdentityId, OpaqueId, ParseIdError};
use crate::protocol::same_bytes32;
use crate::text::same_text;

verus! {

/// Whether two event kinds are the same, texts and keys compared by
/// their contents.
pub open spec fn same_kind(a: IdentityEventKind, b: IdentityEventKind) -> bool {
    match (a, b) {
        (
            IdentityEventKind::Genesis { public_key: ka, label: la },
            IdentityEventKind::Genesis { public_key: kb, label: lb },
        ) => ka@ == kb@ && la@ == lb@,
        (
            IdentityEventKind::AddDevice { public_key: ka, label: la },
            IdentityEventKind::AddDevice { public_key: kb, label: lb },
        ) => ka@ == kb@ && la@ == lb@,
        (
            IdentityEventKind::RevokeDevice { device_id: da, reason: ra },
            IdentityEventKind::RevokeDevice { device_id: db, reason: rb },
        ) => da == db && ra@ == rb@,
        _ => false,
    }
}

/// Whether two identity events are the same event: every field equal, the
/// texts, keys and signatures compared by their contents.
pub open spec fn same_event(a: IdentityEvent, b: IdentityEvent) -> bool {
    &&& a.sequence == b.sequence
    &&& a.previous_hash@ == b.previous_hash@
    &&& a.author_device == b.author_device
    &&& a.created_at_unix == b.created_at_unix
    &&& same_kind(a.kind, b.kind)
    &&& a.signature@ == b.signature@
}

/// Whether the received log starts with the known one.
pub open spec fn extends_log(known: Seq<IdentityEvent>, received: Seq<IdentityEvent>) -> bool {
    known.len() <= received.len() && forall|i: int| 0 <= i < known.len() ==> same_event(known[i], received[i])
}

fn same_bytes(a: &[u8], b: &[u8]) -> (r: bool)
    ensures
        r == (a@ == b@),
{
    if a.len() != b.len() {
        return false;
    }
    let mut i: usize = 0;
    while i < a.len()
        invariant
            a@.len() == b@.len(),
            i <= a@.len(),
            forall|j: int| 0 <= j < i ==> a@[j] == b@[j],
        decreases a@.len() - i,
    {
        if a[i] != b[i] {
            return false;
        }
        i = i + 1;
    }
    assert(a@ =~= b@);
    true
}

fn same_event_kind(a: &IdentityEventKind, b: &IdentityEventKind) -> (r: bool)
    ensures
        r == same_kind(*a, *b),
{
    match (a, b) {
        (
            IdentityEventKind::Genesis { public_key: ka, label: la },
            IdentityEventKind::Genesis { public_key: kb, label: lb },
        ) => same_bytes32(ka, kb) && same_text(la.as_str(), lb.as_str()),
        (
            IdentityEventKind::AddDevice { public_key: ka, label: la },
            IdentityEventKind::AddDevice { public_key: kb, label: lb },
        ) => same_bytes32(ka, kb) && same_text(la.as_str(), lb.as_str()),
        (
            IdentityEventKind::RevokeDevice { device_id: da, reason: ra },
            IdentityEventKind::RevokeDevice { device_id: db, reason: rb },
        ) => da.same(db) && same_text(ra.as_str(), rb.as_str()),
        _ => false,
    }
}

/// Whether two identity events are the same event.
pub fn same_identity_event(a: &IdentityEvent, b: &IdentityEvent) -> (r: bool)
    ensures
        r == same_event(*a, *b),
{
    a.sequence == b.sequence && same_bytes32(&a.previous_hash, &b.previous_hash) && a.author_device.same(
        &b.author_device,
    ) && a.created_at_unix == b.created_at_unix && same_event_kind(&a.kind, &b.kind) && same_bytes(
        a.signature.as_slice(),
        b.signature.as_slice(),
    )
}

/// Whether the received identity log carries on from the known one: it
/// holds at least as many events, and begins with the known events.
pub fn log_extends(known: &[IdentityEvent], received: &[IdentityEvent]) -> (r: bool)
    ensures
        r == extends_log(known@, received@),
{
    if known.len() > received.len() {
        return false;
    }
    let mut i: usize = 0;
    while i < known.len()
        invariant
            known@.len() <= received@.len(),
            i <= known@.len(),
            forall|j: int| 0 <= j < i ==> same_event(known@[j], received@[j]),
        decreases known@.len() - i,
    {
        if !same_identity_event(&known[i], &received[i]) {
            return false;
        }
        i = i + 1;
    }
    true
}

/// Whether log `i` is the last of the longest logs.
pub open spec fn last_longest(logs: Seq<Vec<IdentityEvent>>, i: int) -> bool {
    &&& 0 <= i < logs.len()
    &&& forall|j: int| 0 <= j < logs.len() ==> (#[trigger] logs[j])@.len() <= logs[i]@.len()
    &&& forall|j: int| i < j < logs.len() ==> (#[trigger] logs[j])@.len() < logs[i]@.len()
}

/// Whether a sender's received log is current against the logs kept for
/// the sender's contact devices: the longest of them (the last where
/// several are longest), unless it is empty, must be carried on.
pub open spec fn log_current(logs: Seq<Vec<IdentityEvent>>, received: Seq<IdentityEvent>) -> bool {
    forall|i: int| last_longest(logs, i) ==> (logs[i]@.len() == 0 || extends_log(logs[i]@, received))
}

/// Whether the received log is current against the logs kept for the
/// sender's contact devices; a stale or forked log is not.
pub fn sender_log_current(known_logs: &[Vec<IdentityEvent>], received: &[IdentityEvent]) -> (r: bool)
    ensures
        r == log_current(known_logs@, received@),
{
    if known_logs.len() == 0 {
        return true;
    }
    let mut best: usize = 0;
    let mut i: usize = 1;
    while i < known_logs.len()
        invariant
            1 <= i <= known_logs@.len(),
            best < i,
            forall|j: int| 0 <= j < i ==> (#[trigger] known_logs@[j])@.len() <= known_logs@[best as int]@.len(),
            forall|j: int| best < j < i ==> (#[trigger] known_logs@[j])@.len() < known_logs@[best as int]@.len(),
        decreases known_logs@.len() - i,
    {
        if known_logs[i].len() >= known_logs[best].len() {
            best = i;
        }
        i = i + 1;
    }
    assert(last_longest(known_logs@, best as int));
    assert forall|k: int| last_longest(known_logs@, k) implies k == best as int by {
        if k < best {
            assert(known_logs@[best as int]@.len() < known_logs@[k]@.len());
        } else if k > best {
            assert(known_logs@[k]@.len() < known_logs@[best as int]@.len());
        }
    }
    let known = &known_logs[best];
    known.len() == 0 || log_extends(known.as_slice(), received)
}

/// Whether pending invite `j` routes the envelope: unexpired at
/// `now_unix`, its secret giving `routing` for the local device.
pub open spec fn pending_routes(
    pending: Seq<([u8; 32], i64)>,
    j: int,
    now_unix: i64,
    local_device: DeviceId,
    routing: Seq<u8>,
) -> bool {
    pending[j].1 > now_unix && route_of(pending[j].0@, local_device@) == routing
}

/// Which shared secret an envelope with routing capability `routing` was
/// sealed under: the first contact whose secret routes it to the local
/// device (`false`), else the first unexpired pending invite that does
/// (`true`).
pub fn route_candidate(
    contact_secrets: &[[u8; 32]],
    pending: &[([u8; 32], i64)],
    now_unix: i64,
    local_device: DeviceId,
    routing: &[u8; 32],
) -> (r: Option<(usize, bool)>)
    ensures
        r matches Some((i, false)) ==> {
            &&& i < contact_secrets@.len()
            &&& route_of(contact_secrets@[i as int]@, local_device@) == routing@
            &&& forall|k: int| 0 <= k < i ==> route_of((#[trigger] contact_secrets@[k])@, local_device@) != routing@
        },
        r matches Some((j, true)) ==> {
            &&& forall|k: int| 0 <= k < contact_secrets@.len() ==> route_of(
                (#[trigger] contact_secrets@[k])@,
                local_device@,
            ) != routing@
            &&& j < pending@.len()
            &&& pending_routes(pending@, j as int, now_unix, local_device, routing@)
            &&& forall|k: int| 0 <= k < j ==> !#[trigger] pending_routes(pending@, k, now_unix, local_device, routing@)
        },
        r is None ==> {
            &&& forall|k: int| 0 <= k < contact_secrets@.len() ==> route_of(
                (#[trigger] contact_secrets@[k])@,
                local_device@,
            ) != routing@
            &&& forall|k: int| 0 <= k < pending@.len() ==> !#[trigger] pending_routes(pending@, k, now_unix, local_device, routing@)
        },
{
    let mut i: usize = 0;
    while i < contact_secrets.len()
        invariant
            i <= contact_secrets@.len(),
            forall|k: int| 0 <= k < i ==> route_of((#[trigger] contact_secrets@[k])@, local_device@) != routing@,
        decreases contact_secrets@.len() - i,
    {
        let route = crate::client::routing_capability(&contact_secrets[i], local_device);
        if same_bytes32(&route, routing) {
            return Some((i, false));
        }
        i = i + 1;
    }
    let mut j: usize = 0;
    while j < pending.len()
        invariant
            j <= pending@.len(),
            forall|k: int| 0 <= k < contact_secrets@.len() ==> route_of(
                (#[trigger] contact_secrets@[k])@,
                local_device@,
            ) != routing@,
            forall|k: int| 0 <= k < j ==> !#[trigger] pending_routes(pending@, k, now_unix, local_device, routing@),
        decreases pending@.len() - j,
    {
        let (secret, expires_unix) = pending[j];
        if expires_unix > now_unix {
            let route = crate::client::routing_capability(&secret, local_device);
            if same_bytes32(&route, routing) {
                return Some((j, true));
            }
        }
        j = j + 1;
    }
    None
}

/// What a packet can update of a known contact device: its MLS key package
/// and the identity log it was last seen with.
#[derive(Debug, Clone)]
pub struct ContactKeys {
    pub identity_id: IdentityId,
    pub device_id: DeviceId,
    pub mls_key_package: Vec<u8>,
    pub identity_events: Vec<IdentityEvent>,
}

/// Whether a packet from `sender`'s device `device` with key package
/// `package` replaces contact `c`'s key package.
pub open spec fn takes_package(c: ContactKeys, sender: IdentityId, device: DeviceId, package: Seq<u8>) -> bool {
    c.identity_id == sender && c.device_id == device && package.len() > 0
}

/// Whether a packet from `sender` with identity log `events` replaces
/// contact `c`'s log: it is longer.
pub open spec fn takes_log(c: ContactKeys, sender: IdentityId, events: Seq<IdentityEvent>) -> bool {
    c.identity_id == sender && events.len() > c.identity_events@.len()
}

/// Whether two logs hold the same events.
pub open spec fn same_log(a: Seq<IdentityEvent>, b: Seq<IdentityEvent>) -> bool {
    a.len() == b.len() && forall|i: int| 0 <= i < a.len() ==> same_event(#[trigger] a[i], b[i])
}

fn copy_bytes(b: &[u8]) -> (r: Vec<u8>)
    ensures
        r@ == b@,
{
    let mut out: Vec<u8> = Vec::new();
    crate::digest::extend_bytes(&mut out, b);
    out
}

fn copy_log(events: &[IdentityEvent]) -> (r: Vec<IdentityEvent>)
    ensures
        same_log(r@, events@),
{
    let mut out: Vec<IdentityEvent> = Vec::new();
    let mut i: usize = 0;
    while i < events.len()
        invariant
            i <= events@.len(),
            out@.len() == i,
            forall|j: int| 0 <= j < i ==> same_event(#[trigger] out@[j], events@[j]),
        decreases events@.len() - i,
    {
        let e = events[i].duplicate();
        out.push(e);
        i = i + 1;
    }
    out
}

/// Records what a packet from `sender`'s device `device` teaches about the
/// sender's contact devices: that device takes the packet's non-empty key
/// package, and every device of the sender takes the packet's identity log
/// where it is longer than the one kept. Answers whether anything changed.
pub fn update_contact_key_package(
    contacts: &mut Vec<ContactKeys>,
    sender: IdentityId,
    device: DeviceId,
    package: &[u8],
    events: &[IdentityEvent],
) -> (r: bool)
    ensures
        final(contacts)@.len() == old(contacts)@.len(),
        forall|i: int|
            0 <= i < old(contacts)@.len() ==> {
                let c = #[trigger] old(contacts)@[i];
                let n = final(contacts)@[i];
                &&& n.identity_id == c.identity_id
                &&& n.device_id == c.device_id
                &&& n.mls_key_package@ == if takes_package(c, sender, device, package@) {
                    package@
                } else {
                    c.mls_key_package@
                }
                &&& same_log(
                    n.identity_events@,
                    if takes_log(c, sender, events@) {
                        events@
                    } else {
                        c.identity_events@
                    },
                )
            },
        r == exists|i: int|
            0 <= i < old(contacts)@.len() && ((takes_package(#[trigger] old(contacts)@[i], sender, device, package@)
                && old(contacts)@[i].mls_key_package@ != package@) || takes_log(old(contacts)@[i], sender, events@)),
{
    let ghost before = contacts@;
    let mut changed = false;
    let mut i: usize = 0;
    while i < contacts.len()
        invariant
            i <= contacts@.len(),
            contacts@.len() == before.len(),
            forall|k: int| i <= k < before.len() ==> #[trigger] contacts@[k] == before[k],
            forall|k: int|
                0 <= k < i ==> {
                    let c = #[trigger] before[k];
                    let n = contacts@[k];
                    &&& n.identity_id == c.identity_id
                    &&& n.device_id == c.device_id
                    &&& n.mls_key_package@ == if takes_package(c, sender, device, package@) {
                        package@
                    } else {
                        c.mls_key_package@
                    }
                    &&& same_log(
                        n.identity_events@,
                        if takes_log(c, sender, events@) {
                            events@
                        } else {
                            c.identity_events@
                        },
                    )
                },
            changed == exists|k: int|
                0 <= k < i && ((takes_package(#[trigger] before[k], sender, device, package@)
                    && before[k].mls_key_package@ != package@) || takes_log(before[k], sender, events@)),
        decreases before.len() - i,
    {
        let c = &contacts[i];
        if c.identity_id.same(&sender) {
            let new_package = c.device_id.same(&device) && package.len() > 0;
            let package_differs = new_package && !same_bytes(c.mls_key_package.as_slice(), package);
            let new_log = events.len() > c.identity_events.len();
            if new_package || new_log {
                let mls_key_package = if new_package {
                    copy_bytes(package)
                } else {
                    copy_bytes(c.mls_key_package.as_slice())
                };
                let identity_events = if new_log {
                    copy_log(events)
                } else {
                    copy_log(c.identity_events.as_slice())
                };
                let updated = ContactKeys {
                    identity_id: c.identity_id,
                    device_id: c.device_id,
                    mls_key_package,
                    identity_events,
                };
                contacts.set(i, updated);
            }
            if package_differs || new_log {
                changed = true;
            }
        }
        proof {
            assert(contacts@[i as int] == before[i as int] || before[i as int].identity_id == sender);
        }
        i = i + 1;
    }
    changed
}

/// What a direct packet carries.
#[derive(Debug, Clone, Copy, PartialEq, Eq)]
pub enum PayloadKind {
    DeviceHello,
    DeviceHistory,
    Message,
    MessageEdit,
    MessageDelete,
    DeliveryReceipt,
    FileOffer,
    FileChunk,
    GroupWelcome,
    GroupMessage,
    GroupCommit,
    GroupProfileUpdate,
    GroupDissolve,
    GroupFileOffer,
    GroupFileChunk,
    GroupSyncRequest,
    GroupSyncEvent,
}

/// Whether a payload belongs to a group.
pub open spec fn group_kind(kind: PayloadKind) -> bool {
    ||| kind == PayloadKind::GroupWelcome
    ||| kind == PayloadKind::GroupMessage
    ||| kind == PayloadKind::GroupCommit
    ||| kind == PayloadKind::GroupProfileUpdate
    ||| kind == PayloadKind::GroupDissolve
    ||| kind == PayloadKind::GroupFileOffer
    ||| kind == PayloadKind::GroupFileChunk
    ||| kind == PayloadKind::GroupSyncRequest
    ||| kind == PayloadKind::GroupSyncEvent
}

/// Whether a payload belongs to a group.
pub fn is_group_payload(kind: PayloadKind) -> (r: bool)
    ensures
        r == group_kind(kind),
{
    match kind {
        PayloadKind::GroupWelcome | PayloadKind::GroupMessage | PayloadKind::GroupCommit
        | PayloadKind::GroupProfileUpdate | PayloadKind::GroupDissolve | PayloadKind::GroupFileOffer
        | PayloadKind::GroupFileChunk | PayloadKind::GroupSyncRequest | PayloadKind::GroupSyncEvent => true,
        _ => false,
    }
}

/// Whether a packet from a blocked sender is dropped: all but group
/// payloads are, which the group rules judge themselves.
pub fn payload_dropped(sender_blocked: bool, kind: PayloadKind) -> (r: bool)
    ensures
        r == (sender_blocked && !group_kind(kind)),
{
    sender_blocked && !is_group_payload(kind)
}

/// The pending invites once the one whose secret a new contact used is
/// spent.
pub fn spend_pending_invite(pending: &Vec<([u8; 32], i64)>, secret: &[u8; 32]) -> (r: Vec<([u8; 32], i64)>)
    ensures
        r@ == pending@.filter(|p: ([u8; 32], i64)| p.0@ != secret@),
{
    let mut out: Vec<([u8; 32], i64)> = Vec::new();
    let mut i: usize = 0;
    while i < pending.len()
        invariant
            i <= pending@.len(),
            out@ == pending@.take(i as int).filter(|p: ([u8; 32], i64)| p.0@ != secret@),
        decreases pending@.len() - i,
    {
        proof {
            reveal(Seq::filter);
            assert(pending@.take(i as int + 1).drop_last() =~= pending@.take(i as int));
        }
        let entry = pending[i];
        if !same_bytes32(&entry.0, secret) {
            out.push(entry);
        }
        i = i + 1;
    }
    assert(pending@.take(i as int) =~= pending@);
    out
}

/// The message identifier a text names: 32 bytes in hexadecimal.
pub fn parse_message_id(text: &str) -> (r: Result<[u8; 32], ParseIdError>)
    ensures
        r matches Ok(b) ==> parsed_id_bytes(text) == Some(b@),
        r is Ok <==> parsed_id_bytes(text) is Some,
{
    match OpaqueId::parse(text) {
        Ok(id) => Ok(*id.as_bytes()),
        Err(e) => Err(e),
    }
}

/// Whether a mailbox is polled for `route`: the route of a contact's
/// secret, or of an unexpired pending invite's, to the local device.
pub open spec fn polled_route(
    contact_secrets: Seq<[u8; 32]>,
    pending: Seq<([u8; 32], i64)>,
    now_unix: i64,
    local_device: DeviceId,
    route: Seq<u8>,
) -> bool {
    ||| exists|i: int| 0 <= i < contact_secrets.len() && route_of((#[trigger] contact_secrets[i])@, local_device@) == route
    ||| exists|j: int| 0 <= j < pending.len() && #[trigger] pending_routes(pending, j, now_unix, local_device, route)
}

/// The routes the local mailbox is polled for, each once, in ascending
/// byte order.
pub fn poll_routes(
    contact_secrets: &[[u8; 32]],
    pending: &[([u8; 32], i64)],
    now_unix: i64,
    local_device: DeviceId,
) -> (r: Vec<[u8; 32]>)
    ensures
        forall|a: int, b: int| 0 <= a < b < r@.len() ==> lex_lt((#[trigger] r@[a])@, (#[trigger] r@[b])@),
        forall|k: Seq<u8>|
            (exists|i: int| 0 <= i < r@.len() && (#[trigger] r@[i])@ == k) <==> polled_route(
                contact_secrets@,
                pending@,
                now_unix,
                local_device,
                k,
            ),
{
    let mut routes: SortedMap<OpaqueId, ()> = SortedMap::new();
    let mut i: usize = 0;
    while i < contact_secrets.len()
        invariant
            i <= contact_secrets@.len(),
            routes.wf(),
            forall|k: Seq<u8>|
                routes@.contains_key(k) <==> exists|x: int|
                    0 <= x < i && route_of((#[trigger] contact_secrets@[x])@, local_device@) == k,
        decreases contact_secrets@.len() - i,
    {
        let route = routing_capability(&contact_secrets[i], local_device);
        let ghost before = routes@;
        routes.insert(OpaqueId::from_bytes(route), ());
        proof {
            assert forall|k: Seq<u8>| routes@.contains_key(k) <==> exists|x: int|
                0 <= x < i + 1 && route_of((#[trigger] contact_secrets@[x])@, local_device@) == k by {
                if routes@.contains_key(k) && k != route@ {
                    assert(before.contains_key(k));
                }
                if k == route@ {
                    assert(route_of(contact_secrets@[i as int]@, local_device@) == k);
                }
            }
        }
        i = i + 1;
    }
    let mut j: usize = 0;
    while j < pending.len()
        invariant
            j <= pending@.len(),
            routes.wf(),
            forall|k: Seq<u8>|
                routes@.contains_key(k) <==> (exists|x: int|
                    0 <= x < contact_secrets@.len() && route_of((#[trigger] contact_secrets@[x])@, local_device@) == k)
                    || (exists|y: int| 0 <= y < j && #[trigger] pending_routes(pending@, y, now_unix, local_device, k)),
        decreases pending@.len() - j,
    {
        let (secret, expires_unix) = pending[j];
        if expires_unix > now_unix {
            let route = routing_capability(&secret, local_device);
            let ghost before = routes@;
            routes.insert(OpaqueId::from_bytes(route), ());
            proof {
                assert forall|k: Seq<u8>| routes@.contains_key(k) <==> (exists|x: int|
                    0 <= x < contact_secrets@.len() && route_of((#[trigger] contact_secrets@[x])@, local_device@) == k)
                    || (exists|y: int| 0 <= y < j + 1 && #[trigger] pending_routes(pending@, y, now_unix, local_device, k)) by {
                    if routes@.contains_key(k) && k != route@ {
                        assert(before.contains_key(k));
                    }
                    if k == route@ {
                        assert(pending_routes(pending@, j as int, now_unix, local_device, k));
                    }
                    if exists|y: int| 0 <= y < j + 1 && #[trigger] pending_routes(pending@, y, now_unix, local_device, k) {
                        let y = choose|y: int| 0 <= y < j + 1 && #[trigger] pending_routes(pending@, y, now_unix, local_device, k);
                        if y == j {
                            assert(k == route@);
                        }
                    }
                }
            }
        } else {
            proof {
                assert forall|k: Seq<u8>| routes@.contains_key(k) <==> (exists|x: int|
                    0 <= x < contact_secrets@.len() && route_of((#[trigger] contact_secrets@[x])@, local_device@) == k)
                    || (exists|y: int| 0 <= y < j + 1 && #[trigger] pending_routes(pending@, y, now_unix, local_device, k)) by {
                    if exists|y: int| 0 <= y < j + 1 && #[trigger] pending_routes(pending@, y, now_unix, local_device, k) {
                        let y = choose|y: int| 0 <= y < j + 1 && #[trigger] pending_routes(pending@, y, now_unix, local_device, k);
                        assert(y != j);
                    }
                }
            }
        }
        j = j + 1;
    }
    let entries = routes.as_slice();
    let mut out: Vec<[u8; 32]> = Vec::new();
    let mut k: usize = 0;
    while k < entries.len()
        invariant
            entries@ == routes.entries(),
            routes.wf(),
            k <= entries@.len(),
            out@.len() == k,
            forall|a: int| 0 <= a < k ==> (#[trigger] out@[a])@ == entries@[a].0@,
        decreases entries@.len() - k,
    {
        out.push(*entries[k].0.as_bytes());
        k = k + 1;
    }
    proof {
        assert forall|a: int, b: int| 0 <= a < b < out@.len() implies lex_lt((#[trigger] out@[a])@, (#[trigger] out@[b])@) by {
            assert(lex_lt(entries@[a].0.sort_bytes(), entries@[b].0.sort_bytes()));
        }
        assert forall|key: Seq<u8>| (exists|i: int| 0 <= i < out@.len() && (#[trigger] out@[i])@ == key) <==> polled_route(
            contact_secrets@,
            pending@,
            now_unix,
            local_device,
            key,
        ) by {
            if exists|i: int| 0 <= i < out@.len() && (#[trigger] out@[i])@ == key {
                let i = choose|i: int| 0 <= i < out@.len() && (#[trigger] out@[i])@ == key;
                crate::ordered::lemma_entries_map_at(routes.entries(), i);
                assert(entries@[i].0.sort_bytes() == key);
                assert(routes@.contains_key(key));
                assert(polled_route(contact_secrets@, pending@, now_unix, local_device, key));
            }
            if polled_route(contact_secrets@, pending@, now_unix, local_device, key) {
                assert(routes@.contains_key(key));
                assert(entries_have(routes.entries(), key));
                let i = choose|i: int| 0 <= i < routes.entries().len() && #[trigger] routes.entries()[i].0.sort_bytes() == key;
                assert(out@[i]@ == key);
                assert(exists|i: int| 0 <= i < out@.len() && (#[trigger] out@[i])@ == key);
            }
        }
    }
    out
}

} // verus!
