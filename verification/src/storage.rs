//! The records of local persistence and the rules applied to them on their
//! way into and out of the encrypted database. The database itself is the
//! application's.
use vstd::prelude::*;
use crate::codec::CodecError;
use crate::digest::{blake3_digest, blake3_hash, random_bytes};
use crate::ids::{ConversationId, DeviceId, EventId, IdentityId, OpaqueId};
use crate::ordered::SortedMap;
use crate::protocol::{CausalFrontier, ConversationEvent};

verus! {

#[verifier::external_type_specification]
#[verifier::external_body]
pub struct ExSqliteError(rusqlite::Error);

/// The 32-byte key the local database is encrypted with.
#[derive(Clone)]
pub struct DatabaseKey([u8; 32]);

impl View for DatabaseKey {
    type V = Seq<u8>;

    closed spec fn view(&self) -> Seq<u8> {
        self.0@
    }
}

impl DatabaseKey {
    pub fn from_bytes(bytes: [u8; 32]) -> (r: Self)
        ensures
            r@ == bytes@,
    {
        DatabaseKey(bytes)
    }

    /// A fresh random key.
    pub fn generate() -> (r: Self)
        ensures
            r@.len() == 32,
    {
        DatabaseKey(random_bytes::<32>())
    }

    /// The key's bytes, for the profile that keeps it.
    pub fn expose_for_profile(&self) -> (r: [u8; 32])
        ensures
            r@ == self@,
    {
        self.0
    }
}

/// The database key a profile file holds: all zeros once the key is kept
/// in the system's secure store, else the key itself.
pub fn persisted_database_key(key: [u8; 32], in_secure_store: bool) -> (r: [u8; 32])
    ensures
        in_secure_store ==> r@ == Seq::new(32, |_i: int| 0u8),
        !in_secure_store ==> r@ == key@,
{
    if in_secure_store {
        let zeros = [0u8; 32];
        assert(zeros@ =~= Seq::new(32, |_i: int| 0u8));
        zeros
    } else {
        key
    }
}

/// A message of a direct conversation as the history keeps it.
#[derive(Debug, Clone, PartialEq, Eq)]
pub struct DirectMessageRecord {
    pub message_id: [u8; 32],
    pub peer_identity: IdentityId,
    pub sender_name: String,
    pub body: String,
    pub sent_at_unix: i64,
    pub outgoing: bool,
    pub reply_to: Option<[u8; 32]>,
    pub edited: bool,
    pub deleted: bool,
    pub delivery: String,
    pub file_path: Option<String>,
}

/// The local settings of a conversation.
#[derive(Debug, Clone, PartialEq, Eq)]
pub struct ConversationSettings {
    pub conversation_key: String,
    pub pinned: bool,
    pub archived: bool,
    pub muted_until_unix: Option<i64>,
    pub unread_count: u32,
    pub last_summary: String,
    pub last_activity_unix: i64,
    pub notification_preview: bool,
}

/// A call in a conversation's history.
#[derive(Debug, Clone, PartialEq, Eq)]
pub struct CallEventRecord {
    pub call_id: [u8; 32],
    pub conversation_key: String,
    pub direction: String,
    pub outcome: String,
    pub started_at_unix: i64,
    pub duration_ms: u64,
}

/// An envelope waiting in the outbox for a recipient device.
#[derive(Debug, Clone, PartialEq, Eq)]
pub struct OutboxItem {
    pub conversation_id: ConversationId,
    pub event_id: EventId,
    pub recipient: DeviceId,
    pub envelope: Vec<u8>,
    pub attempts: u32,
}

/// Why a storage operation failed.
#[derive(Debug)]
pub enum StorageError {
    CipherUnavailable,
    UnsupportedSchema(i64),
    Sqlite(rusqlite::Error),
    Codec(CodecError),
    IntegerOverflow,
}

/// The 32 bytes a stored identifier has; an identifier of another length
/// reads as zeros.
pub open spec fn identifier_bytes(blob: Seq<u8>) -> Seq<u8> {
    if blob.len() == 32 {
        blob
    } else {
        Seq::new(32, |i: int| 0u8)
    }
}

/// The 32-byte value a stored identifier holds; zeros where its length is
/// not 32.
pub fn bytes_32(blob: &[u8]) -> (r: [u8; 32])
    ensures
        r@ == identifier_bytes(blob@),
{
    let mut bytes = [0u8; 32];
    if blob.len() == 32 {
        let mut i: usize = 0;
        while i < 32
            invariant
                i <= 32,
                blob@.len() == 32,
                bytes@.len() == 32,
                forall|j: int| 0 <= j < i ==> bytes@[j] == blob@[j],
            decreases 32 - i,
        {
            bytes[i] = blob[i];
            i = i + 1;
        }
        assert(bytes@ =~= blob@);
    } else {
        assert(bytes@ =~= Seq::new(32, |i: int| 0u8));
    }
    bytes
}

/// The conversation a stored identifier names.
pub fn id_from_blob(blob: &[u8]) -> (r: ConversationId)
    ensures
        r@ == identifier_bytes(blob@),
{
    ConversationId::from_bytes(bytes_32(blob))
}

/// The event a stored identifier names.
pub fn event_id_from_blob(blob: &[u8]) -> (r: EventId)
    ensures
        r@ == identifier_bytes(blob@),
{
    EventId::from_bytes(bytes_32(blob))
}

/// The device a stored identifier names.
pub fn device_id_from_blob(blob: &[u8]) -> (r: DeviceId)
    ensures
        r@ == identifier_bytes(blob@),
{
    DeviceId::from_bytes(bytes_32(blob))
}

/// The identity a stored identifier names.
pub fn identity_id_from_blob(blob: &[u8]) -> (r: IdentityId)
    ensures
        r@ == identifier_bytes(blob@),
{
    IdentityId::from_bytes(bytes_32(blob))
}

/// A sequence number as the database's signed integer, or
/// `IntegerOverflow` above `i64::MAX`.
pub fn sql_integer(value: u64) -> (r: Result<i64, StorageError>)
    ensures
        value <= i64::MAX ==> (r matches Ok(v) && v == value),
        value > i64::MAX ==> r matches Err(StorageError::IntegerOverflow),
{
    if value > i64::MAX as u64 {
        Err(StorageError::IntegerOverflow)
    } else {
        Ok(value as i64)
    }
}

/// A row limit as the database's signed integer, or `IntegerOverflow` above
/// `i64::MAX`.
pub fn sql_limit(limit: usize) -> (r: Result<i64, StorageError>)
    ensures
        limit <= i64::MAX ==> (r matches Ok(v) && v == limit),
        limit > i64::MAX ==> r matches Err(StorageError::IntegerOverflow),
{
    if limit as u64 > i64::MAX as u64 {
        Err(StorageError::IntegerOverflow)
    } else {
        Ok(limit as i64)
    }
}

/// A stored call duration; a negative one reads as zero.
pub fn duration_from_sql(stored: i64) -> (r: u64)
    ensures
        r == if stored < 0 { 0 } else { stored as int },
{
    if stored < 0 {
        0
    } else {
        stored as u64
    }
}

/// The digest under which a consumed invite secret is remembered.
pub fn invite_secret_hash(secret: &[u8; 32]) -> (r: [u8; 32])
    ensures
        r@ == blake3_digest(secret@),
{
    blake3_hash(secret.as_slice())
}

/// The highest sequence a frontier records for a device; zero where it
/// records none.
pub open spec fn frontier_value(frontier: Map<Seq<u8>, u64>, device: Seq<u8>) -> u64 {
    if frontier.contains_key(device) {
        frontier[device]
    } else {
        0
    }
}

/// The events, in order, that a frontier does not cover: those whose
/// device sequence is above what the frontier records for their device.
pub open spec fn uncovered(events: Seq<ConversationEvent>, frontier: Map<Seq<u8>, u64>) -> Seq<ConversationEvent>
    decreases events.len(),
{
    if events.len() == 0 {
        Seq::empty()
    } else {
        let rest = uncovered(events.drop_last(), frontier);
        let e = events.last();
        if e.device_sequence > frontier_value(frontier, e.author_device@) {
            rest.push(e)
        } else {
            rest
        }
    }
}

/// Every event, of those loaded in timeline order, that the remote causal
/// frontier does not yet cover.
pub fn events_after(events: Vec<ConversationEvent>, frontier: &CausalFrontier) -> (r: Vec<ConversationEvent>)
    requires
        frontier.wf(),
    ensures
        r@ == uncovered(events@, frontier@),
{
    let ghost original = events@;
    let n = events.len();
    let mut rest = events;
    let mut reversed: Vec<ConversationEvent> = Vec::new();
    while rest.len() > 0
        invariant
            rest@ == original.take(rest@.len() as int),
            rest@.len() + reversed@.len() == n,
            n == original.len(),
            forall|j: int| 0 <= j < reversed@.len() ==> #[trigger] reversed@[j] == original[n - 1 - j],
        decreases rest@.len(),
    {
        let ghost before = reversed@;
        match rest.pop() {
            Some(e) => {
                reversed.push(e);
            },
            None => {},
        }
        assert(rest@ =~= original.take(rest@.len() as int));
        assert forall|j: int| 0 <= j < reversed@.len() implies #[trigger] reversed@[j] == original[n - 1 - j] by {
            if j < before.len() {
                assert(reversed@[j] == before[j]);
            }
        }
    }
    let mut out: Vec<ConversationEvent> = Vec::new();
    while reversed.len() > 0
        invariant
            n == original.len(),
            reversed@.len() <= n,
            forall|j: int| 0 <= j < reversed@.len() ==> #[trigger] reversed@[j] == original[n - 1 - j],
            frontier.wf(),
            out@ == uncovered(original.take(n - reversed@.len()), frontier@),
        decreases reversed@.len(),
    {
        let i = n - reversed.len();
        let ghost before = reversed@;
        match reversed.pop() {
            Some(e) => {
                assert(e == original[i as int]);
                assert(original.take(i as int + 1).drop_last() =~= original.take(i as int));
                let recorded: u64 = match frontier.get(&e.author_device) {
                    Some(v) => *v,
                    None => 0,
                };
                if e.device_sequence > recorded {
                    out.push(e);
                }
            },
            None => {},
        }
        assert forall|j: int| 0 <= j < reversed@.len() implies #[trigger] reversed@[j] == original[n - 1 - j] by {
            assert(reversed@[j] == before[j]);
        }
    }
    assert(original.take(n as int) =~= original);
    out
}

/// The frontier of a set of events: for each device, the highest sequence
/// among its events.
pub open spec fn frontier_of(events: Seq<ConversationEvent>) -> Map<Seq<u8>, u64>
    decreases events.len(),
{
    if events.len() == 0 {
        Map::empty()
    } else {
        let f = frontier_of(events.drop_last());
        let e = events.last();
        let d = e.author_device@;
        if f.contains_key(d) && f[d] >= e.device_sequence {
            f
        } else {
            f.insert(d, e.device_sequence)
        }
    }
}

/// The causal frontier of a conversation's events: each author device with
/// the highest sequence it has published.
pub fn conversation_frontier(events: &[ConversationEvent]) -> (r: CausalFrontier)
    ensures
        r.wf(),
        r@ == frontier_of(events@),
{
    let mut frontier: CausalFrontier = SortedMap::new();
    let mut i: usize = 0;
    while i < events.len()
        invariant
            i <= events@.len(),
            frontier.wf(),
            frontier@ == frontier_of(events@.take(i as int)),
        decreases events@.len() - i,
    {
        let e = &events[i];
        assert(events@.take(i as int + 1).drop_last() =~= events@.take(i as int));
        let known: Option<u64> = match frontier.get(&e.author_device) {
            Some(v) => Some(*v),
            None => None,
        };
        match known {
            Some(v) => {
                if v < e.device_sequence {
                    frontier.insert(e.author_device, e.device_sequence);
                }
            },
            None => {
                frontier.insert(e.author_device, e.device_sequence);
            },
        }
        i = i + 1;
    }
    assert(events@.take(i as int) =~= events@);
    frontier
}

/// The frontier of a set of events records, for the author of each of
/// them, at least that event's sequence.
pub proof fn lemma_frontier_covers(events: Seq<ConversationEvent>, i: int)
    requires
        0 <= i < events.len(),
    ensures
        frontier_of(events).contains_key(events[i].author_device@),
        frontier_of(events)[events[i].author_device@] >= events[i].device_sequence,
    decreases events.len(),
{
    let f = frontier_of(events.drop_last());
    if i < events.len() - 1 {
        lemma_frontier_covers(events.drop_last(), i);
        assert(events.drop_last()[i] == events[i]);
    }
}

/// No event is missing from a peer that already holds the frontier of
/// those very events: what a frontier covers is never sent again.
pub proof fn law_own_frontier_covers_all(events: Seq<ConversationEvent>, frontier: Map<Seq<u8>, u64>)
    requires
        frontier == frontier_of(events),
    ensures
        uncovered(events, frontier) == Seq::<ConversationEvent>::empty(),
{
    assert(events.take(events.len() as int) =~= events);
    lemma_prefix_covered(events, frontier, events);
}

/// Every event of a prefix is covered by a frontier that covers each event
/// of the whole.
proof fn lemma_prefix_covered(prefix: Seq<ConversationEvent>, frontier: Map<Seq<u8>, u64>, events: Seq<ConversationEvent>)
    requires
        frontier == frontier_of(events),
        prefix.len() <= events.len(),
        prefix == events.take(prefix.len() as int),
    ensures
        uncovered(prefix, frontier) == Seq::<ConversationEvent>::empty(),
    decreases prefix.len(),
{
    if prefix.len() > 0 {
        let k = prefix.len() - 1;
        lemma_frontier_covers(events, k);
        assert(prefix.last() == events[k]);
        assert(prefix.drop_last() =~= events.take(k));
        lemma_prefix_covered(prefix.drop_last(), frontier, events);
    }
}

/// Whether the event is one a frontier does not cover: its device
/// sequence is above what the frontier records for its device.
pub open spec fn beyond_frontier(e: ConversationEvent, frontier: Map<Seq<u8>, u64>) -> bool {
    e.device_sequence > frontier_value(frontier, e.author_device@)
}

/// The events a member is sent keep their timeline order and are exactly
/// those its frontier lacks: the result picks, at strictly increasing
/// positions of the input, every event beyond the frontier and no other.
/// The positions are returned.
pub proof fn law_events_after_keeps_order(events: Seq<ConversationEvent>, frontier: Map<Seq<u8>, u64>) -> (idx: Seq<int>)
    ensures
        idx.len() == uncovered(events, frontier).len(),
        forall|j: int|
            0 <= j < idx.len() ==> 0 <= #[trigger] idx[j] < events.len() && uncovered(events, frontier)[j]
                == events[idx[j]],
        forall|i: int, j: int| 0 <= i < j < idx.len() ==> #[trigger] idx[i] < #[trigger] idx[j],
        forall|k: int|
            0 <= k < events.len() ==> (beyond_frontier(#[trigger] events[k], frontier) <==> exists|j: int|
                0 <= j < idx.len() && idx[j] == k),
    decreases events.len(),
{
    if events.len() == 0 {
        Seq::empty()
    } else {
        let prefix = events.drop_last();
        let n = events.len() - 1;
        let rest = law_events_after_keeps_order(prefix, frontier);
        let e = events.last();
        assert forall|k: int| 0 <= k < n implies events[k] == prefix[k] by {}
        if beyond_frontier(e, frontier) {
            let idx = rest.push(n);
            assert forall|j: int| 0 <= j < idx.len() implies 0 <= #[trigger] idx[j] < events.len()
                && uncovered(events, frontier)[j] == events[idx[j]] by {
                if j < rest.len() {
                    assert(idx[j] == rest[j]);
                }
            }
            assert forall|k: int| 0 <= k < events.len() implies (beyond_frontier(#[trigger] events[k], frontier)
                <==> exists|j: int| 0 <= j < idx.len() && idx[j] == k) by {
                if k < n {
                    assert(events[k] == prefix[k]);
                    if beyond_frontier(events[k], frontier) {
                        let j = choose|j: int| 0 <= j < rest.len() && rest[j] == k;
                        assert(idx[j] == k);
                    }
                    if exists|j: int| 0 <= j < idx.len() && idx[j] == k {
                        let j = choose|j: int| 0 <= j < idx.len() && idx[j] == k;
                        assert(j < rest.len());
                        assert(rest[j] == k);
                    }
                } else {
                    assert(idx[rest.len() as int] == k);
                }
            }
            idx
        } else {
            assert forall|k: int| 0 <= k < events.len() implies (beyond_frontier(#[trigger] events[k], frontier)
                <==> exists|j: int| 0 <= j < rest.len() && rest[j] == k) by {
                if k < n {
                    assert(events[k] == prefix[k]);
                } else {
                    if exists|j: int| 0 <= j < rest.len() && rest[j] == k {
                        let j = choose|j: int| 0 <= j < rest.len() && rest[j] == k;
                        assert(rest[j] < prefix.len());
                    }
                }
            }
            rest
        }
    }
}

} // verus!
