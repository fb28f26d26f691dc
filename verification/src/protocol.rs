//! The versioned wire model that peers and optional nodes exchange.
use vstd::prelude::*;
use crate::digest::{blake3_digest, blake3_hash};
use crate::ids::{CallId, ConversationId, DeviceId, EventId, IdentityId, NodeId};
use crate::ordered::SortedMap;

verus! {

/// Current incompatible wire format generation.
pub const PROTOCOL_VERSION: u16 = 1;

/// Maximum accepted wire envelope before allocating payload buffers.
pub const MAX_ENVELOPE_BYTES: usize = 4194304;

/// The highest sequence number seen from each device of a conversation.
pub type CausalFrontier = SortedMap<DeviceId, u64>;

/// Whether two 32-byte arrays hold the same bytes.
pub fn same_bytes32(a: &[u8; 32], b: &[u8; 32]) -> (r: bool)
    ensures
        r == (a@ == b@),
{
    let mut i: usize = 0;
    while i < 32
        invariant
            i <= 32,
            a@.len() == 32,
            b@.len() == 32,
            forall|j: int| 0 <= j < i ==> a@[j] == b@[j],
        decreases 32 - i,
    {
        if a[i] != b[i] {
            return false;
        }
        i = i + 1;
    }
    assert(a@ =~= b@);
    true
}

/// `n` zero bytes.
pub fn zero_bytes(n: usize) -> (r: Vec<u8>)
    ensures
        r@ == Seq::new(n as nat, |_i: int| 0u8),
{
    let mut v: Vec<u8> = Vec::new();
    let mut i: usize = 0;
    while i < n
        invariant
            i <= n,
            v@ == Seq::new(i as nat, |_i: int| 0u8),
        decreases n - i,
    {
        v.push(0);
        i = i + 1;
        assert(v@ =~= Seq::new(i as nat, |_i: int| 0u8));
    }
    v
}

/// An opaque, padded ciphertext with the digest that authenticates it in
/// transit.
#[derive(Debug, Clone, PartialEq, Eq)]
pub struct TransportEnvelope {
    pub version: u16,
    pub routing_capability: [u8; 32],
    pub ciphertext_hash: [u8; 32],
    pub ciphertext: Vec<u8>,
    pub padding: Vec<u8>,
}

impl TransportEnvelope {
    /// Wraps a ciphertext for `routing_capability`, padded with zeros to
    /// `pad_to` bytes where the ciphertext is shorter.
    pub fn new(routing_capability: [u8; 32], ciphertext: Vec<u8>, pad_to: usize) -> (r: Self)
        ensures
            r.version == PROTOCOL_VERSION,
            r.routing_capability == routing_capability,
            r.ciphertext@ == ciphertext@,
            r.ciphertext_hash@ == blake3_digest(ciphertext@),
            r.padding@ == Seq::new(
                (if pad_to > ciphertext@.len() { pad_to - ciphertext@.len() } else { 0 }) as nat,
                |_i: int| 0u8,
            ),
    {
        let ciphertext_hash = blake3_hash(ciphertext.as_slice());
        let padding_len = pad_to.saturating_sub(ciphertext.len());
        TransportEnvelope {
            version: PROTOCOL_VERSION,
            routing_capability,
            ciphertext_hash,
            ciphertext,
            padding: zero_bytes(padding_len),
        }
    }

    /// Whether the envelope is of this protocol version and its digest
    /// matches its ciphertext.
    pub fn verify(&self) -> (r: bool)
        ensures
            r == (self.version == PROTOCOL_VERSION && self.ciphertext_hash@ == blake3_digest(
                self.ciphertext@,
            )),
    {
        if self.version != PROTOCOL_VERSION {
            return false;
        }
        let hash = blake3_hash(self.ciphertext.as_slice());
        same_bytes32(&hash, &self.ciphertext_hash)
    }
}

/// One authored change to a conversation.
#[derive(Debug, Clone, PartialEq, Eq)]
pub struct ConversationEvent {
    pub version: u16,
    pub conversation_id: ConversationId,
    pub event_id: EventId,
    pub author_identity: IdentityId,
    pub author_device: DeviceId,
    pub device_sequence: u64,
    pub causal_frontier: CausalFrontier,
    pub logical_time_ms: i64,
    pub body: EventBody,
}

impl ConversationEvent {
    /// The kind of the event's body.
    pub fn kind(&self) -> (r: EventKind)
        ensures
            r == self.body.spec_kind(),
    {
        self.body.kind()
    }
}

/// What a conversation event does, without its data.
#[derive(Debug, Clone, Copy, PartialEq, Eq)]
pub enum EventKind {
    MessageCreate,
    MessageEdit,
    MessageDelete,
    ReactionSet,
    Receipt,
    GroupRename,
    GroupAvatar,
    MembershipAdd,
    MembershipRemove,
    OwnershipTransfer,
    BlobManifest,
    CallEnded,
}

/// What a conversation event does, with its data.
#[derive(Debug, Clone, PartialEq, Eq)]
pub enum EventBody {
    MessageCreate { content: MessageContent },
    MessageEdit { target: EventId, content: MessageContent },
    MessageDelete { target: EventId },
    ReactionSet { target: EventId, emoji: String, active: bool },
    Receipt { target: EventId, kind: ReceiptKind },
    GroupRename { name: String },
    GroupAvatar { blob: Option<[u8; 32]> },
    MembershipAdd { identity: IdentityId, welcome: Vec<u8> },
    MembershipRemove { identity: IdentityId, commit: Vec<u8> },
    OwnershipTransfer { from: IdentityId, to: IdentityId },
    BlobManifest(BlobManifest),
    CallEnded { duration_ms: u64, reason: CallEndReason },
}

impl EventBody {
    /// The kind of each body: the variant of the same name.
    pub open spec fn spec_kind(&self) -> EventKind {
        match self {
            EventBody::MessageCreate { .. } => EventKind::MessageCreate,
            EventBody::MessageEdit { .. } => EventKind::MessageEdit,
            EventBody::MessageDelete { .. } => EventKind::MessageDelete,
            EventBody::ReactionSet { .. } => EventKind::ReactionSet,
            EventBody::Receipt { .. } => EventKind::Receipt,
            EventBody::GroupRename { .. } => EventKind::GroupRename,
            EventBody::GroupAvatar { .. } => EventKind::GroupAvatar,
            EventBody::MembershipAdd { .. } => EventKind::MembershipAdd,
            EventBody::MembershipRemove { .. } => EventKind::MembershipRemove,
            EventBody::OwnershipTransfer { .. } => EventKind::OwnershipTransfer,
            EventBody::BlobManifest(_) => EventKind::BlobManifest,
            EventBody::CallEnded { .. } => EventKind::CallEnded,
        }
    }

    /// The kind of the body.
    pub fn kind(&self) -> (r: EventKind)
        ensures
            r == self.spec_kind(),
    {
        match self {
            EventBody::MessageCreate { .. } => EventKind::MessageCreate,
            EventBody::MessageEdit { .. } => EventKind::MessageEdit,
            EventBody::MessageDelete { .. } => EventKind::MessageDelete,
            EventBody::ReactionSet { .. } => EventKind::ReactionSet,
            EventBody::Receipt { .. } => EventKind::Receipt,
            EventBody::GroupRename { .. } => EventKind::GroupRename,
            EventBody::GroupAvatar { .. } => EventKind::GroupAvatar,
            EventBody::MembershipAdd { .. } => EventKind::MembershipAdd,
            EventBody::MembershipRemove { .. } => EventKind::MembershipRemove,
            EventBody::OwnershipTransfer { .. } => EventKind::OwnershipTransfer,
            EventBody::BlobManifest(_) => EventKind::BlobManifest,
            EventBody::CallEnded { .. } => EventKind::CallEnded,
        }
    }
}

/// The text of a message, what it replies to and its attachments.
#[derive(Debug, Clone, PartialEq, Eq)]
pub struct MessageContent {
    pub text: String,
    pub reply_to: Option<EventId>,
    pub attachment_ids: Vec<[u8; 32]>,
}

/// The value of a message's content.
pub struct MessageContentView {
    pub text: Seq<char>,
    pub reply_to: Option<EventId>,
    pub attachment_ids: Seq<[u8; 32]>,
}

impl View for MessageContent {
    type V = MessageContentView;

    open spec fn view(&self) -> MessageContentView {
        MessageContentView {
            text: self.text@,
            reply_to: self.reply_to,
            attachment_ids: self.attachment_ids@,
        }
    }
}

impl MessageContent {
    /// A copy with the same text, reply target and attachments.
    pub fn duplicate(&self) -> (r: Self)
        ensures
            r@ == self@,
    {
        let mut attachment_ids: Vec<[u8; 32]> = Vec::new();
        let mut i: usize = 0;
        while i < self.attachment_ids.len()
            invariant
                i <= self.attachment_ids@.len(),
                attachment_ids@ == self.attachment_ids@.take(i as int),
            decreases self.attachment_ids@.len() - i,
        {
            attachment_ids.push(self.attachment_ids[i]);
            assert(self.attachment_ids@.take(i + 1) =~= self.attachment_ids@.take(i as int).push(
                self.attachment_ids@[i as int],
            ));
            i = i + 1;
        }
        assert(self.attachment_ids@.take(i as int) =~= self.attachment_ids@);
        MessageContent { text: self.text.clone(), reply_to: self.reply_to, attachment_ids }
    }
}

#[derive(Debug, Clone, Copy, PartialEq, Eq)]
pub enum ReceiptKind {
    Delivered,
    Read,
}

#[derive(Debug, Clone, Copy, PartialEq, Eq)]
pub enum CallEndReason {
    LastParticipantLeft,
    NetworkUnavailable,
    ReplacedByNewSession,
}

/// How an encrypted attachment is split, checked and named.
#[derive(Debug, Clone, PartialEq, Eq)]
pub struct BlobManifest {
    pub ciphertext_hash: [u8; 32],
    pub byte_len: u64,
    pub chunk_size: u32,
    pub chunk_hashes: Vec<[u8; 32]>,
    pub media_type: String,
    pub file_name: String,
    pub key_envelope: Vec<u8>,
}

#[derive(Debug, Clone, Copy, PartialEq, Eq)]
pub enum QualityMode {
    Automatic,
    Manual,
}

/// A requested or resolved video quality.
#[derive(Debug, Clone, PartialEq, Eq)]
pub struct QualityProfile {
    pub mode: QualityMode,
    pub width: u16,
    pub height: u16,
    pub frames_per_second: u8,
    pub bitrate_kbps: u32,
    pub codec: Option<String>,
}

/// One encoded media packet of a call.
#[derive(Debug, Clone, PartialEq, Eq)]
pub struct MediaDatagram {
    pub version: u16,
    pub call_id: CallId,
    pub sender: DeviceId,
    pub kind: MediaKind,
    pub sequence: u64,
    pub timestamp_micros: u64,
    pub marker: bool,
    pub payload: Vec<u8>,
}

impl MediaDatagram {
    /// A datagram of the current protocol version with these fields.
    pub fn new(
        call_id: CallId,
        sender: DeviceId,
        kind: MediaKind,
        sequence: u64,
        timestamp_micros: u64,
        marker: bool,
        payload: Vec<u8>,
    ) -> (r: Self)
        ensures
            r == (MediaDatagram {
                version: PROTOCOL_VERSION,
                call_id,
                sender,
                kind,
                sequence,
                timestamp_micros,
                marker,
                payload,
            }),
    {
        MediaDatagram {
            version: PROTOCOL_VERSION,
            call_id,
            sender,
            kind,
            sequence,
            timestamp_micros,
            marker,
            payload,
        }
    }
}

#[derive(Debug, Clone, Copy, PartialEq, Eq)]
pub enum MediaKind {
    Voice,
    Camera,
    Screen,
    SystemAudio,
}

#[derive(Debug, Clone, PartialEq, Eq)]
pub struct SessionDescription {
    pub kind: String,
    pub sdp: String,
}

#[derive(Debug, Clone, PartialEq, Eq)]
pub struct IceCandidate {
    pub candidate: String,
    pub sdp_mid: Option<String>,
    pub sdp_m_line_index: Option<u16>,
}

#[derive(Debug, Clone, PartialEq, Eq)]
pub enum MediaSignal {
    Description(SessionDescription),
    Ice(IceCandidate),
    Publish { kind: MediaKind, profile: QualityProfile },
    Unpublish { kind: MediaKind },
    Subscribe { publisher: DeviceId, kind: MediaKind, enabled: bool },
    RouterOffer { endpoint: String, token: Vec<u8> },
    RouterReady,
}

/// Call control messages.
#[derive(Debug, Clone, PartialEq, Eq)]
pub enum CallSignal {
    Invite { call_id: CallId, selected: Vec<IdentityId>, ring: bool },
    Join { call_id: CallId },
    Reject { call_id: CallId, missed: bool },
    Hold { call_id: CallId },
    Resume { call_id: CallId },
    Leave { call_id: CallId },
    Media { call_id: CallId, signal: MediaSignal },
    Ping { call_id: CallId, nonce: u64 },
    Pong { call_id: CallId, nonce: u64 },
}

#[derive(Debug, Clone, Copy, PartialEq, Eq)]
pub enum NodeService {
    Rendezvous,
    Relay,
    Turn,
    Mailbox,
    Sfu,
}

#[derive(Debug, Clone, PartialEq, Eq)]
pub struct NodeCapability {
    pub service: NodeService,
    pub max_bytes: Option<u64>,
    pub max_participants: Option<u16>,
    pub max_bitrate_kbps: Option<u32>,
    pub ttl_seconds: Option<u64>,
}

/// A signed description of a node; its endpoints are URLs in text form.
#[derive(Debug, Clone, PartialEq, Eq)]
pub struct NodeDescriptor {
    pub node_id: NodeId,
    pub endpoints: Vec<String>,
    pub services: Vec<NodeCapability>,
    pub public_key: Vec<u8>,
    pub priority: i16,
    pub signature: Vec<u8>,
}

#[derive(Debug, Clone, PartialEq, Eq)]
pub struct ScopedCapability {
    pub node_id: NodeId,
    pub service: NodeService,
    pub token: [u8; 32],
    pub expires_unix: i64,
    pub max_bytes: Option<u64>,
    pub max_bitrate_kbps: Option<u32>,
}

/// Durable, idempotent conversation synchronization frames.
#[derive(Debug, Clone, PartialEq, Eq)]
pub enum SyncFrame {
    Hello { version: u16, device: DeviceId, conversations: Vec<ConversationFrontier> },
    Events { conversation_id: ConversationId, events: Vec<ConversationEvent> },
    Ack { conversation_id: ConversationId, frontier: CausalFrontier },
    FetchBlob { ciphertext_hash: [u8; 32], missing_chunks: Vec<u32> },
    BlobChunk { ciphertext_hash: [u8; 32], chunk_index: u32, bytes: Vec<u8> },
    EventAck { event_ids: Vec<EventId> },
    Error { code: SyncErrorCode, detail: String },
}

impl SyncFrame {
    /// The greeting of the current protocol version.
    pub fn hello(device: DeviceId, conversations: Vec<ConversationFrontier>) -> (r: Self)
        ensures
            r == (SyncFrame::Hello { version: PROTOCOL_VERSION, device, conversations }),
    {
        SyncFrame::Hello { version: PROTOCOL_VERSION, device, conversations }
    }
}

#[derive(Debug, Clone, PartialEq, Eq)]
pub struct ConversationFrontier {
    pub conversation_id: ConversationId,
    pub frontier: CausalFrontier,
}

#[derive(Debug, Clone, Copy, PartialEq, Eq)]
pub enum SyncErrorCode {
    UnsupportedVersion,
    InvalidEnvelope,
    Unauthorized,
    MissingHistory,
    RateLimited,
}

/// A device's signed statement of how to reach it; relay and mailbox
/// candidates are URLs in text form.
#[derive(Debug, Clone, PartialEq, Eq)]
pub struct ReachabilityRecord {
    pub version: u16,
    pub device_id: DeviceId,
    pub expires_unix: i64,
    pub endpoint_id: String,
    pub direct_candidates: Vec<String>,
    pub relay_candidates: Vec<String>,
    pub mailbox_candidates: Vec<String>,
    pub signature: Vec<u8>,
}

/// A one-time, expiring, signed invitation to become contacts.
#[derive(Debug, Clone, PartialEq, Eq)]
pub struct ContactInvite {
    pub version: u16,
    pub inviter_identity: IdentityId,
    pub inviter_device: DeviceId,
    pub inviter_device_public_key: [u8; 32],
    pub display_name: String,
    pub expires_unix: i64,
    pub one_time_secret: [u8; 32],
    pub reachability: ReachabilityRecord,
    pub signature: Vec<u8>,
}

} // verus!
