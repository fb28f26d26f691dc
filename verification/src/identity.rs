//! Device keys and the signed, hash-chained log of an identity's devices.
use vstd::prelude::*;
use ed25519_dalek::{Signer, Verifier};
use crate::codec::CodecError;
use crate::digest::{blake3_digest, blake3_hash, random_bytes};
use crate::ids::{DeviceId, IdentityId, OpaqueId};
use crate::ordered::{lex_lt, SortKey, SortedMap};
use crate::protocol::same_bytes32;

verus! {

/// The Ed25519 public key of a secret key.
pub uninterp spec fn ed25519_public_key(secret: Seq<u8>) -> Seq<u8>;

/// The Ed25519 signature of a message under a secret key.
pub uninterp spec fn ed25519_signature(secret: Seq<u8>, message: Seq<u8>) -> Seq<u8>;

/// Whether 32 bytes decode to an Ed25519 public key.
pub uninterp spec fn ed25519_key_valid(public: Seq<u8>) -> bool;

/// Whether a 64-byte signature of a message verifies under a public key.
pub uninterp spec fn ed25519_accepts(public: Seq<u8>, message: Seq<u8>, signature: Seq<u8>) -> bool;

/// Calls `SigningKey::from_bytes(secret).verifying_key().to_bytes()`. The
/// contract names the result, and claims that the public key of a signing
/// key decodes again as a public key.
#[verifier::external_body]
fn public_key_of(secret: &[u8; 32]) -> (r: [u8; 32])
    ensures
        r@ == ed25519_public_key(secret@),
        ed25519_key_valid(r@),
{
    ed25519_dalek::SigningKey::from_bytes(secret).verifying_key().to_bytes()
}

/// Calls `Signer::sign` of `SigningKey::from_bytes(secret)` and returns the
/// signature's bytes. The contract names the result (Ed25519 signing is
/// deterministic), and claims that it verifies under the key's public key.
#[verifier::external_body]
fn sign_with(secret: &[u8; 32], message: &[u8]) -> (r: [u8; 64])
    ensures
        r@ == ed25519_signature(secret@, message@),
        ed25519_accepts(ed25519_public_key(secret@), message@, r@),
{
    ed25519_dalek::SigningKey::from_bytes(secret).sign(message).to_bytes()
}

/// Calls `VerifyingKey::from_bytes` and tells whether it succeeded.
#[verifier::external_body]
fn key_decodes(public: &[u8; 32]) -> (r: bool)
    ensures
        r == ed25519_key_valid(public@),
{
    ed25519_dalek::VerifyingKey::from_bytes(public).is_ok()
}

/// Calls `Verifier::verify` of the public key on the message and the
/// signature, and tells whether it succeeded.
#[verifier::external_body]
fn signature_verifies(public: &[u8; 32], message: &[u8], signature: &[u8; 64]) -> (r: bool)
    requires
        ed25519_key_valid(public@),
    ensures
        r == ed25519_accepts(public@, message@, signature@),
{
    match ed25519_dalek::VerifyingKey::from_bytes(public) {
        Ok(key) => key.verify(message, &ed25519_dalek::Signature::from_bytes(signature)).is_ok(),
        Err(_) => false,
    }
}


/// The device identifier of a public key: its digest.
pub open spec fn device_id_of(public_key: Seq<u8>) -> Seq<u8> {
    blake3_digest(public_key)
}

/// The device identifier whose bytes are `b`.
pub open spec fn device_with_bytes(b: Seq<u8>) -> DeviceId {
    choose|d: DeviceId| d@ == b
}

/// The device identifier of a public key.
pub fn device_id_from_public_key(public_key: &[u8; 32]) -> (r: DeviceId)
    ensures
        r@ == device_id_of(public_key@),
        r == device_with_bytes(device_id_of(public_key@)),
{
    let r = DeviceId::from_bytes(blake3_hash(public_key.as_slice()));
    proof {
        let c = device_with_bytes(device_id_of(public_key@));
        OpaqueId::lemma_view(c.0, r.0);
    }
    r
}

/// Why a signature or an identity event was refused.
#[derive(Debug)]
pub enum IdentityError {
    MissingGenesis,
    Sequence { expected: u64, actual: u64 },
    Fork,
    InvalidSignature,
    InvalidPublicKey,
    DeviceIdMismatch,
    UnauthorizedDevice(DeviceId),
    DuplicateDevice(DeviceId),
    UnknownDevice(DeviceId),
    AlreadyRevoked(DeviceId),
    Codec(CodecError),
}

/// Why a signature under a public key is refused, if it is.
pub open spec fn signature_error(public: Seq<u8>, message: Seq<u8>, signature: Seq<u8>) -> Option<IdentityError> {
    if !ed25519_key_valid(public) {
        Some(IdentityError::InvalidPublicKey)
    } else if signature.len() != 64 || !ed25519_accepts(public, message, signature) {
        Some(IdentityError::InvalidSignature)
    } else {
        None
    }
}

/// A device's Ed25519 signing key.
#[derive(Clone)]
pub struct DeviceKeyPair {
    secret: [u8; 32],
}

impl DeviceKeyPair {
    /// The secret key's bytes.
    pub closed spec fn secret(&self) -> Seq<u8> {
        self.secret@
    }

    /// The device identifier of the key.
    pub open spec fn device_id_spec(&self) -> DeviceId {
        device_with_bytes(device_id_of(ed25519_public_key(self.secret())))
    }

    /// A key pair from fresh random bytes.
    pub fn generate() -> (r: Self) {
        DeviceKeyPair { secret: random_bytes::<32>() }
    }

    pub fn from_secret_bytes(bytes: &[u8; 32]) -> (r: Self)
        ensures
            r.secret() == bytes@,
    {
        DeviceKeyPair { secret: *bytes }
    }

    pub fn secret_bytes(&self) -> (r: [u8; 32])
        ensures
            r@ == self.secret(),
    {
        self.secret
    }

    pub fn public_key(&self) -> (r: [u8; 32])
        ensures
            r@ == ed25519_public_key(self.secret()),
            ed25519_key_valid(r@),
    {
        public_key_of(&self.secret)
    }

    /// The device identifier: the digest of the public key.
    pub fn device_id(&self) -> (r: DeviceId)
        ensures
            r@ == device_id_of(ed25519_public_key(self.secret())),
            r == device_with_bytes(device_id_of(ed25519_public_key(self.secret()))),
    {
        let public = self.public_key();
        device_id_from_public_key(&public)
    }

    pub fn sign_message(&self, bytes: &[u8]) -> (r: Vec<u8>)
        ensures
            r@ == ed25519_signature(self.secret(), bytes@),
            signature_error(ed25519_public_key(self.secret()), bytes@, r@) is None,
    {
        let _public = public_key_of(&self.secret);
        let signature = sign_with(&self.secret, bytes);
        let mut out: Vec<u8> = Vec::new();
        let mut i: usize = 0;
        while i < 64
            invariant
                i <= 64,
                signature@.len() == 64,
                out@ == signature@.take(i as int),
            decreases 64 - i,
        {
            out.push(signature[i]);
            assert(signature@.take(i + 1) =~= signature@.take(i as int).push(signature@[i as int]));
            i = i + 1;
        }
        assert(signature@.take(64) =~= signature@);
        out
    }

    /// Checks a signature of `bytes` under a public key.
    pub fn verify_message(public_key: &[u8; 32], bytes: &[u8], signature: &[u8]) -> (r: Result<(), IdentityError>)
        ensures
            match signature_error(public_key@, bytes@, signature@) {
                Some(e) => r == Err::<(), IdentityError>(e),
                None => r is Ok,
            },
    {
        if !key_decodes(public_key) {
            return Err(IdentityError::InvalidPublicKey);
        }
        if signature.len() != 64 {
            return Err(IdentityError::InvalidSignature);
        }
        let mut fixed = [0u8; 64];
        let mut i: usize = 0;
        while i < 64
            invariant
                i <= 64,
                signature@.len() == 64,
                forall|j: int| 0 <= j < i ==> fixed@[j] == signature@[j],
            decreases 64 - i,
        {
            fixed[i] = signature[i];
            i = i + 1;
        }
        assert(fixed@ =~= signature@);
        if signature_verifies(public_key, bytes, &fixed) {
            Ok(())
        } else {
            Err(IdentityError::InvalidSignature)
        }
    }
}


/// A device an identity has authorized, and when it was revoked, if it was.
#[derive(Debug, Clone, PartialEq, Eq)]
pub struct DeviceRecord {
    pub device_id: DeviceId,
    pub public_key: [u8; 32],
    pub label: String,
    pub added_at_unix: i64,
    pub revoked_at_unix: Option<i64>,
}

/// What an identity event does.
#[derive(Debug, Clone, PartialEq, Eq)]
pub enum IdentityEventKind {
    Genesis { public_key: [u8; 32], label: String },
    AddDevice { public_key: [u8; 32], label: String },
    RevokeDevice { device_id: DeviceId, reason: String },
}

/// One signed entry of an identity's log.
#[derive(Debug, Clone, PartialEq, Eq)]
pub struct IdentityEvent {
    pub sequence: u64,
    pub previous_hash: [u8; 32],
    pub author_device: DeviceId,
    pub created_at_unix: i64,
    pub kind: IdentityEventKind,
    pub signature: Vec<u8>,
}

impl IdentityEventKind {
    /// A copy of the same value.
    pub fn duplicate(&self) -> (r: Self)
        ensures
            r == *self,
    {
        match self {
            IdentityEventKind::Genesis { public_key, label } => IdentityEventKind::Genesis {
                public_key: *public_key,
                label: label.clone(),
            },
            IdentityEventKind::AddDevice { public_key, label } => IdentityEventKind::AddDevice {
                public_key: *public_key,
                label: label.clone(),
            },
            IdentityEventKind::RevokeDevice { device_id, reason } => IdentityEventKind::RevokeDevice {
                device_id: *device_id,
                reason: reason.clone(),
            },
        }
    }
}

impl IdentityEvent {
    /// A copy with the same fields; the signature holds the same bytes.
    pub fn duplicate(&self) -> (r: Self)
        ensures
            r.sequence == self.sequence,
            r.previous_hash == self.previous_hash,
            r.author_device == self.author_device,
            r.created_at_unix == self.created_at_unix,
            r.kind == self.kind,
            r.signature@ == self.signature@,
    {
        let mut signature: Vec<u8> = Vec::new();
        let mut i: usize = 0;
        while i < self.signature.len()
            invariant
                i <= self.signature@.len(),
                signature@ == self.signature@.take(i as int),
            decreases self.signature@.len() - i,
        {
            signature.push(self.signature[i]);
            assert(self.signature@.take(i + 1) =~= self.signature@.take(i as int).push(self.signature@[i as int]));
            i = i + 1;
        }
        assert(self.signature@.take(i as int) =~= self.signature@);
        IdentityEvent {
            sequence: self.sequence,
            previous_hash: self.previous_hash,
            author_device: self.author_device,
            created_at_unix: self.created_at_unix,
            kind: self.kind.duplicate(),
            signature,
        }
    }
}

/// The value of an identity log: its identifier, its events in order and its
/// devices keyed by identifier bytes.
pub struct IdentityLogState {
    pub identity_id: IdentityId,
    pub events: Seq<IdentityEvent>,
    pub devices: Map<Seq<u8>, DeviceRecord>,
}

/// Thirty-two zero bytes: the previous hash of a log's first event.
pub open spec fn zero_hash() -> Seq<u8> {
    Seq::new(32, |_i: int| 0u8)
}

/// The hash a new event must name as its predecessor's, given the encoding
/// of the log's last event.
pub open spec fn expected_previous_hash(s: IdentityLogState, previous_encoding: Seq<u8>) -> Seq<u8> {
    if s.events.len() == 0 {
        zero_hash()
    } else {
        blake3_digest(previous_encoding)
    }
}

/// Whether the device is authorized and not revoked.
pub open spec fn is_active(s: IdentityLogState, device: Seq<u8>) -> bool {
    s.devices.contains_key(device) && s.devices[device].revoked_at_unix is None
}

/// The key an event must be signed with: the genesis key for the first
/// event, otherwise the key of its active author.
pub open spec fn signing_key_for(s: IdentityLogState, e: IdentityEvent) -> Result<[u8; 32], IdentityError> {
    if e.sequence == 0 {
        match e.kind {
            IdentityEventKind::Genesis { public_key, .. } => if e.author_device@ != device_id_of(public_key@) {
                Err(IdentityError::DeviceIdMismatch)
            } else {
                Ok(public_key)
            },
            _ => Err(IdentityError::MissingGenesis),
        }
    } else if !is_active(s, e.author_device@) {
        Err(IdentityError::UnauthorizedDevice(e.author_device))
    } else {
        Ok(s.devices[e.author_device@].public_key)
    }
}

/// The log after a verified event's effect on the devices.
pub open spec fn event_effect(s: IdentityLogState, e: IdentityEvent) -> Result<IdentityLogState, IdentityError> {
    match e.kind {
        IdentityEventKind::Genesis { public_key, label } | IdentityEventKind::AddDevice {
            public_key,
            label,
        } => {
            let d = device_id_of(public_key@);
            if s.devices.contains_key(d) {
                Err(IdentityError::DuplicateDevice(device_with_bytes(d)))
            } else {
                Ok(
                    IdentityLogState {
                        devices: s.devices.insert(
                            d,
                            DeviceRecord {
                                device_id: device_with_bytes(d),
                                public_key,
                                label,
                                added_at_unix: e.created_at_unix,
                                revoked_at_unix: None,
                            },
                        ),
                        ..s
                    },
                )
            }
        },
        IdentityEventKind::RevokeDevice { device_id, .. } => if !s.devices.contains_key(device_id@) {
            Err(IdentityError::UnknownDevice(device_id))
        } else if s.devices[device_id@].revoked_at_unix is Some {
            Err(IdentityError::AlreadyRevoked(device_id))
        } else {
            Ok(
                IdentityLogState {
                    devices: s.devices.insert(
                        device_id@,
                        DeviceRecord { revoked_at_unix: Some(e.created_at_unix), ..s.devices[device_id@] },
                    ),
                    ..s
                },
            )
        },
    }
}

/// The outcome of appending an event whose signed part encodes as
/// `signable`, to a log whose last event encodes as `previous_encoding`.
pub open spec fn appended(
    s: IdentityLogState,
    e: IdentityEvent,
    signable: Seq<u8>,
    previous_encoding: Seq<u8>,
) -> Result<IdentityLogState, IdentityError> {
    if e.sequence != s.events.len() {
        Err(IdentityError::Sequence { expected: s.events.len() as u64, actual: e.sequence })
    } else if e.previous_hash@ != expected_previous_hash(s, previous_encoding) {
        Err(IdentityError::Fork)
    } else {
        match signing_key_for(s, e) {
            Err(err) => Err(err),
            Ok(key) => match signature_error(key@, signable, e.signature@) {
                Some(err) => Err(err),
                None => match event_effect(s, e) {
                    Err(err) => Err(err),
                    Ok(t) => Ok(IdentityLogState { events: t.events.push(e), ..t }),
                },
            },
        }
    }
}

/// A hash-chained, signed log of the devices an identity authorizes.
#[derive(Debug, Clone)]
pub struct IdentityLog {
    identity_id: IdentityId,
    events: Vec<IdentityEvent>,
    devices: SortedMap<DeviceId, DeviceRecord>,
}

impl IdentityLog {
    pub closed spec fn view(&self) -> IdentityLogState {
        IdentityLogState { identity_id: self.identity_id, events: self.events@, devices: self.devices@ }
    }

    pub closed spec fn wf(&self) -> bool {
        self.devices.wf()
    }

    /// The devices with their identifiers, ascending by identifier.
    pub closed spec fn device_entries(&self) -> Seq<(DeviceId, DeviceRecord)> {
        self.devices.entries()
    }

    /// An empty log of the identity.
    pub fn empty(identity_id: IdentityId) -> (r: Self)
        ensures
            r.wf(),
            r@.identity_id == identity_id,
            r@.events == Seq::<IdentityEvent>::empty(),
            r@.devices == Map::<Seq<u8>, DeviceRecord>::empty(),
    {
        IdentityLog { identity_id, events: Vec::new(), devices: SortedMap::new() }
    }

    pub fn identity_id(&self) -> (r: IdentityId)
        ensures
            r == self@.identity_id,
    {
        self.identity_id
    }

    pub fn events(&self) -> (r: &[IdentityEvent])
        ensures
            r@ == self@.events,
    {
        self.events.as_slice()
    }

    /// The devices, ascending by identifier.
    pub fn devices(&self) -> (r: &[(DeviceId, DeviceRecord)])
        requires
            self.wf(),
        ensures
            r@ == self.device_entries(),
            r@.len() == self@.devices.dom().len(),
            forall|i: int|
                0 <= i < r@.len() ==> self@.devices.contains_key(#[trigger] r@[i].0@)
                    && self@.devices[r@[i].0@] == r@[i].1,
            forall|i: int, j: int| 0 <= i < j < r@.len() ==> lex_lt(#[trigger] r@[i].0@, #[trigger] r@[j].0@),
            forall|k: Seq<u8>|
                #[trigger] self@.devices.contains_key(k) ==> exists|i: int|
                    0 <= i < r@.len() && #[trigger] r@[i].0@ == k,
    {
        proof {
            self.devices.lemma_entries_view();
            let s = self.devices.entries();
            assert forall|i: int, j: int| 0 <= i < j < s.len() implies lex_lt(s[i].0@, s[j].0@) by {
                assert(lex_lt(s[i].0.sort_bytes(), s[j].0.sort_bytes()));
            }
            assert forall|i: int| 0 <= i < s.len() implies self@.devices.contains_key(s[i].0@)
                && self@.devices[s[i].0@] == s[i].1 by {
                assert(self.devices@.contains_key(s[i].0.sort_bytes()));
            }
            assert forall|k: Seq<u8>| #[trigger] self@.devices.contains_key(k) implies exists|i: int|
                0 <= i < s.len() && #[trigger] s[i].0@ == k by {
                assert(self.devices@.contains_key(k));
                let i = choose|i: int| 0 <= i < s.len() && #[trigger] s[i].0.sort_bytes() == k;
                assert(s[i].0@ == k);
            }
        }
        self.devices.as_slice()
    }

    /// The device's record, where it is authorized and not revoked.
    pub fn active_device(&self, id: DeviceId) -> (r: Option<&DeviceRecord>)
        requires
            self.wf(),
        ensures
            r is Some <==> is_active(self@, id@),
            r matches Some(d) ==> *d == self@.devices[id@],
    {
        match self.devices.get(&id) {
            Some(d) => {
                if d.revoked_at_unix.is_none() {
                    Some(d)
                } else {
                    None
                }
            },
            None => None,
        }
    }

    /// Checks an event against the log and appends it. `signable` is the
    /// encoding of the event without its signature, `previous_encoding` the
    /// encoding of the log's last event (unused while the log is empty).
    pub fn append_verified(&mut self, event: IdentityEvent, signable: &[u8], previous_encoding: &[u8]) -> (r: Result<(), IdentityError>)
        requires
            old(self).wf(),
        ensures
            final(self).wf(),
            match appended(old(self)@, event, signable@, previous_encoding@) {
                Ok(t) => r is Ok && final(self)@ == t,
                Err(e) => r == Err::<(), IdentityError>(e) && final(self)@ == old(self)@,
            },
    {
        let expected_sequence = self.events.len() as u64;
        if event.sequence != expected_sequence {
            return Err(IdentityError::Sequence { expected: expected_sequence, actual: event.sequence });
        }
        let expected_previous: [u8; 32] = if self.events.len() == 0 {
            [0u8; 32]
        } else {
            blake3_hash(previous_encoding)
        };
        proof {
            if self.events.len() == 0 {
                assert(expected_previous@ =~= zero_hash());
            }
        }
        if !same_bytes32(&event.previous_hash, &expected_previous) {
            return Err(IdentityError::Fork);
        }
        let key: [u8; 32] = if event.sequence == 0 {
            match &event.kind {
                IdentityEventKind::Genesis { public_key, .. } => {
                    let derived = device_id_from_public_key(public_key);
                    if !event.author_device.same(&derived) {
                        return Err(IdentityError::DeviceIdMismatch);
                    }
                    *public_key
                },
                _ => {
                    return Err(IdentityError::MissingGenesis);
                },
            }
        } else {
            match self.active_device(event.author_device) {
                None => {
                    return Err(IdentityError::UnauthorizedDevice(event.author_device));
                },
                Some(author) => author.public_key,
            }
        };
        match DeviceKeyPair::verify_message(&key, signable, event.signature.as_slice()) {
            Err(e) => {
                return Err(e);
            },
            Ok(()) => {},
        }
        let ghost s = self@;
        match &event.kind {
            IdentityEventKind::Genesis { public_key, label } => {
                match self.authorize(public_key, label, event.created_at_unix) {
                    Err(e) => {
                        return Err(e);
                    },
                    Ok(()) => {},
                }
            },
            IdentityEventKind::AddDevice { public_key, label } => {
                match self.authorize(public_key, label, event.created_at_unix) {
                    Err(e) => {
                        return Err(e);
                    },
                    Ok(()) => {},
                }
            },
            IdentityEventKind::RevokeDevice { device_id, .. } => {
                match self.devices.get(device_id) {
                    None => {
                        return Err(IdentityError::UnknownDevice(*device_id));
                    },
                    Some(d) => {
                        if d.revoked_at_unix.is_some() {
                            return Err(IdentityError::AlreadyRevoked(*device_id));
                        }
                    },
                }
                let ghost before = self.devices@;
                match self.devices.remove(device_id) {
                    Some((k, record)) => {
                        let mut record = record;
                        record.revoked_at_unix = Some(event.created_at_unix);
                        self.devices.insert(k, record);
                        proof {
                            assert(self.devices@ =~= before.insert(device_id@, record));
                        }
                    },
                    None => {},
                }
            },
        }
        self.events.push(event);
        Ok(())
    }

    /// Replays recorded events into an empty log of the identity. Event `i`
    /// comes with `signables[i]`, the encoding of its signed part, and
    /// `encodings[i]`, the encoding of the whole event.
    pub fn from_events(
        identity_id: IdentityId,
        events: Vec<IdentityEvent>,
        signables: &[Vec<u8>],
        encodings: &[Vec<u8>],
    ) -> (r: Result<Self, IdentityError>)
        requires
            signables@.len() == events@.len(),
            encodings@.len() == events@.len(),
        ensures
            match replayed(
                empty_log(identity_id),
                events@,
                byte_views(signables@),
                byte_views(encodings@),
                Seq::empty(),
            ) {
                Ok(t) => r matches Ok(log) && log.wf() && log@ == t,
                Err(e) => r matches Err(x) && x == e,
            },
    {
        let ghost sig_views = byte_views(signables@);
        let ghost enc_views = byte_views(encodings@);
        let mut log = IdentityLog::empty(identity_id);
        assert(log@ == empty_log(identity_id));
        let mut i: usize = 0;
        let empty: Vec<u8> = Vec::new();
        let ghost all = events@;
        let mut remaining = events;
        let mut pending: Vec<IdentityEvent> = Vec::new();
        assert(all.skip(all.len() as int).reverse() =~= pending@);
        assert(all.take(all.len() as int) =~= all);
        while remaining.len() > 0
            invariant
                log.wf(),
                log@ == empty_log(identity_id),
                remaining@.len() <= all.len(),
                remaining@ == all.take(remaining@.len() as int),
                pending@ == all.skip(remaining@.len() as int).reverse(),
            decreases remaining@.len(),
        {
            let ghost n = remaining@.len() as int;
            let e = remaining.pop().unwrap();
            pending.push(e);
            assert(remaining@ =~= all.take(n - 1));
            assert(pending@ =~= all.skip(n - 1).reverse());
        }
        assert(all.skip(0) =~= all);
        assert(sig_views.skip(0) =~= sig_views);
        assert(enc_views.skip(0) =~= enc_views);
        while i < signables.len()
            invariant
                all == events@,
                empty@ == Seq::<u8>::empty(),
                signables@.len() == all.len(),
                encodings@.len() == all.len(),
                i <= all.len(),
                pending@ == all.skip(i as int).reverse(),
                log.wf(),
                sig_views == byte_views(signables@),
                enc_views == byte_views(encodings@),
                replayed(empty_log(identity_id), all, sig_views, enc_views, Seq::empty()) == replayed(
                    log@,
                    all.skip(i as int),
                    sig_views.skip(i as int),
                    enc_views.skip(i as int),
                    if i == 0 { Seq::<u8>::empty() } else { enc_views[i - 1] },
                ),
            decreases all.len() - i,
        {
            let event = pending.pop().unwrap();
            assert(event == all[i as int]);
            assert(pending@ =~= all.skip(i + 1).reverse());
            let previous: &Vec<u8> = if i == 0 { &empty } else { &encodings[i - 1] };
            let ghost before = log@;
            let ghost rest = all.skip(i as int);
            assert(rest.len() > 0);
            assert(rest[0] == all[i as int]);
            assert(sig_views.skip(i as int)[0] == signables@[i as int]@);
            assert(rest.drop_first() =~= all.skip(i + 1));
            assert(sig_views.skip(i as int).drop_first() =~= sig_views.skip(i + 1));
            assert(enc_views.skip(i as int).drop_first() =~= enc_views.skip(i + 1));
            assert(enc_views.skip(i as int)[0] == enc_views[i as int]);
            assert(previous@ == (if i == 0 { Seq::<u8>::empty() } else { enc_views[i - 1] }));
            let ghost prev_enc = if i == 0 { Seq::<u8>::empty() } else { enc_views[i - 1] };
            match log.append_verified(event, signables[i].as_slice(), previous.as_slice()) {
                Err(e) => {
                    assert(appended(before, all[i as int], signables@[i as int]@, prev_enc) == Err::<IdentityLogState, IdentityError>(e));
                    assert(replayed(before, rest, sig_views.skip(i as int), enc_views.skip(i as int), prev_enc) == Err::<IdentityLogState, IdentityError>(e));
                    return Err(e);
                },
                Ok(()) => {},
            }
            i = i + 1;
        }
        assert(all.skip(i as int).len() == 0);
        Ok(log)
    }

    /// The unsigned genesis event of an identity whose first device holds
    /// `key`: the event whose signed part `create` expects encoded.
    pub fn genesis_draft(key: &DeviceKeyPair, label: String, created_at_unix: i64) -> (r: IdentityEvent)
        ensures
            r.sequence == 0,
            r.previous_hash@ == zero_hash(),
            r.author_device == key.device_id_spec(),
            r.created_at_unix == created_at_unix,
            r.kind matches IdentityEventKind::Genesis { public_key, label: l } && public_key@
                == ed25519_public_key(key.secret()) && l == label,
            r.signature@ == Seq::<u8>::empty(),
    {
        let public_key = key.public_key();
        let r = IdentityEvent {
            sequence: 0,
            previous_hash: [0u8; 32],
            author_device: key.device_id(),
            created_at_unix,
            kind: IdentityEventKind::Genesis { public_key, label },
            signature: Vec::new(),
        };
        assert(r.previous_hash@ =~= zero_hash());
        r
    }

    /// Starts the log of a new identity: signs the genesis draft of `key`,
    /// `label` and `created_at_unix`, whose signed part encodes as
    /// `signable`. The identity's identifier is the digest of `signable`.
    pub fn create(key: &DeviceKeyPair, label: String, created_at_unix: i64, signable: &[u8]) -> (r: Self)
        ensures
            r.wf(),
            r@.identity_id@ == blake3_digest(signable@),
            r@.events.len() == 1,
            r@.events[0].sequence == 0,
            r@.events[0].previous_hash@ == zero_hash(),
            r@.events[0].author_device == key.device_id_spec(),
            r@.events[0].created_at_unix == created_at_unix,
            r@.events[0].kind matches IdentityEventKind::Genesis { public_key, label: l } && public_key@
                == ed25519_public_key(key.secret()) && l == label,
            r@.events[0].signature@ == ed25519_signature(key.secret(), signable@),
            r@.devices == Map::<Seq<u8>, DeviceRecord>::empty().insert(
                key.device_id_spec()@,
                DeviceRecord {
                    device_id: key.device_id_spec(),
                    public_key: r@.devices[key.device_id_spec()@].public_key,
                    label,
                    added_at_unix: created_at_unix,
                    revoked_at_unix: None,
                },
            ),
            r@.devices[key.device_id_spec()@].public_key@ == ed25519_public_key(key.secret()),
            appended(empty_log(r@.identity_id), r@.events[0], signable@, Seq::empty()) == Ok::<
                IdentityLogState,
                IdentityError,
            >(r@),
    {
        let mut event = IdentityLog::genesis_draft(key, label, created_at_unix);
        let ghost draft = event;
        event.signature = key.sign_message(signable);
        let identity_id = IdentityId::from_bytes(blake3_hash(signable));
        let mut log = IdentityLog::empty(identity_id);
        let ghost pk = ed25519_public_key(key.secret());
        let _author = key.device_id();
        proof {
            assert(device_id_of(pk) == key.device_id_spec()@);
        }
        let ghost before = log@;
        let result = log.append_verified(event, signable, &[]);
        proof {
            assert(before == empty_log(identity_id));
            assert(log@.events.len() == 1);
            assert(log@.devices =~= Map::<Seq<u8>, DeviceRecord>::empty().insert(
                key.device_id_spec()@,
                DeviceRecord {
                    device_id: key.device_id_spec(),
                    public_key: log@.devices[key.device_id_spec()@].public_key,
                    label: draft.kind->Genesis_label,
                    added_at_unix: created_at_unix,
                    revoked_at_unix: None,
                },
            ));
        }
        log
    }

    /// The unsigned event by `author` that would follow the log's last
    /// event, which encodes as `previous_encoding`.
    pub fn signed_event_draft(
        &self,
        author: &DeviceKeyPair,
        kind: IdentityEventKind,
        created_at_unix: i64,
        previous_encoding: &[u8],
    ) -> (r: IdentityEvent)
        ensures
            r.sequence == self@.events.len() as u64,
            r.previous_hash@ == expected_previous_hash(self@, previous_encoding@),
            r.author_device == author.device_id_spec(),
            r.created_at_unix == created_at_unix,
            r.kind == kind,
            r.signature@ == Seq::<u8>::empty(),
    {
        let previous_hash: [u8; 32] = if self.events.len() == 0 {
            [0u8; 32]
        } else {
            blake3_hash(previous_encoding)
        };
        proof {
            if self.events.len() == 0 {
                assert(previous_hash@ =~= zero_hash());
            }
        }
        IdentityEvent {
            sequence: self.events.len() as u64,
            previous_hash,
            author_device: author.device_id(),
            created_at_unix,
            kind,
            signature: Vec::new(),
        }
    }

    /// Signs and appends the event `signed_event_draft` describes, whose
    /// signed part encodes as `signable`, and returns it. An author that is
    /// not an active device is refused before anything is signed.
    pub fn append_signed(
        &mut self,
        author: &DeviceKeyPair,
        kind: IdentityEventKind,
        created_at_unix: i64,
        signable: &[u8],
        previous_encoding: &[u8],
    ) -> (r: Result<IdentityEvent, IdentityError>)
        requires
            old(self).wf(),
        ensures
            final(self).wf(),
            signed_append_result(old(self)@, final(self)@, *author, kind, created_at_unix, signable@, previous_encoding@, r),
    {
        let author_id = author.device_id();
        let count = self.events.len();
        if self.active_device(author_id).is_none() {
            return Err(IdentityError::UnauthorizedDevice(author_id));
        }
        let mut event = self.signed_event_draft(author, kind, created_at_unix, previous_encoding);
        event.signature = author.sign_message(signable);
        let copy = event.duplicate();
        let ghost before = self@;
        match self.append_verified(event, signable, previous_encoding) {
            Err(x) => {
                assert(appended(before, event, signable@, previous_encoding@) == Err::<IdentityLogState, IdentityError>(x));
                proof {
                    if before.events.len() > 0 && is_active(before, author_id@)
                        && before.devices[author_id@].public_key@ == ed25519_public_key(author.secret()) {
                        assert(count <= usize::MAX);
                        assert(before.events.len() <= u64::MAX);
                        assert(event.sequence == before.events.len());
                        assert(signing_key_for(before, event) == Ok::<[u8; 32], IdentityError>(
                            before.devices[author_id@].public_key,
                        ));
                        assert(signature_error(before.devices[author_id@].public_key@, signable@, event.signature@) is None);
                    }
                }
                Err(x)
            },
            Ok(()) => {
                assert(self@.events.last() == event);
                Ok(copy)
            },
        }
    }

    /// Authorizes `new_device` with `label`, signed by `author`; `signable`
    /// is the encoding of the draft's signed part and `previous_encoding` that
    /// of the last event.
    pub fn add_device(
        &mut self,
        author: &DeviceKeyPair,
        new_device: &DeviceKeyPair,
        label: String,
        created_at_unix: i64,
        signable: &[u8],
        previous_encoding: &[u8],
    ) -> (r: Result<IdentityEvent, IdentityError>)
        requires
            old(self).wf(),
        ensures
            final(self).wf(),
            exists|public_key: [u8; 32]|
                {
                    &&& public_key@ == ed25519_public_key(new_device.secret())
                    &&& signed_append_result(
                        old(self)@,
                        final(self)@,
                        *author,
                        IdentityEventKind::AddDevice { public_key, label },
                        created_at_unix,
                        signable@,
                        previous_encoding@,
                        r,
                    )
                },
    {
        let public_key = new_device.public_key();
        self.append_signed(
            author,
            IdentityEventKind::AddDevice { public_key, label },
            created_at_unix,
            signable,
            previous_encoding,
        )
    }

    /// Revokes `device_id` for `reason`, signed by `author`; `signable` and
    /// `previous_encoding` as for `add_device`.
    pub fn revoke_device(
        &mut self,
        author: &DeviceKeyPair,
        device_id: DeviceId,
        reason: String,
        created_at_unix: i64,
        signable: &[u8],
        previous_encoding: &[u8],
    ) -> (r: Result<IdentityEvent, IdentityError>)
        requires
            old(self).wf(),
        ensures
            final(self).wf(),
            signed_append_result(
                old(self)@,
                final(self)@,
                *author,
                IdentityEventKind::RevokeDevice { device_id, reason },
                created_at_unix,
                signable@,
                previous_encoding@,
                r,
            ),
    {
        self.append_signed(
            author,
            IdentityEventKind::RevokeDevice { device_id, reason },
            created_at_unix,
            signable,
            previous_encoding,
        )
    }

    /// Records a newly authorized device.
    fn authorize(&mut self, public_key: &[u8; 32], label: &String, added_at_unix: i64) -> (r: Result<(), IdentityError>)
        requires
            old(self).wf(),
        ensures
            final(self).wf(),
            final(self).identity_id == old(self).identity_id,
            final(self).events == old(self).events,
            ({
                let d = device_id_of(public_key@);
                if old(self)@.devices.contains_key(d) {
                    r == Err::<(), IdentityError>(IdentityError::DuplicateDevice(device_with_bytes(d)))
                        && final(self)@ == old(self)@
                } else {
                    r is Ok && final(self)@.devices == old(self)@.devices.insert(
                        d,
                        DeviceRecord {
                            device_id: device_with_bytes(d),
                            public_key: *public_key,
                            label: *label,
                            added_at_unix,
                            revoked_at_unix: None,
                        },
                    )
                }
            }),
    {
        let device_id = device_id_from_public_key(public_key);
        if self.devices.contains(&device_id) {
            return Err(IdentityError::DuplicateDevice(device_id));
        }
        self.devices.insert(
            device_id,
            DeviceRecord {
                device_id,
                public_key: *public_key,
                label: label.clone(),
                added_at_unix,
                revoked_at_unix: None,
            },
        );
        Ok(())
    }
}


/// Whether two events have the same fields and the same signature bytes.
pub open spec fn same_event(a: IdentityEvent, b: IdentityEvent) -> bool {
    &&& a.sequence == b.sequence
    &&& a.previous_hash == b.previous_hash
    &&& a.author_device == b.author_device
    &&& a.created_at_unix == b.created_at_unix
    &&& a.kind == b.kind
    &&& a.signature@ == b.signature@
}

/// What appending a signed event of `kind` by `author` gives: refused
/// unchanged when the author is not an active device; otherwise the event
/// with the next sequence number, the hash of the previous event, the
/// author's signature over `signable`, appended last as `appended` says,
/// the stored event being the returned one field for field; and
/// success whenever the author's own key signed it and the kind itself is
/// acceptable.
pub open spec fn signed_append_result(
    before: IdentityLogState,
    after: IdentityLogState,
    author: DeviceKeyPair,
    kind: IdentityEventKind,
    created_at_unix: i64,
    signable: Seq<u8>,
    previous_encoding: Seq<u8>,
    r: Result<IdentityEvent, IdentityError>,
) -> bool {
    let author_id = author.device_id_spec();
    &&& !is_active(before, author_id@) ==> r == Err::<IdentityEvent, IdentityError>(
        IdentityError::UnauthorizedDevice(author_id),
    ) && after == before
    &&& r matches Ok(e) ==> {
        &&& e.sequence == before.events.len() as u64
        &&& e.previous_hash@ == expected_previous_hash(before, previous_encoding)
        &&& e.author_device == author_id
        &&& e.created_at_unix == created_at_unix
        &&& e.kind == kind
        &&& e.signature@ == ed25519_signature(author.secret(), signable)
        &&& after.identity_id == before.identity_id
        &&& after.events == before.events.push(after.events.last())
        &&& same_event(after.events.last(), e)
        &&& appended(before, after.events.last(), signable, previous_encoding) == Ok::<
            IdentityLogState,
            IdentityError,
        >(after)
    }
    &&& r matches Err(x) ==> after == before && (!is_active(before, author_id@) || exists|c: IdentityEvent|
        {
            &&& c.sequence == before.events.len() as u64
            &&& c.previous_hash@ == expected_previous_hash(before, previous_encoding)
            &&& c.author_device == author_id
            &&& c.created_at_unix == created_at_unix
            &&& c.kind == kind
            &&& c.signature@ == ed25519_signature(author.secret(), signable)
            &&& appended(before, c, signable, previous_encoding) == Err::<IdentityLogState, IdentityError>(x)
        })
    &&& before.events.len() > 0 && is_active(before, author_id@) && before.devices[author_id@].public_key@
        == ed25519_public_key(author.secret()) ==> (r is Ok || (r matches Err(x) && (x is DuplicateDevice
        || x is UnknownDevice || x is AlreadyRevoked)))
}

/// The bytes each vector holds.
pub open spec fn byte_views(v: Seq<Vec<u8>>) -> Seq<Seq<u8>> {
    Seq::new(v.len(), |i: int| v[i]@)
}

/// The empty log of an identity.
pub open spec fn empty_log(identity_id: IdentityId) -> IdentityLogState {
    IdentityLogState {
        identity_id,
        events: Seq::empty(),
        devices: Map::empty(),
    }
}

/// The outcome of appending events in order; `previous` is the encoding of
/// the event before the first.
pub open spec fn replayed(
    s: IdentityLogState,
    events: Seq<IdentityEvent>,
    signables: Seq<Seq<u8>>,
    encodings: Seq<Seq<u8>>,
    previous: Seq<u8>,
) -> Result<IdentityLogState, IdentityError>
    decreases events.len(),
{
    if events.len() == 0 {
        Ok(s)
    } else {
        match appended(s, events[0], signables[0], previous) {
            Err(e) => Err(e),
            Ok(t) => replayed(t, events.drop_first(), signables.drop_first(), encodings.drop_first(), encodings[0]),
        }
    }
}


/// Whether the events form a hash chain over their encodings: event `i`
/// carries sequence number `i`, the first names thirty-two zero bytes as its
/// predecessor's hash, and every later one the digest of `encodings[i - 1]`.
pub open spec fn hash_chained(events: Seq<IdentityEvent>, encodings: Seq<Seq<u8>>) -> bool {
    &&& forall|i: int| 0 <= i < events.len() ==> #[trigger] events[i].sequence == i
    &&& events.len() > 0 ==> events[0].previous_hash@ == zero_hash()
    &&& forall|i: int|
        0 < i < events.len() ==> #[trigger] events[i].previous_hash@ == blake3_digest(encodings[i - 1])
}

/// An accepted event extends the chain: it is appended last, carries the
/// next sequence number and the digest of the encoding of the event before
/// it, and after the genesis event its author was an active device.
pub proof fn law_append_extends_chain(
    s: IdentityLogState,
    e: IdentityEvent,
    signable: Seq<u8>,
    previous_encoding: Seq<u8>,
    encodings: Seq<Seq<u8>>,
    encoding: Seq<u8>,
    t: IdentityLogState,
)
    requires
        encodings.len() == s.events.len(),
        hash_chained(s.events, encodings),
        s.events.len() > 0 ==> previous_encoding == encodings.last(),
        appended(s, e, signable, previous_encoding) == Ok::<IdentityLogState, IdentityError>(t),
    ensures
        t.identity_id == s.identity_id,
        t.events == s.events.push(e),
        hash_chained(t.events, encodings.push(encoding)),
        e.sequence != 0 ==> is_active(s, e.author_device@),
{
    let n = s.events.len() as int;
    let es = t.events;
    let encs = encodings.push(encoding);
    assert(es == s.events.push(e));
    assert forall|i: int| 0 <= i < es.len() implies #[trigger] es[i].sequence == i by {
        if i < n {
            assert(es[i] == s.events[i]);
        }
    }
    assert forall|i: int| 0 < i < es.len() implies #[trigger] es[i].previous_hash@ == blake3_digest(
        encs[i - 1],
    ) by {
        if i < n {
            assert(es[i] == s.events[i]);
            assert(encs[i - 1] == encodings[i - 1]);
        } else {
            assert(encs[i - 1] == encodings.last());
        }
    }
    if n > 0 {
        assert(es[0] == s.events[0]);
    }
}

proof fn lemma_replayed_chain(
    s: IdentityLogState,
    events: Seq<IdentityEvent>,
    signables: Seq<Seq<u8>>,
    encodings: Seq<Seq<u8>>,
    previous: Seq<u8>,
    prior: Seq<Seq<u8>>,
    t: IdentityLogState,
)
    requires
        signables.len() == events.len(),
        encodings.len() == events.len(),
        prior.len() == s.events.len(),
        hash_chained(s.events, prior),
        s.events.len() > 0 ==> previous == prior.last(),
        replayed(s, events, signables, encodings, previous) == Ok::<IdentityLogState, IdentityError>(t),
    ensures
        t.identity_id == s.identity_id,
        t.events == s.events + events,
        hash_chained(t.events, prior + encodings),
    decreases events.len(),
{
    if events.len() == 0 {
        assert(s.events + events =~= s.events);
        assert(prior + encodings =~= prior);
    } else {
        let first = appended(s, events[0], signables[0], previous);
        match first {
            Ok(u) => {
                law_append_extends_chain(s, events[0], signables[0], previous, prior, encodings[0], u);
                lemma_replayed_chain(
                    u,
                    events.drop_first(),
                    signables.drop_first(),
                    encodings.drop_first(),
                    encodings[0],
                    prior.push(encodings[0]),
                    t,
                );
                assert(s.events.push(events[0]) + events.drop_first() =~= s.events + events);
                assert(prior.push(encodings[0]) + encodings.drop_first() =~= prior + encodings);
            },
            Err(_) => {},
        }
    }
}

/// Replaying events into an empty log keeps them as they are, in order,
/// and accepts them only where they form a hash chain over the encodings
/// handed with them.
pub proof fn law_replay_is_chained(
    identity_id: IdentityId,
    events: Seq<IdentityEvent>,
    signables: Seq<Seq<u8>>,
    encodings: Seq<Seq<u8>>,
    t: IdentityLogState,
)
    requires
        signables.len() == events.len(),
        encodings.len() == events.len(),
        replayed(empty_log(identity_id), events, signables, encodings, Seq::empty()) == Ok::<
            IdentityLogState,
            IdentityError,
        >(t),
    ensures
        t.identity_id == identity_id,
        t.events == events,
        hash_chained(events, encodings),
{
    lemma_replayed_chain(empty_log(identity_id), events, signables, encodings, Seq::empty(), Seq::empty(), t);
    assert(Seq::<IdentityEvent>::empty() + events =~= events);
    assert(Seq::<Seq<u8>>::empty() + encodings =~= encodings);
}

proof fn lemma_replayed_push(
    s: IdentityLogState,
    events: Seq<IdentityEvent>,
    signables: Seq<Seq<u8>>,
    encodings: Seq<Seq<u8>>,
    previous: Seq<u8>,
    e: IdentityEvent,
    signable: Seq<u8>,
    encoding: Seq<u8>,
)
    requires
        signables.len() == events.len(),
        encodings.len() == events.len(),
    ensures
        replayed(s, events.push(e), signables.push(signable), encodings.push(encoding), previous) == match replayed(
            s,
            events,
            signables,
            encodings,
            previous,
        ) {
            Ok(u) => appended(u, e, signable, if events.len() == 0 { previous } else { encodings.last() }),
            Err(x) => Err(x),
        },
    decreases events.len(),
{
    let evs = events.push(e);
    let sigs = signables.push(signable);
    let encs = encodings.push(encoding);
    if events.len() == 0 {
        assert(evs.drop_first() =~= Seq::<IdentityEvent>::empty());
        assert(sigs.drop_first() =~= Seq::<Seq<u8>>::empty());
        assert(encs.drop_first() =~= Seq::<Seq<u8>>::empty());
        assert(evs[0] == e);
        assert(sigs[0] == signable);
        match appended(s, e, signable, previous) {
            Ok(u) => {
                assert(replayed(u, evs.drop_first(), sigs.drop_first(), encs.drop_first(), encs[0]) == Ok::<
                    IdentityLogState,
                    IdentityError,
                >(u));
            },
            Err(_) => {},
        }
    } else {
        assert(evs[0] == events[0]);
        assert(sigs[0] == signables[0]);
        assert(encs[0] == encodings[0]);
        assert(evs.drop_first() =~= events.drop_first().push(e));
        assert(sigs.drop_first() =~= signables.drop_first().push(signable));
        assert(encs.drop_first() =~= encodings.drop_first().push(encoding));
        match appended(s, events[0], signables[0], previous) {
            Ok(u) => {
                lemma_replayed_push(
                    u,
                    events.drop_first(),
                    signables.drop_first(),
                    encodings.drop_first(),
                    encodings[0],
                    e,
                    signable,
                    encoding,
                );
                if events.len() > 1 {
                    assert(encodings.drop_first().last() == encodings.last());
                }
            },
            Err(_) => {},
        }
    }
}

/// Replaying a log's own events rebuilds it: where replaying `events` into
/// an empty log gives `s` and appending `e` to `s` (with the encoding of the
/// last of `events` as the previous encoding) gives `t`, replaying `events`
/// followed by `e`, with the same signed parts and encodings, gives `t`.
pub proof fn law_replay_rebuilds(
    identity_id: IdentityId,
    events: Seq<IdentityEvent>,
    signables: Seq<Seq<u8>>,
    encodings: Seq<Seq<u8>>,
    s: IdentityLogState,
    e: IdentityEvent,
    signable: Seq<u8>,
    encoding: Seq<u8>,
    t: IdentityLogState,
)
    requires
        signables.len() == events.len(),
        encodings.len() == events.len(),
        replayed(empty_log(identity_id), events, signables, encodings, Seq::empty()) == Ok::<
            IdentityLogState,
            IdentityError,
        >(s),
        appended(s, e, signable, if events.len() == 0 { Seq::<u8>::empty() } else { encodings.last() })
            == Ok::<IdentityLogState, IdentityError>(t),
    ensures
        replayed(
            empty_log(identity_id),
            events.push(e),
            signables.push(signable),
            encodings.push(encoding),
            Seq::empty(),
        ) == Ok::<IdentityLogState, IdentityError>(t),
{
    lemma_replayed_push(empty_log(identity_id), events, signables, encodings, Seq::empty(), e, signable, encoding);
}

/// Whether replaying the log's own events, event `i` with `signables[i]`
/// and `encodings[i]`, into an empty log of its identity gives the log back.
pub open spec fn rebuilt_by(s: IdentityLogState, signables: Seq<Seq<u8>>, encodings: Seq<Seq<u8>>) -> bool {
    &&& signables.len() == s.events.len()
    &&& encodings.len() == s.events.len()
    &&& replayed(empty_log(s.identity_id), s.events, signables, encodings, Seq::empty()) == Ok::<
        IdentityLogState,
        IdentityError,
    >(s)
}

/// The previous encoding an append to a log rebuilt with `encodings` is
/// handed: that of its last event, or nothing for an empty log.
pub open spec fn last_encoding(s: IdentityLogState, encodings: Seq<Seq<u8>>) -> Seq<u8> {
    if s.events.len() == 0 {
        Seq::empty()
    } else {
        encodings.last()
    }
}

/// A log `create` starts is rebuilt from its genesis event with the signed
/// part `create` was handed and the genesis event's encoding.
pub proof fn law_created_log_rebuilds(s: IdentityLogState, signable: Seq<u8>, encoding: Seq<u8>)
    requires
        s.events.len() == 1,
        appended(empty_log(s.identity_id), s.events[0], signable, Seq::empty()) == Ok::<IdentityLogState, IdentityError>(s),
    ensures
        rebuilt_by(s, seq![signable], seq![encoding]),
{
    let none_e = Seq::<IdentityEvent>::empty();
    let none_b = Seq::<Seq<u8>>::empty();
    assert(replayed(empty_log(s.identity_id), none_e, none_b, none_b, Seq::empty()) == Ok::<
        IdentityLogState,
        IdentityError,
    >(empty_log(s.identity_id)));
    law_replay_rebuilds(s.identity_id, none_e, none_b, none_b, empty_log(s.identity_id), s.events[0], signable, encoding, s);
    assert(none_e.push(s.events[0]) =~= s.events);
    assert(none_b.push(signable) =~= seq![signable]);
    assert(none_b.push(encoding) =~= seq![encoding]);
}

/// Every signed append keeps a log rebuildable from its own events: where
/// the log was rebuilt with `signables` and `encodings` and the append was
/// handed the encoding of its last event, the log after an accepted append
/// is rebuilt with the append's signed part and the new event's encoding
/// added, and a refused append leaves it as it was.
pub proof fn law_signed_append_rebuilds(
    before: IdentityLogState,
    after: IdentityLogState,
    author: DeviceKeyPair,
    kind: IdentityEventKind,
    created_at_unix: i64,
    signable: Seq<u8>,
    r: Result<IdentityEvent, IdentityError>,
    signables: Seq<Seq<u8>>,
    encodings: Seq<Seq<u8>>,
    encoding: Seq<u8>,
)
    requires
        rebuilt_by(before, signables, encodings),
        signed_append_result(
            before,
            after,
            author,
            kind,
            created_at_unix,
            signable,
            last_encoding(before, encodings),
            r,
        ),
    ensures
        r is Ok ==> rebuilt_by(after, signables.push(signable), encodings.push(encoding)),
        r is Err ==> after == before && rebuilt_by(after, signables, encodings),
{
    if r is Ok {
        let e = after.events.last();
        law_replay_rebuilds(
            before.identity_id,
            before.events,
            signables,
            encodings,
            before,
            e,
            signable,
            encoding,
            after,
        );
    }
}

/// An event `append_verified` accepts keeps a log rebuildable from its own
/// events, with the event's signed part and encoding added.
pub proof fn law_verified_append_rebuilds(
    before: IdentityLogState,
    e: IdentityEvent,
    signable: Seq<u8>,
    signables: Seq<Seq<u8>>,
    encodings: Seq<Seq<u8>>,
    encoding: Seq<u8>,
    after: IdentityLogState,
)
    requires
        rebuilt_by(before, signables, encodings),
        appended(before, e, signable, last_encoding(before, encodings)) == Ok::<IdentityLogState, IdentityError>(after),
    ensures
        rebuilt_by(after, signables.push(signable), encodings.push(encoding)),
{
    law_replay_rebuilds(before.identity_id, before.events, signables, encodings, before, e, signable, encoding, after);
}

/// Two logs of the same value list the same devices in the same order:
/// the same identifier bytes, each with the same record.
pub proof fn law_same_log_same_devices(a: IdentityLog, b: IdentityLog)
    requires
        a.wf(),
        b.wf(),
        a@ == b@,
    ensures
        a.device_entries().len() == b.device_entries().len(),
        forall|i: int|
            0 <= i < a.device_entries().len() ==> #[trigger] a.device_entries()[i].0@ == b.device_entries()[i].0@
                && a.device_entries()[i].1 == b.device_entries()[i].1,
{
    a.devices.lemma_same_view_same_entries(&b.devices);
    let s = a.device_entries();
    let t = b.device_entries();
    assert forall|i: int| 0 <= i < s.len() implies #[trigger] s[i].0@ == t[i].0@ && s[i].1 == t[i].1 by {
        assert(s[i].0.sort_bytes() == t[i].0.sort_bytes());
    }
}

} // verus!
