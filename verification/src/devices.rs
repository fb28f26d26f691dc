//! Linking a further device to an identity, and revoking one: the label and
//! device-count rules, the link that carries the sealed bundle to the new
//! device, and what the new device checks of the bundle it opens.
use vstd::prelude::*;
use vstd::string::*;
use crate::client::{is_white_space, is_white_space_char, lemma_trim_end_take, lemma_trim_start_skip, trim_end, trim_start};
use crate::identity::{
    ed25519_public_key, is_active, signed_append_result, DeviceKeyPair, DeviceRecord, IdentityError,
    IdentityEvent, IdentityEventKind, IdentityLog,
};
use crate::ids::{parsed_id_bytes, DeviceId, ParseIdError};
use crate::invite::{base64url_bytes, base64url_decode, base64url_encode, base64url_text, LinkParts};
use crate::protocol::PROTOCOL_VERSION;
use crate::text::same_text;

verus! {

/// The most devices an identity may have active at once.
pub const MAX_ACTIVE_DEVICES: usize = 5;

/// The most characters a device label may have.
pub const MAX_DEVICE_LABEL_CHARS: usize = 64;

/// Why a device could not be linked or revoked.
#[derive(Debug)]
pub enum DeviceLinkError {
    /// The label is blank, or longer than `MAX_DEVICE_LABEL_CHARS`.
    InvalidLabel,
    /// The profile keeps no identity log to authorize a device with.
    NoIdentityLog,
    /// The identity already has `MAX_ACTIVE_DEVICES` active devices.
    TooManyDevices,
    /// The identity log refused the event.
    Identity(IdentityError),
    /// The link is not a device link of this version.
    InvalidLink,
    /// The link carries no capability.
    MissingCapability,
    /// The link's payload is not URL-safe Base64.
    Encoding(base64::DecodeError),
    /// The payload is too short to hold a capability and a sealed bundle.
    InvalidPayload,
    /// The bundle has expired or is of another protocol version.
    Expired,
    /// The bundle's identity log does not authorize the new device.
    NotAuthorized,
    /// The device identifier to revoke is not one.
    InvalidDeviceId(ParseIdError),
    /// A device cannot revoke itself.
    SelfRevocation,
}

/// The text without leading or trailing white space.
pub open spec fn trimmed(s: Seq<char>) -> Seq<char> {
    trim_end(trim_start(s))
}

/// Whether a device label is acceptable: something is left once it is
/// trimmed, and it has at most `MAX_DEVICE_LABEL_CHARS` characters.
pub open spec fn label_ok(s: Seq<char>) -> bool {
    trimmed(s).len() > 0 && s.len() <= MAX_DEVICE_LABEL_CHARS
}

/// The bounds of the text once trimmed.
pub(crate) fn trim_text_bounds(s: &str) -> (r: (usize, usize))
    ensures
        r.0 <= r.1 <= s@.len(),
        s@.subrange(r.0 as int, r.1 as int) == trimmed(s@),
{
    let n = s.unicode_len();
    let mut lo: usize = 0;
    while lo < n && is_white_space_char(s.get_char(lo))
        invariant
            n == s@.len(),
            lo <= n,
            forall|j: int| 0 <= j < lo ==> is_white_space(#[trigger] s@[j]),
        decreases n - lo,
    {
        lo = lo + 1;
    }
    proof {
        lemma_trim_start_skip(s@, lo as int);
    }
    let mut hi: usize = n;
    while hi > lo && is_white_space_char(s.get_char(hi - 1))
        invariant
            n == s@.len(),
            lo <= hi <= n,
            forall|j: int| hi <= j < n ==> is_white_space(#[trigger] s@[j]),
        decreases hi - lo,
    {
        hi = hi - 1;
    }
    let ghost started = s@.skip(lo as int);
    proof {
        if hi > lo {
            assert(!is_white_space(started[hi - lo - 1]));
        }
        assert forall|j: int| hi - lo <= j < started.len() implies is_white_space(#[trigger] started[j]) by {
            assert(started[j] == s@[lo + j]);
        }
        lemma_trim_end_take(started, hi - lo);
        assert(started.take(hi - lo) =~= s@.subrange(lo as int, hi as int));
    }
    (lo, hi)
}

/// The label a new device is authorized under: the given text, trimmed.
pub fn device_label(label: &str) -> (r: Result<String, DeviceLinkError>)
    ensures
        label_ok(label@) ==> (r matches Ok(t) && t@ == trimmed(label@)),
        !label_ok(label@) ==> r matches Err(DeviceLinkError::InvalidLabel),
{
    let (lo, hi) = trim_text_bounds(label);
    if lo == hi || label.unicode_len() > MAX_DEVICE_LABEL_CHARS {
        return Err(DeviceLinkError::InvalidLabel);
    }
    Ok(String::from_str(label.substring_char(lo, hi)))
}

/// Whether a profile's display name is acceptable: by the same rule as a
/// device label, though the name is kept as given.
pub fn display_name_ok(name: &str) -> (r: bool)
    ensures
        r == label_ok(name@),
{
    let (lo, hi) = trim_text_bounds(name);
    lo < hi && name.unicode_len() <= MAX_DEVICE_LABEL_CHARS
}

/// How many of the devices have not been revoked.
pub open spec fn active_count(entries: Seq<(DeviceId, DeviceRecord)>) -> nat
    decreases entries.len(),
{
    if entries.len() == 0 {
        0
    } else {
        active_count(entries.drop_last()) + if entries.last().1.revoked_at_unix is None {
            1nat
        } else {
            0nat
        }
    }
}

/// How many of the log's devices are active.
pub fn active_device_count(log: &IdentityLog) -> (r: usize)
    requires
        log.wf(),
    ensures
        r == active_count(log.device_entries()),
{
    let devices = log.devices();
    let mut count: usize = 0;
    let mut i: usize = 0;
    while i < devices.len()
        invariant
            i <= devices@.len(),
            devices@ == log.device_entries(),
            count == active_count(devices@.take(i as int)),
            count <= i,
        decreases devices@.len() - i,
    {
        assert(devices@.take(i + 1).drop_last() =~= devices@.take(i as int));
        if devices[i].1.revoked_at_unix.is_none() {
            count = count + 1;
        }
        i = i + 1;
    }
    assert(devices@.take(i as int) =~= devices@);
    count
}

/// The outcome of an identity log operation, as a device-link outcome.
pub open spec fn lifted(r: Result<IdentityEvent, IdentityError>) -> Result<IdentityEvent, DeviceLinkError> {
    match r {
        Ok(e) => Ok(e),
        Err(x) => Err(DeviceLinkError::Identity(x)),
    }
}

fn lift(r: Result<IdentityEvent, IdentityError>) -> (out: Result<IdentityEvent, DeviceLinkError>)
    ensures
        out == lifted(r),
{
    match r {
        Ok(e) => Ok(e),
        Err(x) => Err(DeviceLinkError::Identity(x)),
    }
}

/// Authorizes `new_device` under `label` in the log, signed by `author`.
/// A log with no events cannot authorize a device, nor one whose identity
/// already has `MAX_ACTIVE_DEVICES` active devices; otherwise the log
/// appends the signed event as `IdentityLog::add_device` does. `signable`
/// is the encoding of the draft's signed part, `previous_encoding` that of
/// the log's last event.
pub fn authorize_new_device(
    log: &mut IdentityLog,
    author: &DeviceKeyPair,
    new_device: &DeviceKeyPair,
    label: String,
    created_at_unix: i64,
    signable: &[u8],
    previous_encoding: &[u8],
) -> (r: Result<IdentityEvent, DeviceLinkError>)
    requires
        old(log).wf(),
    ensures
        final(log).wf(),
        old(log)@.events.len() == 0 ==> (r matches Err(DeviceLinkError::NoIdentityLog)) && final(log)@ == old(log)@,
        old(log)@.events.len() > 0 && active_count(old(log).device_entries()) >= MAX_ACTIVE_DEVICES ==> (r matches Err(
            DeviceLinkError::TooManyDevices,
        )) && final(log)@ == old(log)@,
        old(log)@.events.len() > 0 && active_count(old(log).device_entries()) < MAX_ACTIVE_DEVICES ==> exists|
            public_key: [u8; 32],
            inner: Result<IdentityEvent, IdentityError>,
        |
            {
                &&& public_key@ == ed25519_public_key(new_device.secret())
                &&& signed_append_result(
                    old(log)@,
                    final(log)@,
                    *author,
                    IdentityEventKind::AddDevice { public_key, label },
                    created_at_unix,
                    signable@,
                    previous_encoding@,
                    inner,
                )
                &&& r == lifted(inner)
            },
{
    if log.events().len() == 0 {
        return Err(DeviceLinkError::NoIdentityLog);
    }
    if active_device_count(log) >= MAX_ACTIVE_DEVICES {
        return Err(DeviceLinkError::TooManyDevices);
    }
    let inner = log.add_device(author, new_device, label, created_at_unix, signable, previous_encoding);
    lift(inner)
}

/// Revokes the device whose identifier `target` spells, signed by `author`.
/// The target must parse as a device identifier and must not be the
/// author's own device; otherwise the log appends the signed event as
/// `IdentityLog::revoke_device` does.
pub fn revoke_other_device(
    log: &mut IdentityLog,
    author: &DeviceKeyPair,
    target: &str,
    reason: String,
    created_at_unix: i64,
    signable: &[u8],
    previous_encoding: &[u8],
) -> (r: Result<IdentityEvent, DeviceLinkError>)
    requires
        old(log).wf(),
    ensures
        final(log).wf(),
        parsed_id_bytes(target) is None ==> (r matches Err(DeviceLinkError::InvalidDeviceId(_))) && final(log)@
            == old(log)@,
        parsed_id_bytes(target) == Some(author.device_id_spec()@) ==> (r matches Err(
            DeviceLinkError::SelfRevocation,
        )) && final(log)@ == old(log)@,
        parsed_id_bytes(target) is Some && parsed_id_bytes(target).unwrap() != author.device_id_spec()@ ==> exists|
            device_id: DeviceId,
            inner: Result<IdentityEvent, IdentityError>,
        |
            {
                &&& device_id@ == parsed_id_bytes(target).unwrap()
                &&& signed_append_result(
                    old(log)@,
                    final(log)@,
                    *author,
                    IdentityEventKind::RevokeDevice { device_id, reason },
                    created_at_unix,
                    signable@,
                    previous_encoding@,
                    inner,
                )
                &&& r == lifted(inner)
            },
{
    let device_id = match DeviceId::parse(target) {
        Ok(d) => d,
        Err(e) => return Err(DeviceLinkError::InvalidDeviceId(e)),
    };
    let own = author.device_id();
    if device_id.same(&own) {
        return Err(DeviceLinkError::SelfRevocation);
    }
    let inner = log.revoke_device(author, device_id, reason, created_at_unix, signable, previous_encoding);
    lift(inner)
}

/// The text of a device link: the scheme, host and version, and as the
/// fragment the URL-safe Base64 of the capability followed by the sealed
/// bundle.
pub open spec fn device_link_text(capability: Seq<u8>, sealed: Seq<u8>) -> Seq<char> {
    "pptalk://device/v1#"@ + base64url_text(capability + sealed)
}

/// The link that hands a sealed bundle, with the capability that opens it,
/// to a new device.
pub fn device_link(capability: &[u8; 32], sealed: &[u8]) -> (r: String)
    ensures
        r@ == device_link_text(capability@, sealed@),
{
    let mut payload: Vec<u8> = Vec::new();
    crate::digest::extend_bytes(&mut payload, capability.as_slice());
    crate::digest::extend_bytes(&mut payload, sealed);
    let mut out = String::from_str("pptalk://device/v1#");
    let text = base64url_encode(payload.as_slice());
    out.append(text.as_str());
    proof {
        reveal_strlit("pptalk://device/v1#");
    }
    out
}

/// Whether a link is a device link of this version.
pub open spec fn is_device_link(link: LinkParts) -> bool {
    &&& link.scheme@ == "pptalk"@
    &&& link.host matches Some(h) && h@ == "device"@
    &&& link.path@ == "/v1"@
}

/// What a device link carries: its capability and the sealed bundle, or
/// why it carries neither.
pub fn device_link_payload(link: &LinkParts) -> (r: Result<([u8; 32], Vec<u8>), DeviceLinkError>)
    ensures
        !is_device_link(*link) ==> r matches Err(DeviceLinkError::InvalidLink),
        is_device_link(*link) ==> match link.fragment {
            None => r matches Err(DeviceLinkError::MissingCapability),
            Some(f) => match base64url_bytes(f@) {
                None => r matches Err(DeviceLinkError::Encoding(_)),
                Some(b) => if b.len() <= 32 {
                    r matches Err(DeviceLinkError::InvalidPayload)
                } else {
                    (r matches Ok((c, s)) && c@ == b.take(32) && s@ == b.skip(32))
                },
            },
        },
{
    let host_ok = match &link.host {
        Some(h) => same_text(h.as_str(), "device"),
        None => false,
    };
    if !same_text(link.scheme.as_str(), "pptalk") || !host_ok || !same_text(link.path.as_str(), "/v1") {
        return Err(DeviceLinkError::InvalidLink);
    }
    let bytes = match &link.fragment {
        None => return Err(DeviceLinkError::MissingCapability),
        Some(f) => match base64url_decode(f.as_str()) {
            Ok(b) => b,
            Err(e) => return Err(DeviceLinkError::Encoding(e)),
        },
    };
    if bytes.len() <= 32 {
        return Err(DeviceLinkError::InvalidPayload);
    }
    let mut capability = [0u8; 32];
    let mut i: usize = 0;
    while i < 32
        invariant
            i <= 32,
            bytes@.len() > 32,
            forall|j: int| 0 <= j < i ==> capability@[j] == bytes@[j],
        decreases 32 - i,
    {
        capability[i] = bytes[i];
        i = i + 1;
    }
    let mut sealed: Vec<u8> = Vec::new();
    let mut k: usize = 32;
    while k < bytes.len()
        invariant
            32 <= k <= bytes@.len(),
            sealed@ == bytes@.subrange(32, k as int),
        decreases bytes@.len() - k,
    {
        sealed.push(bytes[k]);
        assert(bytes@.subrange(32, k + 1) =~= bytes@.subrange(32, k as int).push(bytes@[k as int]));
        k = k + 1;
    }
    assert(capability@ =~= bytes@.take(32));
    assert(sealed@ =~= bytes@.skip(32));
    Ok((capability, sealed))
}

/// What a new device checks of the bundle it opened: that it is of this
/// protocol version and not expired at `now_unix`, and that the bundle's
/// identity log authorizes the device whose key it was handed.
pub fn admit_device_bundle(
    version: u16,
    expires_unix: i64,
    now_unix: i64,
    identity: &IdentityLog,
    device: &DeviceKeyPair,
) -> (r: Result<(), DeviceLinkError>)
    requires
        identity.wf(),
    ensures
        (version != PROTOCOL_VERSION || expires_unix <= now_unix) ==> r matches Err(DeviceLinkError::Expired),
        version == PROTOCOL_VERSION && expires_unix > now_unix && !is_active(identity@, device.device_id_spec()@)
            ==> r matches Err(DeviceLinkError::NotAuthorized),
        version == PROTOCOL_VERSION && expires_unix > now_unix && is_active(identity@, device.device_id_spec()@)
            ==> r is Ok,
{
    if version != PROTOCOL_VERSION || expires_unix <= now_unix {
        return Err(DeviceLinkError::Expired);
    }
    if identity.active_device(device.device_id()).is_none() {
        return Err(DeviceLinkError::NotAuthorized);
    }
    Ok(())
}

} // verus!
