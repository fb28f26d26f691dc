//! Contact invites: signed by the inviting device over the encoding of the
//! reachability record and over the encoding of the invite, each with its
//! own signature left empty. The encodings are the caller's; the library
//! checks devices and signatures over the bytes it is handed.
use vstd::prelude::*;
use crate::codec::CodecError;
use crate::identity::{
    device_id_from_public_key, device_id_of, ed25519_public_key, ed25519_signature, signature_error,
    DeviceKeyPair, IdentityError,
};
use crate::protocol::{ContactInvite, ReachabilityRecord, PROTOCOL_VERSION};
use crate::text::same_text;
use vstd::string::*;

verus! {

/// Why an invite could not be signed or verified.
#[derive(Debug)]
pub enum ContactProofError {
    DeviceMismatch,
    Identity(IdentityError),
    Codec(CodecError),
}

/// Whether the invite names the key's device, key and reachability.
pub open spec fn invite_device_is_key(key: DeviceKeyPair, invite: ContactInvite) -> bool {
    &&& invite.inviter_device@ == device_id_of(ed25519_public_key(key.secret()))
    &&& invite.inviter_device_public_key@ == ed25519_public_key(key.secret())
    &&& invite.reachability.device_id@ == device_id_of(ed25519_public_key(key.secret()))
}

/// Whether the invite's device is the one its public key names, and its
/// reachability record is that device's.
pub open spec fn invite_device_consistent(invite: ContactInvite) -> bool {
    &&& invite.inviter_device@ == device_id_of(invite.inviter_device_public_key@)
    &&& invite.reachability.device_id@ == invite.inviter_device@
}

/// Whether two reachability records agree on everything but the signature.
pub open spec fn same_reachability(a: ReachabilityRecord, b: ReachabilityRecord) -> bool {
    &&& a.version == b.version
    &&& a.device_id == b.device_id
    &&& a.expires_unix == b.expires_unix
    &&& a.endpoint_id == b.endpoint_id
    &&& a.direct_candidates@ == b.direct_candidates@
    &&& a.relay_candidates@ == b.relay_candidates@
    &&& a.mailbox_candidates@ == b.mailbox_candidates@
}

/// Whether two invites agree on everything but the two signatures.
pub open spec fn same_invite(a: ContactInvite, b: ContactInvite) -> bool {
    &&& a.version == b.version
    &&& a.inviter_identity == b.inviter_identity
    &&& a.inviter_device == b.inviter_device
    &&& a.inviter_device_public_key == b.inviter_device_public_key
    &&& a.display_name == b.display_name
    &&& a.expires_unix == b.expires_unix
    &&& a.one_time_secret == b.one_time_secret
    &&& same_reachability(a.reachability, b.reachability)
}

/// A copy of the texts.
fn copy_texts(v: &Vec<String>) -> (r: Vec<String>)
    ensures
        r@ == v@,
{
    let mut out: Vec<String> = Vec::new();
    let mut i: usize = 0;
    while i < v.len()
        invariant
            i <= v@.len(),
            out@ == v@.take(i as int),
        decreases v@.len() - i,
    {
        out.push(v[i].clone());
        i = i + 1;
        assert(out@ =~= v@.take(i as int));
    }
    assert(v@.take(i as int) =~= v@);
    out
}

/// The reachability record of the invite with its signature left empty:
/// what its signature covers once encoded.
pub fn unsigned_reachability(invite: &ContactInvite) -> (r: ReachabilityRecord)
    ensures
        same_reachability(r, invite.reachability),
        r.signature@ == Seq::<u8>::empty(),
{
    let rec = &invite.reachability;
    ReachabilityRecord {
        version: rec.version,
        device_id: rec.device_id,
        expires_unix: rec.expires_unix,
        endpoint_id: rec.endpoint_id.clone(),
        direct_candidates: copy_texts(&rec.direct_candidates),
        relay_candidates: copy_texts(&rec.relay_candidates),
        mailbox_candidates: copy_texts(&rec.mailbox_candidates),
        signature: Vec::new(),
    }
}

/// The invite with its own signature left empty: what that signature covers
/// once encoded.
pub fn unsigned_invite(invite: &ContactInvite) -> (r: ContactInvite)
    ensures
        same_invite(r, *invite),
        r.reachability.signature@ == invite.reachability.signature@,
        r.signature@ == Seq::<u8>::empty(),
{
    let mut reachability = unsigned_reachability(invite);
    reachability.signature = copy_bytes(&invite.reachability.signature);
    ContactInvite {
        version: invite.version,
        inviter_identity: invite.inviter_identity,
        inviter_device: invite.inviter_device,
        inviter_device_public_key: invite.inviter_device_public_key,
        display_name: invite.display_name.clone(),
        expires_unix: invite.expires_unix,
        one_time_secret: invite.one_time_secret,
        reachability,
        signature: Vec::new(),
    }
}

/// A copy of the bytes.
fn copy_bytes(v: &Vec<u8>) -> (r: Vec<u8>)
    ensures
        r@ == v@,
{
    let mut out: Vec<u8> = Vec::new();
    crate::digest::extend_bytes(&mut out, v.as_slice());
    out
}

/// Checks that the invite is the key's and clears both signatures, ready
/// for `sign_reachability`.
pub fn prepare_invite(key: &DeviceKeyPair, invite: ContactInvite) -> (r: Result<ContactInvite, ContactProofError>)
    ensures
        !invite_device_is_key(*key, invite) ==> r matches Err(ContactProofError::DeviceMismatch),
        invite_device_is_key(*key, invite) ==> (r matches Ok(p) && same_invite(p, invite)
            && p.reachability.signature@ == Seq::<u8>::empty() && p.signature@ == Seq::<u8>::empty()),
{
    let device = key.device_id();
    let public = key.public_key();
    if !invite.inviter_device.same(&device) || !same_key(&invite.inviter_device_public_key, &public)
        || !invite.reachability.device_id.same(&device) {
        return Err(ContactProofError::DeviceMismatch);
    }
    let mut invite = invite;
    invite.reachability.signature = Vec::new();
    invite.signature = Vec::new();
    Ok(invite)
}

/// Whether two keys hold the same bytes.
fn same_key(a: &[u8; 32], b: &[u8; 32]) -> (r: bool)
    ensures
        r == (a@ == b@),
        r == (*a == *b),
{
    let r = crate::protocol::same_bytes32(a, b);
    proof {
        if a@ == b@ {
            assert(forall|i: int| 0 <= i < 32 ==> a[i] == a@[i] && b[i] == b@[i]);
            assert(*a =~= *b);
        }
    }
    r
}

/// Signs the reachability record; `encoding` is what encoding
/// `invite.reachability`, its signature empty, gave.
pub fn sign_reachability(
    key: &DeviceKeyPair,
    invite: ContactInvite,
    encoding: Result<Vec<u8>, CodecError>,
) -> (r: Result<ContactInvite, ContactProofError>)
    ensures
        encoding matches Err(c) ==> r matches Err(ContactProofError::Codec(d)) && d == c,
        encoding matches Ok(e) ==> (r matches Ok(s) && same_invite(s, invite) && s.signature@ == invite.signature@
            && s.reachability.signature@ == ed25519_signature(key.secret(), e@) && signature_error(
            ed25519_public_key(key.secret()),
            e@,
            s.reachability.signature@,
        ) is None),
{
    match encoding {
        Err(c) => Err(ContactProofError::Codec(c)),
        Ok(e) => {
            let mut invite = invite;
            invite.reachability.signature = key.sign_message(e.as_slice());
            Ok(invite)
        },
    }
}

/// Signs the invite; `encoding` is what encoding `invite`, its own
/// signature empty, gave.
pub fn sign_invite(key: &DeviceKeyPair, invite: ContactInvite, encoding: Result<Vec<u8>, CodecError>) -> (r: Result<
    ContactInvite,
    ContactProofError,
>)
    ensures
        encoding matches Err(c) ==> r matches Err(ContactProofError::Codec(d)) && d == c,
        encoding matches Ok(e) ==> (r matches Ok(s) && same_invite(s, invite) && s.reachability.signature@
            == invite.reachability.signature@ && s.signature@ == ed25519_signature(key.secret(), e@)
            && signature_error(ed25519_public_key(key.secret()), e@, s.signature@) is None),
{
    match encoding {
        Err(c) => Err(ContactProofError::Codec(c)),
        Ok(e) => {
            let mut invite = invite;
            invite.signature = key.sign_message(e.as_slice());
            Ok(invite)
        },
    }
}

/// What checking an invite gives, where `reachability_encoding` and
/// `invite_encoding` are what encoding its unsigned reachability record and
/// its unsigned self gave.
pub open spec fn invite_check(
    invite: ContactInvite,
    reachability_encoding: Result<Seq<u8>, CodecError>,
    invite_encoding: Result<Seq<u8>, CodecError>,
) -> Result<(), ContactProofError> {
    let public = invite.inviter_device_public_key@;
    if !invite_device_consistent(invite) {
        Err(ContactProofError::DeviceMismatch)
    } else {
        match reachability_encoding {
            Err(c) => Err(ContactProofError::Codec(c)),
            Ok(er) => match signature_error(public, er, invite.reachability.signature@) {
                Some(e) => Err(ContactProofError::Identity(e)),
                None => match invite_encoding {
                    Err(c) => Err(ContactProofError::Codec(c)),
                    Ok(ei) => match signature_error(public, ei, invite.signature@) {
                        Some(e) => Err(ContactProofError::Identity(e)),
                        None => Ok(()),
                    },
                },
            },
        }
    }
}

/// The bytes of an encoding outcome.
pub open spec fn encoding_view(e: Result<Vec<u8>, CodecError>) -> Result<Seq<u8>, CodecError> {
    match e {
        Ok(v) => Ok(v@),
        Err(c) => Err(c),
    }
}

/// Checks that the invite's device is the one its key names, and that both
/// signatures verify over the given encodings.
pub fn verify_invite(
    invite: &ContactInvite,
    reachability_encoding: Result<Vec<u8>, CodecError>,
    invite_encoding: Result<Vec<u8>, CodecError>,
) -> (r: Result<(), ContactProofError>)
    ensures
        r == invite_check(*invite, encoding_view(reachability_encoding), encoding_view(invite_encoding)),
{
    let expected = device_id_from_public_key(&invite.inviter_device_public_key);
    if !expected.same(&invite.inviter_device) || !invite.reachability.device_id.same(&invite.inviter_device) {
        return Err(ContactProofError::DeviceMismatch);
    }
    let er = match reachability_encoding {
        Err(c) => {
            return Err(ContactProofError::Codec(c));
        },
        Ok(e) => e,
    };
    match DeviceKeyPair::verify_message(
        &invite.inviter_device_public_key,
        er.as_slice(),
        invite.reachability.signature.as_slice(),
    ) {
        Err(e) => {
            return Err(ContactProofError::Identity(e));
        },
        Ok(()) => {},
    }
    let ei = match invite_encoding {
        Err(c) => {
            return Err(ContactProofError::Codec(c));
        },
        Ok(e) => e,
    };
    match DeviceKeyPair::verify_message(&invite.inviter_device_public_key, ei.as_slice(), invite.signature.as_slice()) {
        Err(e) => Err(ContactProofError::Identity(e)),
        Ok(()) => Ok(()),
    }
}

/// An invite signed by the device its key names verifies over the same
/// encodings it was signed over.
pub proof fn law_signed_invite_verifies(key: DeviceKeyPair, invite: ContactInvite, er: Seq<u8>, ei: Seq<u8>)
    requires
        invite_device_is_key(key, invite),
        signature_error(ed25519_public_key(key.secret()), er, invite.reachability.signature@) is None,
        signature_error(ed25519_public_key(key.secret()), ei, invite.signature@) is None,
    ensures
        invite_check(invite, Ok(er), Ok(ei)) == Ok::<(), ContactProofError>(()),
{
}

#[verifier::external_type_specification]
#[verifier::external_body]
pub struct ExDecodeError(base64::DecodeError);

#[verifier::external_type_specification]
#[verifier::external_body]
pub struct ExUrlParseError(url::ParseError);

/// Why an invite link was refused.
#[derive(Debug)]
pub enum InviteError {
    Unsupported,
    MissingPayload,
    Expired,
    Base64(base64::DecodeError),
    Codec(CodecError),
    Url(url::ParseError),
}

/// The URL-safe, unpadded Base64 text of bytes.
pub uninterp spec fn base64url_text(bytes: Seq<u8>) -> Seq<char>;

/// The bytes URL-safe, unpadded Base64 text decodes to, or nothing where it
/// is no such text.
pub uninterp spec fn base64url_bytes(text: Seq<char>) -> Option<Seq<u8>>;

/// Calls `URL_SAFE_NO_PAD.encode`. The contract names the text and claims
/// that decoding it gives the bytes back.
#[verifier::external_body]
pub(crate) fn base64url_encode(bytes: &[u8]) -> (r: String)
    ensures
        r@ == base64url_text(bytes@),
        base64url_bytes(r@) == Some(bytes@),
{
    base64::Engine::encode(&base64::engine::general_purpose::URL_SAFE_NO_PAD, bytes)
}

/// Calls `URL_SAFE_NO_PAD.decode`. The contract names the outcome.
#[verifier::external_body]
pub(crate) fn base64url_decode(text: &str) -> (r: Result<Vec<u8>, base64::DecodeError>)
    ensures
        r matches Ok(b) ==> base64url_bytes(text@) == Some(b@),
        r is Err <==> base64url_bytes(text@) is None,
{
    base64::Engine::decode(&base64::engine::general_purpose::URL_SAFE_NO_PAD, text)
}

/// The parts of a parsed link the rules read.
#[derive(Debug, Clone, PartialEq, Eq)]
pub struct LinkParts {
    pub scheme: String,
    pub host: Option<String>,
    pub path: String,
    pub fragment: Option<String>,
}

/// The text of the link that carries an encoded invite.
pub open spec fn invite_link_text(wire: Seq<u8>) -> Seq<char> {
    "pptalk://contact/v1#"@ + base64url_text(wire)
}

/// The text of the link that carries the encoded invite `wire`.
pub fn invite_link(wire: &[u8]) -> (r: String)
    ensures
        r@ == invite_link_text(wire@),
        base64url_bytes(base64url_text(wire@)) == Some(wire@),
{
    let mut out = String::from_str("pptalk://contact/v1#");
    let payload = base64url_encode(wire);
    out.append(payload.as_str());
    out
}

/// Whether a link is an invite link of this version.
pub open spec fn is_invite_link(link: LinkParts) -> bool {
    &&& link.scheme@ == "pptalk"@
    &&& link.host matches Some(h) && h@ == "contact"@
    &&& link.path@ == "/v1"@
}

/// The encoded invite a link carries: the bytes its fragment decodes to,
/// where it is an invite link with a fragment that decodes.
pub open spec fn link_payload(link: LinkParts) -> Option<Seq<u8>> {
    if is_invite_link(link) {
        match link.fragment {
            Some(f) => base64url_bytes(f@),
            None => None,
        }
    } else {
        None
    }
}

/// The encoded invite an invite link carries, or why it carries none.
pub fn invite_payload(link: &LinkParts) -> (r: Result<Vec<u8>, InviteError>)
    ensures
        r is Ok <==> link_payload(*link) is Some,
        r matches Ok(v) ==> link_payload(*link) == Some(v@),
        !is_invite_link(*link) ==> r matches Err(InviteError::Unsupported),
        is_invite_link(*link) ==> match link.fragment {
            None => r matches Err(InviteError::MissingPayload),
            Some(f) => match base64url_bytes(f@) {
                Some(b) => r matches Ok(v) && v@ == b,
                None => r matches Err(InviteError::Base64(_)),
            },
        },
{
    let host_ok = match &link.host {
        Some(h) => same_text(h.as_str(), "contact"),
        None => false,
    };
    if !same_text(link.scheme.as_str(), "pptalk") || !host_ok || !same_text(link.path.as_str(), "/v1") {
        return Err(InviteError::Unsupported);
    }
    match &link.fragment {
        None => Err(InviteError::MissingPayload),
        Some(f) => match base64url_decode(f.as_str()) {
            Ok(bytes) => Ok(bytes),
            Err(e) => Err(InviteError::Base64(e)),
        },
    }
}

/// Admits a decoded invite at `now_unix`: it must be of this protocol
/// version and not yet expired.
pub fn admit_invite(invite: ContactInvite, now_unix: i64) -> (r: Result<ContactInvite, InviteError>)
    ensures
        invite.version != PROTOCOL_VERSION ==> r matches Err(InviteError::Unsupported),
        invite.version == PROTOCOL_VERSION && invite.expires_unix <= now_unix ==> r matches Err(
            InviteError::Expired,
        ),
        invite.version == PROTOCOL_VERSION && invite.expires_unix > now_unix ==> r == Ok::<
            ContactInvite,
            InviteError,
        >(invite),
{
    if invite.version != PROTOCOL_VERSION {
        return Err(InviteError::Unsupported);
    }
    if invite.expires_unix <= now_unix {
        return Err(InviteError::Expired);
    }
    Ok(invite)
}

/// An invite link reads back as the encoded invite it was made from: for a
/// link whose scheme, host and path are those `invite_link` writes and whose
/// fragment is the Base64 text it writes after `#`, the payload is `wire`.
pub proof fn law_invite_link_round_trip(wire: Seq<u8>, link: LinkParts)
    requires
        base64url_bytes(base64url_text(wire)) == Some(wire),
        link.scheme@ == "pptalk"@,
        link.host matches Some(h) && h@ == "contact"@,
        link.path@ == "/v1"@,
        link.fragment matches Some(f) && f@ == base64url_text(wire),
    ensures
        is_invite_link(link),
        invite_link_text(wire) == "pptalk://contact/v1#"@ + link.fragment.unwrap()@,
        link_payload(link) == Some(wire),
{
}

} // verus!
