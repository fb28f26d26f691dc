use pptalk::crypto::GroupSecret;
use pptalk::devices::{
    active_device_count, admit_device_bundle, authorize_new_device, device_label, display_name_ok, device_link, device_link_payload,
    revoke_other_device, DeviceLinkError, MAX_ACTIVE_DEVICES,
};
use pptalk::files::{attachment_file_name, safe_name};
use pptalk::identity::{DeviceKeyPair, IdentityError, IdentityEvent, IdentityEventKind, IdentityLog};
use pptalk::ids::{DeviceId, IdentityId};
use pptalk::incoming::{
    is_group_payload, log_extends, parse_message_id, payload_dropped, poll_routes, route_candidate, same_identity_event,
    sender_log_current, spend_pending_invite, update_contact_key_package, ContactKeys, PayloadKind,
};
use pptalk::client::routing_capability;
use pptalk::invite::{invite_link, invite_payload, InviteError, LinkParts};
use pptalk::protocol::PROTOCOL_VERSION;

/// A test encoding of identity events: distinct events give distinct bytes.
fn encode_identity(event: &IdentityEvent, with_signature: bool) -> Vec<u8> {
    let mut out = event.sequence.to_le_bytes().to_vec();
    out.extend_from_slice(&event.previous_hash);
    out.extend_from_slice(event.author_device.as_bytes());
    out.extend_from_slice(&event.created_at_unix.to_le_bytes());
    match &event.kind {
        IdentityEventKind::Genesis { public_key, label } => {
            out.push(0);
            out.extend_from_slice(public_key);
            out.extend_from_slice(label.as_bytes());
        }
        IdentityEventKind::AddDevice { public_key, label } => {
            out.push(1);
            out.extend_from_slice(public_key);
            out.extend_from_slice(label.as_bytes());
        }
        IdentityEventKind::RevokeDevice { device_id, reason } => {
            out.push(2);
            out.extend_from_slice(device_id.as_bytes());
            out.extend_from_slice(reason.as_bytes());
        }
    }
    if with_signature {
        out.extend_from_slice(&event.signature);
    }
    out
}

fn create_log(key: &DeviceKeyPair, label: &str, time: i64) -> IdentityLog {
    let genesis = IdentityLog::genesis_draft(key, label.into(), time);
    IdentityLog::create(key, label.into(), time, &encode_identity(&genesis, false))
}

fn last_encoding(log: &IdentityLog) -> Vec<u8> {
    encode_identity(log.events().last().expect("event"), true)
}

fn authorize(log: &mut IdentityLog, author: &DeviceKeyPair, device: &DeviceKeyPair, label: &str, time: i64)
    -> Result<IdentityEvent, DeviceLinkError> {
    let previous = last_encoding(log);
    let kind = IdentityEventKind::AddDevice {
        public_key: device.public_key(),
        label: label.into(),
    };
    let draft = log.signed_event_draft(author, kind, time, &previous);
    let signable = encode_identity(&draft, false);
    authorize_new_device(log, author, device, label.into(), time, &signable, &previous)
}

fn replay(log: &IdentityLog) -> IdentityLog {
    let events: Vec<IdentityEvent> = log.events().to_vec();
    let signables: Vec<Vec<u8>> = events.iter().map(|e| encode_identity(e, false)).collect();
    let encodings: Vec<Vec<u8>> = events.iter().map(|e| encode_identity(e, true)).collect();
    IdentityLog::from_events(log.identity_id(), events, &signables, &encodings).expect("replay")
}

fn parts(url: &str) -> LinkParts {
    let parsed = url::Url::parse(url).expect("url");
    LinkParts {
        scheme: parsed.scheme().to_owned(),
        host: parsed.host_str().map(ToOwned::to_owned),
        path: parsed.path().to_owned(),
        fragment: parsed.fragment().map(ToOwned::to_owned),
    }
}

#[test]
fn device_labels_are_trimmed_and_bounded() {
    assert_eq!(device_label("  Laptop \n").expect("label"), "Laptop");
    assert!(matches!(device_label(" \t "), Err(DeviceLinkError::InvalidLabel)));
    assert!(matches!(device_label(""), Err(DeviceLinkError::InvalidLabel)));
    let longest = "é".repeat(64);
    assert_eq!(device_label(&longest).expect("64 characters"), longest);
    assert!(matches!(device_label(&"a".repeat(65)), Err(DeviceLinkError::InvalidLabel)));
    // The bound counts the characters before trimming.
    let padded = format!(" {}", "a".repeat(64));
    assert!(matches!(device_label(&padded), Err(DeviceLinkError::InvalidLabel)));
    assert!(display_name_ok(" Alice "));
    assert!(!display_name_ok("   "));
    assert!(!display_name_ok(&"a".repeat(65)));
}

#[test]
fn an_identity_authorizes_at_most_five_active_devices() {
    let primary = DeviceKeyPair::generate();
    let mut log = create_log(&primary, "desktop", 1);
    let mut devices = Vec::new();
    for i in 0..4 {
        let device = DeviceKeyPair::generate();
        authorize(&mut log, &primary, &device, "phone", 2 + i).expect("authorize");
        devices.push(device);
    }
    assert_eq!(active_device_count(&log), MAX_ACTIVE_DEVICES);
    let sixth = DeviceKeyPair::generate();
    let events = log.events().len();
    assert!(matches!(
        authorize(&mut log, &primary, &sixth, "tablet", 9),
        Err(DeviceLinkError::TooManyDevices)
    ));
    assert_eq!(log.events().len(), events);

    // Revoking one makes room again.
    let previous = last_encoding(&log);
    let target = devices[0].device_id();
    let kind = IdentityEventKind::RevokeDevice { device_id: target, reason: "lost".into() };
    let draft = log.signed_event_draft(&primary, kind, 10, &previous);
    let signable = encode_identity(&draft, false);
    revoke_other_device(&mut log, &primary, &target.to_hex(), "lost".into(), 10, &signable, &previous)
        .expect("revoke");
    assert_eq!(active_device_count(&log), 4);
    authorize(&mut log, &primary, &sixth, "tablet", 11).expect("authorize after revocation");
    assert!(log.active_device(sixth.device_id()).is_some());
}

#[test]
fn an_empty_log_cannot_authorize() {
    let primary = DeviceKeyPair::generate();
    let device = DeviceKeyPair::generate();
    let mut log = IdentityLog::empty(IdentityId::from_bytes([1; 32]));
    assert!(matches!(
        authorize_new_device(&mut log, &primary, &device, "phone".into(), 1, &[], &[]),
        Err(DeviceLinkError::NoIdentityLog)
    ));
}

#[test]
fn a_device_cannot_revoke_itself_or_a_malformed_identifier() {
    let primary = DeviceKeyPair::generate();
    let mut log = create_log(&primary, "desktop", 1);
    let own = primary.device_id().to_hex();
    assert!(matches!(
        revoke_other_device(&mut log, &primary, &own, "retired".into(), 2, &[], &[]),
        Err(DeviceLinkError::SelfRevocation)
    ));
    assert!(matches!(
        revoke_other_device(&mut log, &primary, "not-hex", "retired".into(), 2, &[], &[]),
        Err(DeviceLinkError::InvalidDeviceId(_))
    ));
    let unknown = DeviceId::from_bytes([9; 32]).to_hex();
    let previous = last_encoding(&log);
    let kind = IdentityEventKind::RevokeDevice { device_id: DeviceId::from_bytes([9; 32]), reason: "x".into() };
    let draft = log.signed_event_draft(&primary, kind, 2, &previous);
    let signable = encode_identity(&draft, false);
    assert!(matches!(
        revoke_other_device(&mut log, &primary, &unknown, "x".into(), 2, &signable, &previous),
        Err(DeviceLinkError::Identity(IdentityError::UnknownDevice(_)))
    ));
    assert_eq!(log.events().len(), 1);
}

#[test]
fn device_link_carries_a_bundle_the_new_device_can_open() {
    let primary = DeviceKeyPair::generate();
    let mut log = create_log(&primary, "desktop", 1);
    let new_device = DeviceKeyPair::generate();
    let label = device_label(" Laptop ").expect("label");
    authorize(&mut log, &primary, &new_device, &label, 2).expect("authorize");

    // The bundle: the new device's secret and the expiry; sealed under a fresh capability.
    let mut bundle = new_device.secret_bytes().to_vec();
    bundle.extend_from_slice(&600_i64.to_le_bytes());
    let capability = [7_u8; 32];
    let sealed = GroupSecret::from_bytes(capability).encrypt(&bundle, b"pptalk-device-link-v1").expect("seal");
    let mut sealed_bytes = sealed.nonce.to_vec();
    sealed_bytes.extend_from_slice(&sealed.ciphertext);
    let link = device_link(&capability, &sealed_bytes);
    assert!(link.starts_with("pptalk://device/v1#"));

    let (opened_capability, opened_sealed) = device_link_payload(&parts(&link)).expect("payload");
    assert_eq!(opened_capability, capability);
    assert_eq!(opened_sealed, sealed_bytes);

    let received = replay(&log);
    let linked = DeviceKeyPair::from_secret_bytes(&new_device.secret_bytes());
    assert_ne!(linked.secret_bytes(), primary.secret_bytes());
    admit_device_bundle(PROTOCOL_VERSION, 600, 599, &received, &linked).expect("admitted");
    assert!(matches!(
        admit_device_bundle(PROTOCOL_VERSION, 600, 600, &received, &linked),
        Err(DeviceLinkError::Expired)
    ));
    assert!(matches!(
        admit_device_bundle(PROTOCOL_VERSION + 1, 600, 1, &received, &linked),
        Err(DeviceLinkError::Expired)
    ));
    let stranger = DeviceKeyPair::generate();
    assert!(matches!(
        admit_device_bundle(PROTOCOL_VERSION, 600, 1, &received, &stranger),
        Err(DeviceLinkError::NotAuthorized)
    ));
}

#[test]
fn device_links_are_checked_before_they_are_opened() {
    assert!(matches!(
        device_link_payload(&parts("pptalk://contact/v1#AAAA")),
        Err(DeviceLinkError::InvalidLink)
    ));
    assert!(matches!(device_link_payload(&parts("pptalk://device/v2#AAAA")), Err(DeviceLinkError::InvalidLink)));
    assert!(matches!(device_link_payload(&parts("pptalk://device/v1")), Err(DeviceLinkError::MissingCapability)));
    assert!(matches!(device_link_payload(&parts("pptalk://device/v1#!!")), Err(DeviceLinkError::Encoding(_))));
    let exactly_capability = device_link(&[1; 32], &[]);
    assert!(matches!(
        device_link_payload(&parts(&exactly_capability)),
        Err(DeviceLinkError::InvalidPayload)
    ));
}

#[test]
fn received_logs_must_carry_on_from_the_known_one() {
    let primary = DeviceKeyPair::generate();
    let mut log = create_log(&primary, "desktop", 1);
    let short: Vec<IdentityEvent> = log.events().to_vec();
    authorize(&mut log, &primary, &DeviceKeyPair::generate(), "phone", 2).expect("authorize");
    let long: Vec<IdentityEvent> = log.events().to_vec();

    assert!(log_extends(&short, &long));
    assert!(log_extends(&long, &long));
    assert!(!log_extends(&long, &short));

    let mut forked = long.clone();
    forked[0].signature[0] ^= 1;
    assert!(!same_identity_event(&forked[0], &long[0]));
    assert!(!log_extends(&short, &forked));

    assert!(sender_log_current(&[], &short));
    assert!(sender_log_current(&[Vec::new()], &short));
    assert!(sender_log_current(&[short.clone(), long.clone()], &long));
    // The longest known log decides: a shorter received log is stale.
    assert!(!sender_log_current(&[short.clone(), long.clone()], &short));
    // Among equally long logs the last decides.
    assert!(!sender_log_current(&[long.clone(), forked.clone()], &long));
    assert!(sender_log_current(&[forked.clone(), long.clone()], &long));
}

#[test]
fn envelopes_route_to_contacts_before_pending_invites() {
    let device = DeviceId::from_bytes([3; 32]);
    let contacts = [[1_u8; 32], [2_u8; 32]];
    let pending = [([4_u8; 32], 100_i64), ([5_u8; 32], 10_i64)];
    assert_eq!(
        route_candidate(&contacts, &pending, 50, device, &routing_capability(&[2; 32], device)),
        Some((1, false))
    );
    assert_eq!(
        route_candidate(&contacts, &pending, 50, device, &routing_capability(&[4; 32], device)),
        Some((0, true))
    );
    // An expired invite routes nothing.
    assert_eq!(route_candidate(&contacts, &pending, 50, device, &routing_capability(&[5; 32], device)), None);
    // Another device's route is not ours.
    assert_eq!(
        route_candidate(&contacts, &pending, 50, device, &routing_capability(&[1; 32], DeviceId::from_bytes([4; 32]))),
        None
    );
}

#[test]
fn packets_update_key_packages_and_identity_logs() {
    let sender = IdentityId::from_bytes([1; 32]);
    let device = DeviceId::from_bytes([2; 32]);
    let other_device = DeviceId::from_bytes([3; 32]);
    let primary = DeviceKeyPair::generate();
    let log = create_log(&primary, "desktop", 1);
    let events: Vec<IdentityEvent> = log.events().to_vec();
    let mut contacts = vec![
        ContactKeys { identity_id: sender, device_id: device, mls_key_package: vec![1], identity_events: vec![] },
        ContactKeys {
            identity_id: sender,
            device_id: other_device,
            mls_key_package: vec![9],
            identity_events: events.clone(),
        },
        ContactKeys {
            identity_id: IdentityId::from_bytes([7; 32]),
            device_id: device,
            mls_key_package: vec![5],
            identity_events: vec![],
        },
    ];
    assert!(update_contact_key_package(&mut contacts, sender, device, &[8, 8], &events));
    assert_eq!(contacts[0].mls_key_package, vec![8, 8]);
    assert_eq!(contacts[0].identity_events.len(), 1);
    assert_eq!(contacts[1].mls_key_package, vec![9]);
    assert_eq!(contacts[2].mls_key_package, vec![5]);
    assert!(contacts[2].identity_events.is_empty());
    // The same packet again changes nothing; nor does an empty key package.
    assert!(!update_contact_key_package(&mut contacts, sender, device, &[8, 8], &events));
    assert!(!update_contact_key_package(&mut contacts, sender, device, &[], &[]));
    assert_eq!(contacts[0].mls_key_package, vec![8, 8]);
}

#[test]
fn attachment_names_keep_only_the_final_component() {
    assert_eq!(safe_name("photo.png"), "photo.png");
    assert_eq!(safe_name("../../etc/passwd"), "passwd");
    assert_eq!(safe_name("dir/report.pdf/"), "report.pdf");
    assert_eq!(safe_name("notes.txt/."), "notes.txt");
    assert_eq!(safe_name("a//b"), "b");
    assert_eq!(safe_name("./x"), "x");
    assert_eq!(safe_name(".."), "attachment.bin");
    assert_eq!(safe_name("a/.."), "attachment.bin");
    assert_eq!(safe_name("."), "attachment.bin");
    assert_eq!(safe_name("/"), "attachment.bin");
    assert_eq!(safe_name(""), "attachment.bin");
    assert_eq!(safe_name("..."), "...");
    for name in ["photo.png", "../../etc/passwd", "dir/report.pdf/", "notes.txt/.", "a//b", "./x", "...", "x/./y"] {
        let expected = std::path::Path::new(name).file_name().and_then(|n| n.to_str()).unwrap_or("attachment.bin");
        assert_eq!(safe_name(name), expected, "{name}");
    }
    let transfer = [0xab_u8; 32];
    assert_eq!(attachment_file_name(&transfer, "../secret.txt"), "abababababab-secret.txt");
}

#[test]
fn blocked_senders_reach_only_the_group_rules() {
    assert!(is_group_payload(PayloadKind::GroupCommit));
    assert!(!is_group_payload(PayloadKind::Message));
    assert!(payload_dropped(true, PayloadKind::Message));
    assert!(payload_dropped(true, PayloadKind::DeviceHello));
    assert!(!payload_dropped(true, PayloadKind::GroupMessage));
    assert!(!payload_dropped(false, PayloadKind::Message));
}

#[test]
fn a_used_invite_is_spent_and_message_ids_are_parsed() {
    let pending = vec![([1_u8; 32], 10_i64), ([2_u8; 32], 20_i64), ([1_u8; 32], 30_i64)];
    assert_eq!(spend_pending_invite(&pending, &[1; 32]), vec![([2_u8; 32], 20_i64)]);
    assert_eq!(spend_pending_invite(&pending, &[3; 32]), pending);
    assert_eq!(parse_message_id(&"ab".repeat(32)).expect("id"), [0xab; 32]);
    assert!(parse_message_id("abcd").is_err());
    assert!(parse_message_id("zz").is_err());
}

#[test]
fn mailboxes_are_polled_once_per_route_in_byte_order() {
    let device = DeviceId::from_bytes([3; 32]);
    let contacts = [[1_u8; 32], [2_u8; 32], [1_u8; 32]];
    let pending = [([4_u8; 32], 100_i64), ([5_u8; 32], 10_i64)];
    let routes = poll_routes(&contacts, &pending, 50, device);
    let mut expected = vec![
        routing_capability(&[1; 32], device),
        routing_capability(&[2; 32], device),
        routing_capability(&[4; 32], device),
    ];
    expected.sort();
    assert_eq!(routes, expected);
    assert!(poll_routes(&[], &[], 0, device).is_empty());
}

#[test]
fn invite_links_read_back_as_their_payload() {
    let wire: Vec<u8> = (0u8..=255).collect();
    let link = invite_link(&wire);
    assert!(link.starts_with("pptalk://contact/v1#"));
    assert!(matches!(invite_payload(&parts(&link)), Ok(bytes) if bytes == wire));
    assert!(matches!(invite_payload(&parts(&invite_link(&[]))), Ok(bytes) if bytes.is_empty()));
    let other = link.replacen("pptalk://contact", "pptalk://friend", 1);
    assert!(matches!(invite_payload(&parts(&other)), Err(InviteError::Unsupported)));
}
