use pptalk::blob::{assemble_blob, chunk_aad, decrypt_blob, encrypt_blob_chunks, BlobError};
use pptalk::codec::{admit_wire, CodecError};
use pptalk::conversation::{ApplyError, Conversation, ConversationBuilder};
use pptalk::crypto::{EncryptedPayload, EncryptionError, GroupSecret};
use pptalk::identity::{DeviceKeyPair, IdentityError, IdentityEvent, IdentityEventKind, IdentityLog};
use pptalk::ids::{ConversationId, DeviceId, EventId, IdentityId};
use pptalk::invite::{
    prepare_invite, sign_invite, sign_reachability, unsigned_invite, unsigned_reachability, verify_invite,
    ContactProofError,
};
use pptalk::ordered::SortedMap;
use pptalk::protocol::{
    ContactInvite, ConversationEvent, EventBody, MessageContent, ReachabilityRecord, MAX_ENVELOPE_BYTES,
    PROTOCOL_VERSION,
};

/// A framing of sealed chunks for the tests: the nonce, then the ciphertext.
fn frame(payload: &EncryptedPayload) -> Vec<u8> {
    let mut out = payload.nonce.to_vec();
    out.extend_from_slice(&payload.ciphertext);
    out
}

fn unframe(bytes: &Vec<u8>) -> Result<EncryptedPayload, CodecError> {
    if bytes.len() < 24 {
        return Err(CodecError::Decode("short".into()));
    }
    let mut nonce = [0u8; 24];
    nonce.copy_from_slice(&bytes[..24]);
    Ok(EncryptedPayload {
        nonce,
        ciphertext: bytes[24..].to_vec(),
    })
}

#[test]
fn encrypted_chunked_blob_roundtrips_and_detects_corruption() {
    let secret = GroupSecret::from_bytes([6; 32]);
    let input = vec![42; 200_000];
    let payloads = encrypt_blob_chunks(&secret, &input, 64 * 1024).expect("encrypt blob");
    let blob = assemble_blob(
        payloads.iter().map(frame).collect(),
        input.len(),
        64 * 1024,
        "capture.png".into(),
        "image/png".into(),
    );
    assert_eq!(blob.chunks.len(), 4);
    let decoded: Vec<_> = blob.chunks.iter().map(unframe).collect();
    assert_eq!(decrypt_blob(&secret, &blob, &decoded).expect("decrypt blob"), input);
    let mut corrupted = blob;
    corrupted.chunks[1][0] ^= 1;
    let decoded: Vec<_> = corrupted.chunks.iter().map(unframe).collect();
    assert!(matches!(
        decrypt_blob(&secret, &corrupted, &decoded),
        Err(BlobError::HashMismatch(1))
    ));
}

#[test]
fn blob_errors_come_in_order() {
    let secret = GroupSecret::from_bytes([7; 32]);
    assert!(matches!(
        encrypt_blob_chunks(&secret, b"x", 0),
        Err(BlobError::InvalidChunkSize)
    ));
    assert!(matches!(
        encrypt_blob_chunks(&secret, b"x", 4 * 1024 * 1024 + 1),
        Err(BlobError::InvalidChunkSize)
    ));
    assert_eq!(encrypt_blob_chunks(&secret, b"", 16).expect("empty").len(), 0);
    let input = b"0123456789abcdef0123".to_vec();
    let payloads = encrypt_blob_chunks(&secret, &input, 8).expect("seal");
    assert_eq!(payloads.len(), 3);
    assert_eq!(payloads[2].ciphertext.len(), 4 + 16);
    let blob = assemble_blob(payloads.iter().map(frame).collect(), input.len(), 8, "a".into(), "b".into());
    let mut decoded: Vec<_> = blob.chunks.iter().map(unframe).collect();
    decoded[1] = Err(CodecError::TooLarge);
    assert!(matches!(
        decrypt_blob(&secret, &blob, &decoded),
        Err(BlobError::Codec(CodecError::TooLarge))
    ));
    let decoded: Vec<_> = blob.chunks.iter().map(unframe).collect();
    let other = GroupSecret::from_bytes([8; 32]);
    assert!(matches!(
        decrypt_blob(&other, &blob, &decoded),
        Err(BlobError::Encryption(EncryptionError::Decrypt))
    ));
    let mut short = blob.clone();
    short.manifest.byte_len += 1;
    assert!(matches!(decrypt_blob(&secret, &short, &decoded), Err(BlobError::LengthMismatch)));
    let mut whole = blob.clone();
    whole.manifest.ciphertext_hash = [0; 32];
    assert!(matches!(decrypt_blob(&secret, &whole, &decoded), Err(BlobError::FullHashMismatch)));
    let mut missing = blob;
    missing.manifest.chunk_hashes.pop();
    assert!(matches!(decrypt_blob(&secret, &missing, &decoded), Err(BlobError::ChunkCount)));
}

#[test]
fn chunk_associated_data_binds_the_index() {
    let aad = chunk_aad(1);
    assert!(aad.starts_with(b"pptalk-blob-chunk-v1"));
    let mut expected = b"pptalk-blob-chunk-v1".to_vec();
    expected.extend_from_slice(&1usize.to_le_bytes());
    assert_eq!(aad, expected);
    assert_ne!(chunk_aad(1), chunk_aad(256));
}

#[test]
fn associated_data_is_authenticated() {
    let key = GroupSecret::generate();
    let payload = key.encrypt(b"private", b"conversation-a").expect("encrypt");
    assert_eq!(key.decrypt(&payload, b"conversation-a").expect("decrypt"), b"private");
    assert!(key.decrypt(&payload, b"conversation-b").is_err());
}

#[test]
fn oversized_wire_value_is_rejected_before_decode() {
    let oversized = vec![0; MAX_ENVELOPE_BYTES + 1];
    assert!(matches!(admit_wire(&oversized), Err(CodecError::TooLarge)));
    assert!(admit_wire(&oversized[..MAX_ENVELOPE_BYTES]).is_ok());
}

/// A test encoding of a conversation event draft: distinct drafts give
/// distinct bytes.
fn encode_draft(event: &ConversationEvent) -> Vec<u8> {
    let mut out = event.event_id.as_bytes().to_vec();
    out.extend_from_slice(&event.device_sequence.to_le_bytes());
    out.extend_from_slice(&event.logical_time_ms.to_le_bytes());
    out
}

fn build(builder: &mut ConversationBuilder, body: EventBody, time: i64, salt: u8) -> ConversationEvent {
    let draft = builder.draft(body, time, EventId::from_bytes([salt; 32]));
    let encoded = encode_draft(&draft);
    builder.seal(draft, &encoded)
}

#[test]
fn owner_controls_membership_and_authors_control_messages() {
    let owner = IdentityId::from_bytes([1; 32]);
    let device = DeviceId::from_bytes([2; 32]);
    let member = IdentityId::from_bytes([3; 32]);
    let conversation_id = ConversationId::from_bytes([4; 32]);
    let mut conversation = Conversation::new(conversation_id, owner, "friends".into());
    let mut builder = ConversationBuilder::new(conversation_id, owner, device, SortedMap::new());

    let add = build(
        &mut builder,
        EventBody::MembershipAdd {
            identity: member,
            welcome: vec![],
        },
        1,
        11,
    );
    conversation.apply(add).expect("apply add");
    assert!(conversation.membership().members.contains(&member));

    let create = build(
        &mut builder,
        EventBody::MessageCreate {
            content: MessageContent {
                text: "hello".into(),
                reply_to: None,
                attachment_ids: vec![],
            },
        },
        2,
        12,
    );
    let target = create.event_id;
    conversation.apply(create).expect("apply message");
    let delete = build(&mut builder, EventBody::MessageDelete { target }, 3, 13);
    conversation.apply(delete).expect("apply delete");
    assert!(conversation.messages()[0].1.deleted);
}

#[test]
fn applying_twice_and_foreign_members_are_handled() {
    let owner = IdentityId::from_bytes([1; 32]);
    let stranger = IdentityId::from_bytes([9; 32]);
    let conversation_id = ConversationId::from_bytes([4; 32]);
    let mut conversation = Conversation::new(conversation_id, owner, "friends".into());
    let mut builder = ConversationBuilder::new(conversation_id, owner, DeviceId::from_bytes([2; 32]), SortedMap::new());
    let create = build(
        &mut builder,
        EventBody::MessageCreate {
            content: MessageContent {
                text: "hi".into(),
                reply_to: None,
                attachment_ids: vec![],
            },
        },
        1,
        21,
    );
    conversation.apply(create.clone()).expect("first");
    conversation.apply(create).expect("idempotent");
    assert_eq!(conversation.events().len(), 1);
    let mut foreign = ConversationBuilder::new(conversation_id, stranger, DeviceId::from_bytes([5; 32]), SortedMap::new());
    let rename = build(&mut foreign, EventBody::GroupRename { name: "mine".into() }, 2, 22);
    assert!(matches!(conversation.apply(rename), Err(ApplyError::NotMember(_))));
}

/// A test encoding of identity events: distinct events give distinct bytes.
fn encode_identity(event: &IdentityEvent, with_signature: bool) -> Vec<u8> {
    let mut out = event.sequence.to_le_bytes().to_vec();
    out.extend_from_slice(&event.previous_hash);
    out.extend_from_slice(event.author_device.as_bytes());
    out.extend_from_slice(&event.created_at_unix.to_le_bytes());
    match &event.kind {
        IdentityEventKind::Genesis { public_key, label } => {
            out.push(0);
            out.extend_from_slice(public_key);
            out.extend_from_slice(label.as_bytes());
        }
        IdentityEventKind::AddDevice { public_key, label } => {
            out.push(1);
            out.extend_from_slice(public_key);
            out.extend_from_slice(label.as_bytes());
        }
        IdentityEventKind::RevokeDevice { device_id, reason } => {
            out.push(2);
            out.extend_from_slice(device_id.as_bytes());
            out.extend_from_slice(reason.as_bytes());
        }
    }
    if with_signature {
        out.extend_from_slice(&event.signature);
    }
    out
}

fn create_log(key: &DeviceKeyPair, label: &str, time: i64) -> IdentityLog {
    let genesis = IdentityLog::genesis_draft(key, label.into(), time);
    IdentityLog::create(key, label.into(), time, &encode_identity(&genesis, false))
}

fn last_encoding(log: &IdentityLog) -> Vec<u8> {
    encode_identity(log.events().last().expect("event"), true)
}

#[test]
fn links_and_revokes_independent_devices() {
    let first = DeviceKeyPair::generate();
    let second = DeviceKeyPair::generate();
    let mut log = create_log(&first, "desktop", 1);

    let previous = last_encoding(&log);
    let kind = IdentityEventKind::AddDevice {
        public_key: second.public_key(),
        label: "laptop".into(),
    };
    let draft = log.signed_event_draft(&first, kind, 2, &previous);
    let signable = encode_identity(&draft, false);
    log.add_device(&first, &second, "laptop".into(), 2, &signable, &previous)
        .expect("link");
    assert!(log.active_device(second.device_id()).is_some());

    let previous = last_encoding(&log);
    let kind = IdentityEventKind::RevokeDevice {
        device_id: first.device_id(),
        reason: "retired".into(),
    };
    let draft = log.signed_event_draft(&second, kind, 3, &previous);
    let signable = encode_identity(&draft, false);
    log.revoke_device(&second, first.device_id(), "retired".into(), 3, &signable, &previous)
        .expect("revoke");
    assert!(log.active_device(first.device_id()).is_none());
    assert_eq!(log.devices().len(), 2);

    let events: Vec<IdentityEvent> = log.events().to_vec();
    let signables: Vec<Vec<u8>> = events.iter().map(|e| encode_identity(e, false)).collect();
    let encodings: Vec<Vec<u8>> = events.iter().map(|e| encode_identity(e, true)).collect();
    let replayed = IdentityLog::from_events(log.identity_id(), events, &signables, &encodings).expect("replay");
    assert!(replayed.active_device(second.device_id()).is_some());
    assert!(replayed.active_device(first.device_id()).is_none());
}

#[test]
fn revoked_devices_cannot_sign() {
    let first = DeviceKeyPair::generate();
    let second = DeviceKeyPair::generate();
    let mut log = create_log(&first, "desktop", 1);
    let previous = last_encoding(&log);
    let kind = IdentityEventKind::AddDevice {
        public_key: second.public_key(),
        label: "laptop".into(),
    };
    let draft = log.signed_event_draft(&second, kind, 2, &previous);
    let signable = encode_identity(&draft, false);
    assert!(matches!(
        log.add_device(&second, &second, "laptop".into(), 2, &signable, &previous),
        Err(IdentityError::UnauthorizedDevice(_))
    ));
    assert_eq!(log.events().len(), 1);
}

#[test]
fn detects_a_forked_previous_hash() {
    let key = DeviceKeyPair::generate();
    let log = create_log(&key, "desktop", 1);
    let mut event = log.events()[0].clone();
    event.sequence = 1;
    event.previous_hash = [9; 32];
    let signable = encode_identity(&event, false);
    let previous = last_encoding(&log);
    let mut reloaded = log.clone();
    assert!(matches!(
        reloaded.append_verified(event, &signable, &previous),
        Err(IdentityError::Fork)
    ));
}

/// Test encodings of invites: every field, in order.
fn encode_reachability(record: &ReachabilityRecord) -> Vec<u8> {
    let mut out = record.version.to_le_bytes().to_vec();
    out.extend_from_slice(record.device_id.as_bytes());
    out.extend_from_slice(&record.expires_unix.to_le_bytes());
    for text in std::iter::once(&record.endpoint_id)
        .chain(&record.direct_candidates)
        .chain(&record.relay_candidates)
        .chain(&record.mailbox_candidates)
    {
        out.extend_from_slice(&(text.len() as u64).to_le_bytes());
        out.extend_from_slice(text.as_bytes());
    }
    out.extend_from_slice(&record.signature);
    out
}

fn encode_invite(invite: &ContactInvite) -> Vec<u8> {
    let mut out = invite.version.to_le_bytes().to_vec();
    out.extend_from_slice(invite.inviter_identity.as_bytes());
    out.extend_from_slice(invite.inviter_device.as_bytes());
    out.extend_from_slice(&invite.inviter_device_public_key);
    out.extend_from_slice(invite.display_name.as_bytes());
    out.extend_from_slice(&invite.expires_unix.to_le_bytes());
    out.extend_from_slice(&invite.one_time_secret);
    out.extend_from_slice(&encode_reachability(&invite.reachability));
    out.extend_from_slice(&invite.signature);
    out
}

fn signed(key: &DeviceKeyPair, invite: ContactInvite) -> Result<ContactInvite, ContactProofError> {
    let prepared = prepare_invite(key, invite)?;
    let reach = encode_reachability(&prepared.reachability);
    let with_reach = sign_reachability(key, prepared, Ok(reach))?;
    let whole = encode_invite(&with_reach);
    sign_invite(key, with_reach, Ok(whole))
}

fn verified(invite: &ContactInvite) -> Result<(), ContactProofError> {
    verify_invite(
        invite,
        Ok(encode_reachability(&unsigned_reachability(invite))),
        Ok(encode_invite(&unsigned_invite(invite))),
    )
}

#[test]
fn signed_invite_detects_address_tampering() {
    let key = DeviceKeyPair::generate();
    let expiry = 4_000_000_000;
    let invite = signed(
        &key,
        ContactInvite {
            version: PROTOCOL_VERSION,
            inviter_identity: IdentityId::from_bytes([8; 32]),
            inviter_device: key.device_id(),
            inviter_device_public_key: key.public_key(),
            display_name: "Alice".into(),
            expires_unix: expiry,
            one_time_secret: [5; 32],
            reachability: ReachabilityRecord {
                version: PROTOCOL_VERSION,
                device_id: key.device_id(),
                expires_unix: expiry,
                endpoint_id: "endpoint".into(),
                direct_candidates: vec![],
                relay_candidates: vec!["https://relay.example/".into()],
                mailbox_candidates: vec![],
                signature: vec![],
            },
            signature: vec![],
        },
    )
    .expect("sign");
    verified(&invite).expect("valid");
    let mut tampered = invite;
    tampered.reachability.endpoint_id = "attacker".into();
    assert!(verified(&tampered).is_err());
}

#[test]
fn invites_of_another_device_are_refused() {
    let key = DeviceKeyPair::generate();
    let other = DeviceKeyPair::generate();
    let invite = ContactInvite {
        version: PROTOCOL_VERSION,
        inviter_identity: IdentityId::from_bytes([8; 32]),
        inviter_device: other.device_id(),
        inviter_device_public_key: key.public_key(),
        display_name: "Mallory".into(),
        expires_unix: 1,
        one_time_secret: [5; 32],
        reachability: ReachabilityRecord {
            version: PROTOCOL_VERSION,
            device_id: key.device_id(),
            expires_unix: 1,
            endpoint_id: "endpoint".into(),
            direct_candidates: vec![],
            relay_candidates: vec![],
            mailbox_candidates: vec![],
            signature: vec![],
        },
        signature: vec![],
    };
    assert!(matches!(prepare_invite(&key, invite.clone()), Err(ContactProofError::DeviceMismatch)));
    assert!(matches!(verified(&invite), Err(ContactProofError::DeviceMismatch)));
    assert!(matches!(
        verify_invite(&invite, Err(CodecError::TooLarge), Ok(vec![])),
        Err(ContactProofError::DeviceMismatch)
    ));
}

#[test]
fn identity_log_is_hash_chained_and_replays_to_itself() {
    let first = DeviceKeyPair::generate();
    let second = DeviceKeyPair::generate();
    let mut log = create_log(&first, "desktop", 1);
    let previous = last_encoding(&log);
    let kind = IdentityEventKind::AddDevice { public_key: second.public_key(), label: "laptop".into() };
    let draft = log.signed_event_draft(&first, kind, 2, &previous);
    log.add_device(&first, &second, "laptop".into(), 2, &encode_identity(&draft, false), &previous)
        .expect("link");
    let previous = last_encoding(&log);
    let kind = IdentityEventKind::RevokeDevice { device_id: first.device_id(), reason: "retired".into() };
    let draft = log.signed_event_draft(&second, kind, 3, &previous);
    log.revoke_device(&second, first.device_id(), "retired".into(), 3, &encode_identity(&draft, false), &previous)
        .expect("revoke");

    let events = log.events();
    assert_eq!(events.len(), 3);
    assert_eq!(events[0].previous_hash, [0u8; 32]);
    for (i, event) in events.iter().enumerate() {
        assert_eq!(event.sequence, i as u64);
        if i > 0 {
            let expected = blake3::hash(&encode_identity(&events[i - 1], true));
            assert_eq!(&event.previous_hash, expected.as_bytes());
        }
    }

    let signables: Vec<Vec<u8>> = events.iter().map(|e| encode_identity(e, false)).collect();
    let encodings: Vec<Vec<u8>> = events.iter().map(|e| encode_identity(e, true)).collect();
    let replayed = IdentityLog::from_events(log.identity_id(), events.to_vec(), &signables, &encodings).expect("replay");
    assert_eq!(replayed.identity_id(), log.identity_id());
    assert_eq!(replayed.events(), log.events());
    assert_eq!(replayed.devices(), log.devices());
    assert_eq!(replayed.devices().len(), 2);
}

#[test]
fn the_returned_event_is_the_one_the_log_holds() {
    let first = DeviceKeyPair::generate();
    let second = DeviceKeyPair::generate();
    let mut log = create_log(&first, "desktop", 1);
    let previous = last_encoding(&log);
    let kind = IdentityEventKind::AddDevice { public_key: second.public_key(), label: "laptop".into() };
    let draft = log.signed_event_draft(&first, kind, 2, &previous);
    let event = log
        .add_device(&first, &second, "laptop".into(), 2, &encode_identity(&draft, false), &previous)
        .expect("link");
    assert_eq!(event.sequence, 1);
    assert_eq!(log.events().last(), Some(&event));
    let record = log.active_device(second.device_id()).expect("second active");
    assert_eq!(record.label, "laptop");
    assert_eq!(record.added_at_unix, 2);
    assert!(log.active_device(first.device_id()).is_some());

    let previous = last_encoding(&log);
    let kind = IdentityEventKind::RevokeDevice { device_id: first.device_id(), reason: "retired".into() };
    let draft = log.signed_event_draft(&second, kind, 3, &previous);
    let revoke = log
        .revoke_device(&second, first.device_id(), "retired".into(), 3, &encode_identity(&draft, false), &previous)
        .expect("revoke");
    assert_eq!(log.events().last(), Some(&revoke));
    assert!(log.active_device(first.device_id()).is_none());
    assert!(log.active_device(second.device_id()).is_some());
    assert_eq!(log.devices().len(), 2);
}

#[test]
fn the_owner_stays_a_member_until_ownership_passes() {
    let owner = IdentityId::from_bytes([1; 32]);
    let member = IdentityId::from_bytes([3; 32]);
    let stranger = IdentityId::from_bytes([8; 32]);
    let conversation_id = ConversationId::from_bytes([4; 32]);
    let mut conversation = Conversation::new(conversation_id, owner, "friends".into());
    let mut builder = ConversationBuilder::new(conversation_id, owner, DeviceId::from_bytes([2; 32]), SortedMap::new());
    let remove = build(&mut builder, EventBody::MembershipRemove { identity: owner, commit: vec![] }, 1, 31);
    assert!(matches!(conversation.apply(remove), Err(ApplyError::OwnerMustTransfer)));
    assert!(conversation.membership().members.contains(&owner));

    let mut builder = ConversationBuilder::new(conversation_id, owner, DeviceId::from_bytes([2; 32]), SortedMap::new());
    let to_stranger = build(&mut builder, EventBody::OwnershipTransfer { from: owner, to: stranger }, 1, 32);
    assert!(matches!(conversation.apply(to_stranger), Err(ApplyError::InvalidOwnershipTransfer)));

    let mut builder = ConversationBuilder::new(conversation_id, owner, DeviceId::from_bytes([2; 32]), SortedMap::new());
    let add = build(&mut builder, EventBody::MembershipAdd { identity: member, welcome: vec![] }, 1, 33);
    conversation.apply(add).expect("add");
    let transfer = build(&mut builder, EventBody::OwnershipTransfer { from: owner, to: member }, 2, 34);
    conversation.apply(transfer).expect("transfer");
    assert_eq!(conversation.membership().owner, member);
    assert!(conversation.membership().members.contains(&member));
}
