use pptalk::client::{
    direct_conversation_id, event_references_attachment, identity_fingerprint, mailbox_endpoint_path,
    millis_from_nanos, next_group_logical_time, next_outbox_time, release_version, retry_delay_ms,
    retry_time_ms, routing_capability, release_asset_url, update_available, message_size_ok, invite_lifetime_ok, transfer_progress,
    EndpointError, MailboxBase,
};
use pptalk::distributed::{
    admit_payload, chunk_count, finish_retrieval, retrieval_plan, locator_for, record_chunk_count, record_count, record_ranges,
    split_ranges, value_ranges, RECORD_BYTES, VALUE_BYTES,
    DistributedError, DistributedLocator, MAX_DISTRIBUTED_BYTES, RETENTION_SECONDS, SUBKEYS_PER_RECORD,
};
use pptalk::ids::{ConversationId, DeviceId, EventId, IdentityId};
use pptalk::network::{canonical_is_client, keeps_existing_session, MediaSessionTable, Registration, SessionState};
use pptalk::node::{
    drain_limit, now_unix, parse_capability, unix_seconds, MailboxStore, NodeConfig, NodeError,
    DEFAULT_MAX_ENVELOPE_BYTES, DEFAULT_MAX_TTL_SECONDS,
};
use pptalk::ordered::SortedMap;
use pptalk::protocol::{ConversationEvent, EventBody, MessageContent, PROTOCOL_VERSION};
use pptalk::storage::{
    bytes_32, conversation_frontier, duration_from_sql, events_after, sql_integer, DatabaseKey, StorageError, persisted_database_key};

#[test]
fn release_versions_compare_numerically() {
    assert!(release_version("v0.10.0") > release_version("0.9.9"));
    assert_eq!(release_version("v1.2.3"), Some((1, 2, 3)));
    assert_eq!(release_version("not-a-version"), None);
}

#[test]
fn release_versions_ignore_suffixes_and_reject_extra_parts() {
    assert_eq!(release_version("  vv2.0.1-rc.1+build\n"), Some((2, 0, 1)));
    assert_eq!(release_version("1.2"), None);
    assert_eq!(release_version("1.2.3.4"), None);
    assert_eq!(release_version("1..3"), None);
    assert_eq!(release_version("18446744073709551615.0.0"), Some((u64::MAX, 0, 0)));
    assert_eq!(release_version("18446744073709551616.0.0"), None);
    assert_eq!(release_version("\u{3000}3.4.5"), Some((3, 4, 5)));
}

#[test]
fn locator_bounds_match_chunk_plan() {
    let size = 2 * 1024 * 1024;
    let records = chunk_count(size).div_ceil(SUBKEYS_PER_RECORD);
    let locator = DistributedLocator {
        version: 1,
        record_keys: (0..records).map(|index| format!("record-{index}")).collect(),
        byte_len: u64::try_from(size).unwrap(),
        ciphertext_hash: [0; 32],
        expires_unix: 100,
    };
    locator.validate(99).expect("valid bounds");
    assert!(matches!(locator.validate(100), Err(DistributedError::Expired)));
}

#[test]
fn rejects_payloads_over_eight_mebibytes() {
    let locator = DistributedLocator {
        version: 1,
        record_keys: vec!["record".into()],
        byte_len: u64::try_from(MAX_DISTRIBUTED_BYTES + 1).unwrap(),
        ciphertext_hash: [0; 32],
        expires_unix: i64::MAX,
    };
    assert!(matches!(locator.validate(0), Err(DistributedError::InvalidLocator(_))));
}

#[test]
fn distributed_chunk_plan_and_retrieval() {
    assert_eq!(chunk_count(0), 0);
    assert_eq!(chunk_count(30720), 1);
    assert_eq!(chunk_count(30721), 2);
    assert_eq!(record_count(30720 * 32), 1);
    assert_eq!(record_count(30720 * 32 + 1), 2);
    assert_eq!(record_chunk_count(40, 1), 8);
    assert_eq!(record_chunk_count(64, 1), 32);
    assert!(matches!(admit_payload(0), Err(DistributedError::PayloadSize(0))));
    assert!(admit_payload(MAX_DISTRIBUTED_BYTES).is_ok());
    let locator = locator_for(vec!["record".into()], b"ciphertext", 10);
    assert_eq!(locator.expires_unix, 10 + RETENTION_SECONDS);
    assert_eq!(locator.byte_len, 10);
    let mut padded = b"ciphertext".to_vec();
    padded.extend_from_slice(&[0; 6]);
    assert_eq!(finish_retrieval(padded, &locator).expect("retrieve"), b"ciphertext");
    assert!(matches!(
        finish_retrieval(b"ciphertexT".to_vec(), &locator),
        Err(DistributedError::HashMismatch)
    ));
    assert_eq!(locator_for(vec![], b"", i64::MAX - 1).expires_unix, i64::MAX);
    let wrong_count = DistributedLocator {
        record_keys: vec!["a".into(), "b".into()],
        ..locator
    };
    assert!(matches!(wrong_count.validate(0), Err(DistributedError::InvalidLocator(_))));
}

fn store() -> MailboxStore {
    MailboxStore::with_config(NodeConfig::at("."))
}

#[test]
fn node_config_puts_the_database_in_the_data_directory() {
    assert_eq!(NodeConfig::at("data").database_path, "data/mailbox.sqlite3");
    assert_eq!(NodeConfig::at("data/").database_path, "data/mailbox.sqlite3");
    assert_eq!(NodeConfig::at("").database_path, "mailbox.sqlite3");
    assert_eq!(NodeConfig::at(".").max_ttl_seconds, DEFAULT_MAX_TTL_SECONDS);
}

#[test]
fn expired_messages_are_never_delivered() {
    let expires = store().admit_deposit(10, 1, 10).expect("deposit");
    assert_eq!(expires, 11);
    assert!(expires <= 11, "an envelope expiring at 11 is deleted at 11");
}

#[test]
fn retention_is_capped_regardless_of_the_requested_ttl() {
    let max_ttl = i64::try_from(DEFAULT_MAX_TTL_SECONDS).expect("ttl fits");
    let expires = store().admit_deposit(10, u64::MAX, 0).expect("deposit");
    assert_eq!(expires, max_ttl);
    assert!(expires <= max_ttl + 1, "not delivered past the cap");
    assert!(expires > max_ttl - 1, "delivered within the cap");
    assert_eq!(store().admit_deposit(10, 0, 5).expect("minimum"), 6);
    assert_eq!(store().admit_deposit(10, 60, i64::MAX).expect("saturates"), i64::MAX);
}

#[test]
fn oversized_and_empty_envelopes_are_rejected() {
    assert!(matches!(store().admit_deposit(0, 60, 10), Err(NodeError::EnvelopeSize)));
    assert!(matches!(
        store().admit_deposit(DEFAULT_MAX_ENVELOPE_BYTES + 1, 60, 10),
        Err(NodeError::EnvelopeSize)
    ));
    assert!(store().admit_deposit(DEFAULT_MAX_ENVELOPE_BYTES, 60, 10).is_ok());
}

#[test]
fn a_full_mailbox_rejects_deposits_without_touching_its_neighbours() {
    let store = MailboxStore::with_config(NodeConfig {
        mailbox_quota_bytes: 32,
        ..NodeConfig::at(".")
    });
    assert!(store.check_quota(0, 24).is_ok());
    assert!(matches!(store.check_quota(24, 24), Err(NodeError::Quota)));
    assert!(store.check_quota(0, 24).is_ok(), "the neighbour's usage starts at zero");
    assert!(store.check_quota(-5, 32).is_ok());
}

#[test]
fn node_helpers() {
    assert_eq!(drain_limit(10), 10);
    assert_eq!(drain_limit(10_000), 512);
    assert_eq!(parse_capability(&"ab".repeat(32)), Some([0xab; 32]));
    assert_eq!(parse_capability("abcd"), None);
    assert_eq!(parse_capability(&"zz".repeat(32)), None);
    assert_eq!(unix_seconds(None), 0);
    assert_eq!(unix_seconds(Some(u64::MAX)), i64::MAX);
    assert_eq!(unix_seconds(Some(42)), 42);
    assert!(now_unix() > 1_600_000_000);
}

#[test]
fn fingerprints_are_stable_and_easy_to_compare_in_blocks() {
    let identity = IdentityId::from_bytes([0xab; 32]);
    let fingerprint = identity_fingerprint(identity);
    assert_eq!(fingerprint.replace(' ', "").len(), 64);
    assert!(fingerprint.split(' ').all(|block| block.len() == 4));
    assert_eq!(fingerprint, identity_fingerprint(identity));
    assert!(fingerprint.starts_with("ABAB ABAB"));
    let mut bytes = [0u8; 32];
    bytes[0] = 0x01;
    bytes[1] = 0x23;
    bytes[31] = 0xef;
    let other = identity_fingerprint(IdentityId::from_bytes(bytes));
    assert!(other.starts_with("0123 0000"));
    assert!(other.ends_with("00EF"));
}

#[test]
fn direct_conversations_and_routes() {
    let a = IdentityId::from_bytes([1; 32]);
    let b = IdentityId::from_bytes([2; 32]);
    assert_eq!(direct_conversation_id(a, b), direct_conversation_id(b, a));
    assert_ne!(direct_conversation_id(a, b), direct_conversation_id(a, a));
    let mut material = b"pptalk-direct-v1".to_vec();
    material.extend_from_slice(&[1; 32]);
    material.extend_from_slice(&[2; 32]);
    assert_eq!(
        direct_conversation_id(b, a),
        ConversationId::from_bytes(*blake3::hash(&material).as_bytes())
    );
    let device = DeviceId::from_bytes([3; 32]);
    assert_ne!(routing_capability(&[1; 32], device), routing_capability(&[2; 32], device));
    assert_ne!(
        routing_capability(&[1; 32], device),
        routing_capability(&[1; 32], DeviceId::from_bytes([4; 32]))
    );
    let mut input = b"pptalk-route-v1".to_vec();
    input.extend_from_slice(&[1; 32]);
    input.extend_from_slice(&[3; 32]);
    assert_eq!(routing_capability(&[1; 32], device), *blake3::hash(&input).as_bytes());
}

#[test]
fn outbox_times_and_retries() {
    assert_eq!(next_outbox_time(1_000, 0), 3_000);
    assert_eq!(next_outbox_time(1_000, 5_000), 5_001);
    assert_eq!(next_outbox_time(i64::MAX, 0), i64::MAX);
    assert_eq!(retry_delay_ms(0), 2_000);
    assert_eq!(retry_delay_ms(3), 16_000);
    assert_eq!(retry_delay_ms(7), 256_000);
    assert_eq!(retry_delay_ms(8), 300_000);
    assert_eq!(retry_delay_ms(u32::MAX), 300_000);
    assert_eq!(retry_time_ms(i64::MAX - 1, 0), i64::MAX);
    assert_eq!(millis_from_nanos(1_999_999), 1);
    assert_eq!(millis_from_nanos(-1_999_999), -1);
    assert_eq!(millis_from_nanos(i128::MAX), i64::MAX);
    assert_eq!(millis_from_nanos(i128::MIN), i64::MAX);
}

fn event(author: u8, sequence: u64, time: i64, body: EventBody) -> ConversationEvent {
    ConversationEvent {
        version: PROTOCOL_VERSION,
        conversation_id: ConversationId::from_bytes([1; 32]),
        event_id: EventId::from_bytes([sequence as u8; 32]),
        author_identity: IdentityId::from_bytes([author; 32]),
        author_device: DeviceId::from_bytes([author; 32]),
        device_sequence: sequence,
        causal_frontier: SortedMap::new(),
        logical_time_ms: time,
        body,
    }
}

fn text(t: &str) -> EventBody {
    EventBody::MessageCreate {
        content: MessageContent {
            text: t.into(),
            reply_to: None,
            attachment_ids: vec![[7; 32]],
        },
    }
}

#[test]
fn frontiers_and_events_after() {
    let events = vec![
        event(1, 0, 10, text("a")),
        event(2, 0, 11, text("b")),
        event(1, 1, 12, text("c")),
    ];
    let frontier = conversation_frontier(&events);
    assert_eq!(frontier.get(&DeviceId::from_bytes([1; 32])), Some(&1));
    assert_eq!(frontier.get(&DeviceId::from_bytes([2; 32])), Some(&0));
    assert!(events_after(events.clone(), &frontier).is_empty());
    let mut partial = SortedMap::new();
    partial.insert(DeviceId::from_bytes([1; 32]), 0);
    let after = events_after(events.clone(), &partial);
    assert_eq!(after.iter().map(|e| e.logical_time_ms).collect::<Vec<_>>(), vec![12]);
    assert_eq!(events_after(events.clone(), &SortedMap::new()).len(), 1);
    assert_eq!(next_group_logical_time(&events, 5), 13);
    assert_eq!(next_group_logical_time(&events, 50), 50);
    assert_eq!(next_group_logical_time(&[], 50), 50);
    assert!(event_references_attachment(&events[0], &[7; 32]));
    assert!(!event_references_attachment(&events[0], &[8; 32]));
    assert!(!event_references_attachment(
        &event(1, 2, 13, EventBody::GroupRename { name: "x".into() }),
        &[7; 32]
    ));
}

#[test]
fn stored_identifiers_and_integers() {
    assert_eq!(bytes_32(&[5; 32]), [5; 32]);
    assert_eq!(bytes_32(&[5; 31]), [0; 32]);
    assert_eq!(duration_from_sql(-3), 0);
    assert_eq!(duration_from_sql(3), 3);
    assert!(matches!(sql_integer(u64::MAX), Err(StorageError::IntegerOverflow)));
    assert_eq!(sql_integer(7).ok(), Some(7));
    assert_eq!(DatabaseKey::from_bytes([4; 32]).expose_for_profile(), [4; 32]);
    assert_ne!(DatabaseKey::generate().expose_for_profile(), DatabaseKey::generate().expose_for_profile());
}

#[test]
fn mailbox_endpoints_refuse_credentials_and_plain_http() {
    let base = |scheme: &str, user: &str, host: &str, path: &str| MailboxBase {
        scheme: scheme.into(),
        username: user.into(),
        has_password: false,
        host: Some(host.into()),
        path: path.into(),
    };
    let route = [0xab; 32];
    assert_eq!(
        mailbox_endpoint_path(&base("https", "", "mail.example", "/relay//"), &route).expect("https"),
        format!("/relay/v1/mailboxes/{}/messages", "ab".repeat(32))
    );
    assert!(mailbox_endpoint_path(&base("http", "", "localhost", "/"), &route).is_ok());
    assert_eq!(
        mailbox_endpoint_path(&base("http", "", "mail.example", "/"), &route),
        Err(EndpointError::Insecure)
    );
    assert_eq!(
        mailbox_endpoint_path(&base("https", "me", "mail.example", "/"), &route),
        Err(EndpointError::Credentials)
    );
}

#[test]
fn both_peers_agree_on_the_canonical_media_connection() {
    assert!(canonical_is_client("aaa", "bbb"));
    assert!(!canonical_is_client("bbb", "aaa"));
    assert!(canonical_is_client("ab", "abc"));
    assert!(keeps_existing_session("aaa", "bbb", true));
    assert!(!keeps_existing_session("aaa", "bbb", false));
}

#[test]
fn updates_are_offered_for_later_releases_with_an_asset() {
    let assets = vec![
        ("pptalk-windows-x86_64.exe".to_string(), Some("https://example.test/w".to_string())),
        ("pptalk-linux-x86_64.AppImage".to_string(), Some("https://example.test/l".to_string())),
        ("pptalk-linux-x86_64.AppImage".to_string(), Some("https://example.test/second".to_string())),
    ];
    let url = release_asset_url(&assets, "linux-x86_64.AppImage");
    assert_eq!(url, "https://example.test/l");
    assert_eq!(release_asset_url(&assets, "linux-arm64.AppImage"), "");
    let missing = vec![("pptalk-linux-arm64.AppImage".to_string(), None)];
    assert_eq!(release_asset_url(&missing, "linux-arm64.AppImage"), "");

    assert!(update_available("v0.10.0", "0.9.9", &url));
    assert!(update_available("v1.0.1", "1.0.0", &url));
    assert!(!update_available("v1.0.0", "1.0.0", &url));
    assert!(!update_available("v0.9.0", "0.10.0", &url));
    assert!(!update_available("v2.0.0", "1.0.0", ""));
    assert!(!update_available("nightly", "1.0.0", &url));
}

#[test]
fn messages_and_invites_have_bounded_sizes_and_lifetimes() {
    assert!(!message_size_ok(0));
    assert!(message_size_ok(1));
    assert!(message_size_ok(64 * 1024));
    assert!(!message_size_ok(64 * 1024 + 1));
    assert!(!invite_lifetime_ok(59));
    assert!(invite_lifetime_ok(60));
    assert!(invite_lifetime_ok(604_800));
    assert!(!invite_lifetime_ok(604_801));
    assert!(!invite_lifetime_ok(-60));
}

#[test]
fn payloads_are_cut_into_records_and_values_in_order() {
    assert_eq!(split_ranges(10, 4), vec![(0, 4), (4, 8), (8, 10)]);
    assert_eq!(split_ranges(8, 4), vec![(0, 4), (4, 8)]);
    assert!(split_ranges(0, 4).is_empty());
    let len = 2 * RECORD_BYTES + 5;
    let records = record_ranges(len);
    assert_eq!(records.len(), record_count(len));
    assert_eq!(records, vec![(0, RECORD_BYTES), (RECORD_BYTES, 2 * RECORD_BYTES), (2 * RECORD_BYTES, len)]);
    let values = value_ranges(RECORD_BYTES);
    assert_eq!(values.len(), 32);
    assert_eq!(values[31], (31 * VALUE_BYTES, RECORD_BYTES));
    assert_eq!(value_ranges(5), vec![(0, 5)]);
    assert_eq!(value_ranges(VALUE_BYTES + 1).len(), chunk_count(VALUE_BYTES + 1));
}

#[test]
fn media_sessions_keep_the_canonical_connection_and_ignore_stale_readers() {
    // The local endpoint "b" sorts after "a": with "a" the canonical
    // connection is the one "a" dialed.
    let mut table = MediaSessionTable::new("b".to_string());
    assert_eq!(table.register("a", true), Registration::Registered { generation: 0, replaced: None });
    assert_eq!(
        table.register("a", false),
        Registration::Registered { generation: 1, replaced: Some(0) }
    );
    // Another connection that "a" dialed is a duplicate of the canonical one.
    assert_eq!(table.register("a", false), Registration::Duplicate { kept: 1 });
    // The reader of the replaced session leaves its successor alone.
    assert!(!table.remove_if_current("a", 0));
    assert_eq!(table.session("a"), Some(SessionState { generation: 1, local_dialed: false }));
    assert!(table.remove_if_current("a", 1));
    assert_eq!(table.session("a"), None);
    // With "c" the local side dials the canonical connection.
    assert_eq!(table.register("c", true), Registration::Registered { generation: 3, replaced: None });
    assert_eq!(table.register("c", false), Registration::Duplicate { kept: 3 });
}

#[test]
fn profiles_keep_no_database_key_once_it_is_in_the_secure_store() {
    assert_eq!(persisted_database_key([7; 32], true), [0; 32]);
    assert_eq!(persisted_database_key([7; 32], false), [7; 32]);
}

#[test]
fn transfer_progress_counts_every_device_in_turn() {
    assert_eq!(transfer_progress(0, 3, 4, 0), (0, 12));
    assert_eq!(transfer_progress(1, 3, 4, 2), (6, 12));
    assert_eq!(transfer_progress(2, 3, 4, 4), (12, 12));
    assert_eq!(transfer_progress(0, usize::MAX, 2, 1), (1, usize::MAX));
}

#[test]
fn retrieval_plans_check_the_locator_before_reading() {
    let payload = vec![7u8; RECORD_BYTES + VALUE_BYTES + 1];
    let keys = vec!["a".to_string(), "b".to_string()];
    let locator = locator_for(keys, &payload, 100);
    assert_eq!(retrieval_plan(&locator, 100).expect("plan"), vec![SUBKEYS_PER_RECORD, 2]);
    assert!(matches!(retrieval_plan(&locator, locator.expires_unix), Err(DistributedError::Expired)));
    let mut short = locator.clone();
    short.record_keys.pop();
    assert!(matches!(retrieval_plan(&short, 100), Err(DistributedError::InvalidLocator(_))));
    let mut gathered = payload.clone();
    gathered.extend_from_slice(&[0; 10]);
    assert_eq!(finish_retrieval(gathered, &locator).expect("retrieve"), payload);
}
