use pptalk::ids::{ConversationId, DeviceId, EventId, IdentityId};
use pptalk::ordered::SortedMap;
use pptalk::protocol::{BlobManifest, ConversationEvent, EventBody, MessageContent, PROTOCOL_VERSION};
use pptalk::transfers::{IncomingFile, TransferError};

fn manifest(chunks: usize) -> BlobManifest {
    BlobManifest {
        ciphertext_hash: [1; 32],
        byte_len: 10,
        chunk_size: 4,
        chunk_hashes: vec![[2; 32]; chunks],
        media_type: "application/octet-stream".into(),
        file_name: "notes.txt".into(),
        key_envelope: vec![],
    }
}

fn announcement() -> ConversationEvent {
    ConversationEvent {
        version: PROTOCOL_VERSION,
        conversation_id: ConversationId::from_bytes([9; 32]),
        event_id: EventId::from_bytes([10; 32]),
        author_identity: IdentityId::from_bytes([1; 32]),
        author_device: DeviceId::from_bytes([1; 32]),
        device_sequence: 1,
        causal_frontier: SortedMap::new(),
        logical_time_ms: 1_000,
        body: EventBody::MessageCreate {
            content: MessageContent { text: String::new(), reply_to: None, attachment_ids: vec![[1; 32]] },
        },
    }
}

#[test]
fn chunks_may_arrive_before_the_offer_and_the_first_copy_wins() {
    let mut file = IncomingFile::new();
    file.add_chunk([5; 32], 1, vec![11]);
    assert!(file.ready_chunks().is_none());
    file.add_chunk([5; 32], 1, vec![99]);
    file.add_chunk([5; 32], 0, vec![10]);
    // Without the offer the file is not ready.
    assert!(file.ready_chunks().is_none());
    file.offer([5; 32], manifest(2));
    assert_eq!(file.ready_chunks(), Some(vec![vec![10], vec![11]]));
}

#[test]
fn a_file_waits_for_every_announced_chunk() {
    let mut file = IncomingFile::new();
    file.offer([5; 32], manifest(3));
    file.add_chunk([5; 32], 0, vec![1]);
    file.add_chunk([5; 32], 2, vec![3]);
    assert!(file.ready_chunks().is_none());
    // A chunk beyond the announced count does not complete it.
    file.add_chunk([5; 32], 7, vec![7]);
    assert!(file.ready_chunks().is_none());
}

#[test]
fn group_transfers_stay_with_their_group() {
    let group = ConversationId::from_bytes([9; 32]);
    let mut file = IncomingFile::new();
    file.add_group_chunk(group, 0, vec![1]).expect("first chunk");
    assert_eq!(
        file.add_group_chunk(ConversationId::from_bytes([8; 32]), 1, vec![2]),
        Err(TransferError::ChangedConversation)
    );
    assert_eq!(file.chunks.len(), 1);
    assert!(file.group_ready_chunks().is_none());
    file.group_offer([6; 32], manifest(1), group, announcement());
    assert_eq!(file.group_ready_chunks(), Some(vec![vec![1]]));
    // A direct-only view of the same file is ready too, the secret and manifest being known.
    assert_eq!(file.ready_chunks(), Some(vec![vec![1]]));
}
