//! An attachment being received. Its offer and its chunks arrive in any
//! order and may arrive more than once; the first copy of each chunk is
//! kept, and the file is ready once the offer is known and every chunk it
//! announces has arrived.
use vstd::prelude::*;
use crate::client::ordered_chunks;
use crate::ids::ConversationId;
use crate::protocol::{BlobManifest, ConversationEvent};
use std::collections::BTreeMap;

verus! {

/// Why a chunk of a group attachment was refused.
#[derive(Debug, Clone, Copy, PartialEq, Eq)]
pub enum TransferError {
    /// The chunk names another group than the transfer did before.
    ChangedConversation,
}

/// The chunks after one more arrives: the first copy of each is kept.
pub open spec fn chunk_added(chunks: Map<u32, Vec<u8>>, index: u32, bytes: Vec<u8>) -> Map<u32, Vec<u8>> {
    if chunks.contains_key(index) {
        chunks
    } else {
        chunks.insert(index, bytes)
    }
}

/// Whether the chunks are all those of a file of `count` chunks.
pub open spec fn all_chunks(chunks: Map<u32, Vec<u8>>, count: nat) -> bool {
    chunks.len() == count && count <= u32::MAX + 1 && forall|k: u32| k < count ==> #[trigger] chunks.contains_key(k)
}

/// An attachment being received.
#[derive(Debug)]
pub struct IncomingFile {
    pub secret: Option<[u8; 32]>,
    pub manifest: Option<BlobManifest>,
    pub group_id: Option<ConversationId>,
    pub group_event: Option<ConversationEvent>,
    pub chunks: BTreeMap<u32, Vec<u8>>,
}

impl IncomingFile {
    /// Nothing received yet.
    pub fn new() -> (r: Self)
        ensures
            r.secret is None,
            r.manifest is None,
            r.group_id is None,
            r.group_event is None,
            r.chunks@ == Map::<u32, Vec<u8>>::empty(),
    {
        IncomingFile { secret: None, manifest: None, group_id: None, group_event: None, chunks: BTreeMap::new() }
    }

    fn keep_first(&mut self, index: u32, bytes: Vec<u8>)
        ensures
            final(self).chunks@ == chunk_added(old(self).chunks@, index, bytes),
            final(self).secret == old(self).secret,
            final(self).manifest == old(self).manifest,
            final(self).group_id == old(self).group_id,
            final(self).group_event == old(self).group_event,
    {
        if !self.chunks.contains_key(&index) {
            self.chunks.insert(index, bytes);
        }
    }

    /// Records a direct offer: the secret the chunks are sealed under and
    /// the manifest.
    pub fn offer(&mut self, secret: [u8; 32], manifest: BlobManifest)
        ensures
            final(self).secret == Some(secret),
            final(self).manifest == Some(manifest),
            final(self).group_id == old(self).group_id,
            final(self).group_event == old(self).group_event,
            final(self).chunks@ == old(self).chunks@,
    {
        self.secret = Some(secret);
        self.manifest = Some(manifest);
    }

    /// Records a direct chunk, sealed under `secret`.
    pub fn add_chunk(&mut self, secret: [u8; 32], index: u32, bytes: Vec<u8>)
        ensures
            final(self).secret == Some(secret),
            final(self).manifest == old(self).manifest,
            final(self).group_id == old(self).group_id,
            final(self).group_event == old(self).group_event,
            final(self).chunks@ == chunk_added(old(self).chunks@, index, bytes),
    {
        self.secret = Some(secret);
        self.keep_first(index, bytes);
    }

    /// Records a group offer: the secret, the manifest, the group and the
    /// event that announces the file.
    pub fn group_offer(
        &mut self,
        secret: [u8; 32],
        manifest: BlobManifest,
        group_id: ConversationId,
        event: ConversationEvent,
    )
        ensures
            final(self).secret == Some(secret),
            final(self).manifest == Some(manifest),
            final(self).group_id == Some(group_id),
            final(self).group_event == Some(event),
            final(self).chunks@ == old(self).chunks@,
    {
        self.secret = Some(secret);
        self.manifest = Some(manifest);
        self.group_id = Some(group_id);
        self.group_event = Some(event);
    }

    /// Records a chunk of a group's attachment. A transfer stays with the
    /// group it first named.
    pub fn add_group_chunk(&mut self, group_id: ConversationId, index: u32, bytes: Vec<u8>) -> (r: Result<
        (),
        TransferError,
    >)
        ensures
            (old(self).group_id matches Some(g) && g != group_id) ==> r == Err::<(), TransferError>(
                TransferError::ChangedConversation,
            ) && final(self).chunks@ == old(self).chunks@ && final(self).group_id == old(self).group_id,
            !(old(self).group_id matches Some(g) && g != group_id) ==> r is Ok && final(self).group_id == Some(
                group_id,
            ) && final(self).chunks@ == chunk_added(old(self).chunks@, index, bytes),
            final(self).secret == old(self).secret,
            final(self).manifest == old(self).manifest,
            final(self).group_event == old(self).group_event,
    {
        if let Some(known) = self.group_id {
            if !known.same(&group_id) {
                return Err(TransferError::ChangedConversation);
            }
        }
        self.group_id = Some(group_id);
        self.keep_first(index, bytes);
        Ok(())
    }

    /// The chunks in order, once the offer is known and all of its chunks
    /// have arrived.
    pub fn ready_chunks(&self) -> (r: Option<Vec<Vec<u8>>>)
        ensures
            r is Some <==> (self.secret is Some && self.manifest is Some && all_chunks(
                self.chunks@,
                self.manifest.unwrap().chunk_hashes@.len(),
            )),
            r matches Some(v) ==> v@.len() == self.manifest.unwrap().chunk_hashes@.len() && forall|k: u32|
                k < v@.len() ==> (#[trigger] v@[k as int])@ == self.chunks@[k]@,
    {
        if self.secret.is_none() {
            return None;
        }
        match &self.manifest {
            None => None,
            Some(m) => ordered_chunks(&self.chunks, m.chunk_hashes.len()),
        }
    }

    /// The chunks in order, once the group offer is known and all of its
    /// chunks have arrived.
    pub fn group_ready_chunks(&self) -> (r: Option<Vec<Vec<u8>>>)
        ensures
            r is Some <==> (self.secret is Some && self.group_id is Some && self.group_event is Some
                && self.manifest is Some && all_chunks(self.chunks@, self.manifest.unwrap().chunk_hashes@.len())),
            r matches Some(v) ==> v@.len() == self.manifest.unwrap().chunk_hashes@.len() && forall|k: u32|
                k < v@.len() ==> (#[trigger] v@[k as int])@ == self.chunks@[k]@,
    {
        if self.group_id.is_none() || self.group_event.is_none() {
            return None;
        }
        self.ready_chunks()
    }
}

/// A chunk, once received, is never replaced by a later copy.
pub proof fn law_first_chunk_wins(chunks: Map<u32, Vec<u8>>, index: u32, bytes: Vec<u8>)
    ensures
        chunk_added(chunks, index, bytes).contains_key(index),
        chunks.contains_key(index) ==> chunk_added(chunks, index, bytes)[index] == chunks[index],
        forall|k: u32| #[trigger] chunks.contains_key(k) ==> chunk_added(chunks, index, bytes).contains_key(k)
            && chunk_added(chunks, index, bytes)[k] == chunks[k],
{
}

} // verus!
