//! Files encrypted chunk by chunk under a group secret. The manifest names
//! each chunk's digest, the digest of all chunks together, and the
//! plaintext's length.
//!
//! The wire encoding of each sealed chunk is the caller's: `encrypt_blob_chunks`
//! seals the chunks, the caller encodes them, `assemble_blob` builds the
//! manifest over the encoded chunks; `decrypt_blob` takes the blob and what
//! decoding each chunk gave.
use vstd::prelude::*;
use crate::codec::CodecError;
use crate::crypto::{opened, seals, EncryptedPayload, EncryptionError, GroupSecret};
use crate::digest::{blake3_digest, blake3_hash, extend_bytes};
use crate::identity::byte_views;
use crate::protocol::{same_bytes32, BlobManifest};

verus! {

/// The largest chunk size a blob may use: 4 MiB.
pub const MAX_CHUNK_SIZE: u32 = 4194304;

/// A blob's manifest and its sealed, encoded chunks.
#[derive(Debug, Clone, PartialEq, Eq)]
pub struct EncryptedBlob {
    pub manifest: BlobManifest,
    pub chunks: Vec<Vec<u8>>,
}

/// Why a blob could not be sealed or opened.
#[derive(Debug, Clone, PartialEq, Eq)]
pub enum BlobError {
    InvalidChunkSize,
    TooLarge,
    ChunkCount,
    HashMismatch(usize),
    FullHashMismatch,
    LengthMismatch,
    Encryption(EncryptionError),
    Codec(CodecError),
}

/// The bytes of `pptalk-blob-chunk-v1`.
pub open spec fn chunk_domain() -> Seq<u8> {
    seq![
        0x70u8, 0x70u8, 0x74u8, 0x61u8, 0x6cu8, 0x6bu8, 0x2du8, 0x62u8, 0x6cu8, 0x6fu8,
        0x62u8, 0x2du8, 0x63u8, 0x68u8, 0x75u8, 0x6eu8, 0x6bu8, 0x2du8, 0x76u8, 0x31u8,
    ]
}

/// The `n` little-endian bytes of `v`.
pub open spec fn le_digits(v: nat, n: nat) -> Seq<u8>
    decreases n,
{
    if n == 0 {
        Seq::empty()
    } else {
        seq![(v % 256) as u8] + le_digits(v / 256, (n - 1) as nat)
    }
}

/// The associated data of chunk `index`: the domain, then the index's
/// native-width little-endian bytes.
pub open spec fn chunk_aad_spec(index: usize) -> Seq<u8> {
    chunk_domain() + le_digits(index as nat, (usize::BITS / 8) as nat)
}

/// The associated data that binds a sealed chunk to its place in the blob.
pub fn chunk_aad(index: usize) -> (r: Vec<u8>)
    ensures
        r@ == chunk_aad_spec(index),
{
    let domain: [u8; 20] = [
        0x70, 0x70, 0x74, 0x61, 0x6c, 0x6b, 0x2d, 0x62, 0x6c, 0x6f,
        0x62, 0x2d, 0x63, 0x68, 0x75, 0x6e, 0x6b, 0x2d, 0x76, 0x31,
    ];
    let mut aad: Vec<u8> = Vec::new();
    extend_bytes(&mut aad, domain.as_slice());
    assert(aad@ =~= chunk_domain());
    let width: u32 = usize::BITS / 8;
    let mut rest: usize = index;
    let mut i: u32 = 0;
    while i < width
        invariant
            i <= width,
            width == usize::BITS / 8,
            aad@ + le_digits(rest as nat, (width - i) as nat) == chunk_aad_spec(index),
        decreases width - i,
    {
        let byte = (rest % 256) as u8;
        let ghost before = aad@;
        let ghost tail = le_digits((rest / 256) as nat, (width - i - 1) as nat);
        assert(le_digits(rest as nat, (width - i) as nat) == seq![byte] + tail);
        aad.push(byte);
        assert(aad@ + tail =~= before + (seq![byte] + tail));
        rest = rest / 256;
        i = i + 1;
    }
    assert(aad@ + le_digits(rest as nat, 0) =~= aad@);
    aad
}

/// `plaintext` cut into consecutive pieces of `size` bytes, the last one
/// shorter where the length is no multiple of `size`; none for an empty
/// plaintext.
pub open spec fn pieces(plaintext: Seq<u8>, size: nat) -> Seq<Seq<u8>>
    decreases plaintext.len(),
{
    if plaintext.len() == 0 || size == 0 {
        Seq::empty()
    } else if plaintext.len() <= size {
        seq![plaintext]
    } else {
        seq![plaintext.take(size as int)] + pieces(plaintext.skip(size as int), size)
    }
}

/// The pieces put back together give the plaintext.
pub proof fn lemma_pieces_flatten(plaintext: Seq<u8>, size: nat)
    requires
        size > 0,
    ensures
        pieces(plaintext, size).flatten() == plaintext,
    decreases plaintext.len(),
{
    let p = pieces(plaintext, size);
    if plaintext.len() == 0 {
        assert(p.flatten() =~= plaintext);
    } else if plaintext.len() <= size {
        p.lemma_flatten_one_element();
    } else {
        let rest = plaintext.skip(size as int);
        lemma_pieces_flatten(rest, size);
        assert(p.first() == plaintext.take(size as int));
        assert(p.drop_first() =~= pieces(rest, size));
        assert(plaintext.take(size as int) + rest =~= plaintext);
    }
}

/// Every piece but none is empty, and none is longer than `size`.
pub proof fn lemma_pieces_bounded(plaintext: Seq<u8>, size: nat, i: int)
    requires
        size > 0,
        0 <= i < pieces(plaintext, size).len(),
    ensures
        pieces(plaintext, size)[i].len() <= size,
    decreases plaintext.len(),
{
    if plaintext.len() > size && i > 0 {
        lemma_pieces_bounded(plaintext.skip(size as int), size, i - 1);
    }
}

/// The bytes of each digest.
pub open spec fn digest_views(v: Seq<[u8; 32]>) -> Seq<Seq<u8>> {
    Seq::new(v.len(), |i: int| v[i]@)
}

/// Whether `blob` holds `chunks` and the manifest that describes them: each
/// chunk's digest, the digest of all of them in order, the plaintext's
/// length, and the given chunk size and names.
pub open spec fn assembled(
    blob: EncryptedBlob,
    chunks: Seq<Seq<u8>>,
    plaintext_len: nat,
    chunk_size: u32,
    file_name: String,
    media_type: String,
) -> bool {
    &&& byte_views(blob.chunks@) == chunks
    &&& digest_views(blob.manifest.chunk_hashes@) == Seq::new(chunks.len(), |i: int| blake3_digest(chunks[i]))
    &&& blob.manifest.ciphertext_hash@ == blake3_digest(chunks.flatten())
    &&& blob.manifest.byte_len == plaintext_len
    &&& blob.manifest.chunk_size == chunk_size
    &&& blob.manifest.file_name == file_name
    &&& blob.manifest.media_type == media_type
    &&& blob.manifest.key_envelope@ == Seq::<u8>::empty()
}

/// Seals `plaintext` in pieces of `chunk_size` bytes, piece `i` with the
/// associated data of index `i`. The chunk size must be from 1 byte to
/// `MAX_CHUNK_SIZE`.
pub fn encrypt_blob_chunks(secret: &GroupSecret, plaintext: &[u8], chunk_size: u32) -> (r: Result<
    Vec<EncryptedPayload>,
    BlobError,
>)
    ensures
        chunk_size == 0 || chunk_size > MAX_CHUNK_SIZE ==> r == Err::<Vec<EncryptedPayload>, BlobError>(
            BlobError::InvalidChunkSize,
        ),
        0 < chunk_size <= MAX_CHUNK_SIZE ==> r is Ok,
        r matches Ok(v) ==> v@.len() == pieces(plaintext@, chunk_size as nat).len(),
        r matches Ok(v) ==> forall|i: int|
            0 <= i < v@.len() ==> seals(
                secret@,
                #[trigger] v@[i],
                pieces(plaintext@, chunk_size as nat)[i],
                chunk_aad_spec(i as usize),
            ),
{
    if chunk_size == 0 || chunk_size > MAX_CHUNK_SIZE {
        return Err(BlobError::InvalidChunkSize);
    }
    let size: usize = chunk_size as usize;
    let ghost all = pieces(plaintext@, size as nat);
    let ghost mut done: Seq<Seq<u8>> = Seq::empty();
    let mut out: Vec<EncryptedPayload> = Vec::new();
    let mut offset: usize = 0;
    assert(plaintext@.skip(0) =~= plaintext@);
    while offset < plaintext.len()
        invariant
            0 < size <= MAX_CHUNK_SIZE,
            size == chunk_size,
            offset <= plaintext@.len(),
            all == pieces(plaintext@, size as nat),
            all == done + pieces(plaintext@.skip(offset as int), size as nat),
            out@.len() == done.len(),
            forall|i: int|
                0 <= i < out@.len() ==> seals(secret@, #[trigger] out@[i], done[i], chunk_aad_spec(i as usize)),
        decreases plaintext@.len() - offset,
    {
        let remaining = plaintext.len() - offset;
        let end = if remaining <= size { plaintext.len() } else { offset + size };
        let piece = vstd::slice::slice_subrange(plaintext, offset, end);
        let ghost rest = plaintext@.skip(offset as int);
        assert(piece@ =~= if rest.len() <= size { rest } else { rest.take(size as int) });
        assert(pieces(rest, size as nat) =~= seq![piece@] + pieces(plaintext@.skip(end as int), size as nat)) by {
            if rest.len() > size {
                assert(rest.skip(size as int) =~= plaintext@.skip(end as int));
            } else {
                assert(plaintext@.skip(end as int) =~= Seq::<u8>::empty());
            }
        }
        let aad = chunk_aad(out.len());
        match secret.encrypt(piece, aad.as_slice()) {
            Ok(payload) => {
                proof {
                    assert(done.push(piece@) + pieces(plaintext@.skip(end as int), size as nat)
                        =~= done + pieces(rest, size as nat));
                    done = done.push(piece@);
                }
                out.push(payload);
            },
            Err(e) => {
                return Err(BlobError::Encryption(e));
            },
        }
        offset = end;
    }
    assert(pieces(plaintext@.skip(offset as int), size as nat) =~= Seq::<Seq<u8>>::empty());
    assert(done =~= all);
    Ok(out)
}

/// The blob of sealed, encoded `chunks` of a plaintext of `plaintext_len`
/// bytes, with its manifest.
pub fn assemble_blob(
    chunks: Vec<Vec<u8>>,
    plaintext_len: usize,
    chunk_size: u32,
    file_name: String,
    media_type: String,
) -> (r: EncryptedBlob)
    ensures
        assembled(r, byte_views(chunks@), plaintext_len as nat, chunk_size, file_name, media_type),
{
    let mut chunk_hashes: Vec<[u8; 32]> = Vec::new();
    let mut full: Vec<u8> = Vec::new();
    let ghost views = byte_views(chunks@);
    let mut i: usize = 0;
    while i < chunks.len()
        invariant
            i <= chunks@.len(),
            views == byte_views(chunks@),
            chunk_hashes@.len() == i,
            forall|j: int| 0 <= j < i ==> (#[trigger] chunk_hashes@[j])@ == blake3_digest(views[j]),
            full@ == views.take(i as int).flatten_alt(),
        decreases chunks@.len() - i,
    {
        let hash = blake3_hash(chunks[i].as_slice());
        chunk_hashes.push(hash);
        let ghost before = full@;
        extend_bytes(&mut full, chunks[i].as_slice());
        assert(views.take(i as int + 1).drop_last() =~= views.take(i as int));
        i = i + 1;
    }
    assert(views.take(i as int) =~= views);
    proof {
        views.lemma_flatten_and_flatten_alt_are_equivalent();
    }
    let ciphertext_hash = blake3_hash(full.as_slice());
    let blob = EncryptedBlob {
        manifest: BlobManifest {
            ciphertext_hash,
            byte_len: plaintext_len as u64,
            chunk_size,
            chunk_hashes,
            media_type,
            file_name,
            key_envelope: Vec::new(),
        },
        chunks,
    };
    assert(digest_views(blob.manifest.chunk_hashes@) =~= Seq::new(views.len(), |j: int| blake3_digest(views[j])));
    blob
}

/// What checking and opening one chunk gives: its digest must match the
/// manifest's, its decoding must have succeeded, and it must open with the
/// associated data of its index.
pub open spec fn chunk_opened(
    key: Seq<u8>,
    chunk: Seq<u8>,
    expected: Seq<u8>,
    decoded: Result<EncryptedPayload, CodecError>,
    index: int,
) -> Result<Seq<u8>, BlobError> {
    if blake3_digest(chunk) != expected {
        Err(BlobError::HashMismatch(index as usize))
    } else {
        match decoded {
            Err(c) => Err(BlobError::Codec(c)),
            Ok(p) => match opened(key, p, chunk_aad_spec(index as usize)) {
                Err(e) => Err(BlobError::Encryption(e)),
                Ok(plain) => Ok(plain),
            },
        }
    }
}

/// The plaintext of the first `n` chunks, or the first chunk's failure.
pub open spec fn chunks_opened(
    key: Seq<u8>,
    chunks: Seq<Seq<u8>>,
    hashes: Seq<Seq<u8>>,
    decoded: Seq<Result<EncryptedPayload, CodecError>>,
    n: nat,
) -> Result<Seq<u8>, BlobError>
    decreases n,
{
    if n == 0 {
        Ok(Seq::empty())
    } else {
        match chunks_opened(key, chunks, hashes, decoded, (n - 1) as nat) {
            Err(e) => Err(e),
            Ok(p) => match chunk_opened(key, chunks[n - 1], hashes[n - 1], decoded[n - 1], n - 1) {
                Err(e) => Err(e),
                Ok(q) => Ok(p + q),
            },
        }
    }
}

/// What opening `blob` gives, where `decoded` is what decoding each chunk
/// gave: the chunk count must match the manifest's, every chunk must check
/// and open in order, the digest of all chunks must match, and so must the
/// plaintext's length.
pub open spec fn blob_opened(
    key: Seq<u8>,
    blob: EncryptedBlob,
    decoded: Seq<Result<EncryptedPayload, CodecError>>,
) -> Result<Seq<u8>, BlobError> {
    let chunks = byte_views(blob.chunks@);
    let hashes = digest_views(blob.manifest.chunk_hashes@);
    if chunks.len() != hashes.len() {
        Err(BlobError::ChunkCount)
    } else {
        match chunks_opened(key, chunks, hashes, decoded, chunks.len()) {
            Err(e) => Err(e),
            Ok(p) => if blake3_digest(chunks.flatten()) != blob.manifest.ciphertext_hash@ {
                Err(BlobError::FullHashMismatch)
            } else if p.len() != blob.manifest.byte_len {
                Err(BlobError::LengthMismatch)
            } else {
                Ok(p)
            },
        }
    }
}

/// Once a chunk fails, opening more chunks fails the same way.
proof fn lemma_failure_persists(
    key: Seq<u8>,
    chunks: Seq<Seq<u8>>,
    hashes: Seq<Seq<u8>>,
    decoded: Seq<Result<EncryptedPayload, CodecError>>,
    k: nat,
    m: nat,
)
    requires
        k <= m,
        chunks_opened(key, chunks, hashes, decoded, k) is Err,
    ensures
        chunks_opened(key, chunks, hashes, decoded, m) == chunks_opened(key, chunks, hashes, decoded, k),
    decreases m - k,
{
    if k < m {
        lemma_failure_persists(key, chunks, hashes, decoded, k, (m - 1) as nat);
    }
}

impl CodecError {
    /// A copy of the same value.
    pub fn duplicate(&self) -> (r: Self)
        ensures
            r == *self,
    {
        match self {
            CodecError::TooLarge => CodecError::TooLarge,
            CodecError::Encode(m) => CodecError::Encode(m.clone()),
            CodecError::Decode(m) => CodecError::Decode(m.clone()),
        }
    }
}

/// Checks and opens `blob` under `secret`; `decoded[i]` is what decoding
/// chunk `i` gave.
pub fn decrypt_blob(
    secret: &GroupSecret,
    blob: &EncryptedBlob,
    decoded: &[Result<EncryptedPayload, CodecError>],
) -> (r: Result<Vec<u8>, BlobError>)
    requires
        decoded@.len() == blob.chunks@.len(),
    ensures
        r matches Ok(p) ==> blob_opened(secret@, *blob, decoded@) == Ok::<Seq<u8>, BlobError>(p@),
        r matches Err(e) ==> blob_opened(secret@, *blob, decoded@) == Err::<Seq<u8>, BlobError>(e),
{
    let ghost chunks = byte_views(blob.chunks@);
    let ghost hashes = digest_views(blob.manifest.chunk_hashes@);
    if blob.chunks.len() != blob.manifest.chunk_hashes.len() {
        return Err(BlobError::ChunkCount);
    }
    let mut full: Vec<u8> = Vec::new();
    let mut plaintext: Vec<u8> = Vec::new();
    let mut i: usize = 0;
    while i < blob.chunks.len()
        invariant
            i <= blob.chunks@.len(),
            blob.chunks@.len() == blob.manifest.chunk_hashes@.len(),
            decoded@.len() == blob.chunks@.len(),
            chunks == byte_views(blob.chunks@),
            hashes == digest_views(blob.manifest.chunk_hashes@),
            chunks_opened(secret@, chunks, hashes, decoded@, i as nat) == Ok::<Seq<u8>, BlobError>(plaintext@),
            full@ == chunks.take(i as int).flatten_alt(),
        decreases blob.chunks@.len() - i,
    {
        let chunk = blob.chunks[i].as_slice();
        let hash = blake3_hash(chunk);
        if !same_bytes32(&hash, &blob.manifest.chunk_hashes[i]) {
            proof {
                lemma_failure_persists(secret@, chunks, hashes, decoded@, i as nat + 1, chunks.len());
            }
            return Err(BlobError::HashMismatch(i));
        }
        extend_bytes(&mut full, chunk);
        assert(chunks.take(i as int + 1).drop_last() =~= chunks.take(i as int));
        match &decoded[i] {
            Err(c) => {
                proof {
                    lemma_failure_persists(secret@, chunks, hashes, decoded@, i as nat + 1, chunks.len());
                }
                return Err(BlobError::Codec(c.duplicate()));
            },
            Ok(payload) => {
                let aad = chunk_aad(i);
                match secret.decrypt(payload, aad.as_slice()) {
                    Err(e) => {
                        proof {
                            lemma_failure_persists(secret@, chunks, hashes, decoded@, i as nat + 1, chunks.len());
                        }
                        return Err(BlobError::Encryption(e));
                    },
                    Ok(part) => {
                        extend_bytes(&mut plaintext, part.as_slice());
                    },
                }
            },
        }
        i = i + 1;
    }
    assert(chunks.take(i as int) =~= chunks);
    proof {
        chunks.lemma_flatten_and_flatten_alt_are_equivalent();
    }
    let full_hash = blake3_hash(full.as_slice());
    if !same_bytes32(&full_hash, &blob.manifest.ciphertext_hash) {
        return Err(BlobError::FullHashMismatch);
    }
    if plaintext.len() as u64 != blob.manifest.byte_len {
        return Err(BlobError::LengthMismatch);
    }
    Ok(plaintext)
}

/// The plaintext of the first `n` pieces gives back what those pieces hold
/// when each chunk checks, decodes to the payload that sealed its piece,
/// and opens.
proof fn lemma_chunks_open_to_pieces(
    key: Seq<u8>,
    all: Seq<Seq<u8>>,
    chunks: Seq<Seq<u8>>,
    payloads: Seq<EncryptedPayload>,
    decoded: Seq<Result<EncryptedPayload, CodecError>>,
    n: nat,
)
    requires
        n <= all.len(),
        payloads.len() == all.len(),
        chunks.len() == all.len(),
        decoded.len() == all.len(),
        forall|i: int| 0 <= i < all.len() ==> seals(key, #[trigger] payloads[i], all[i], chunk_aad_spec(i as usize)),
        forall|i: int| 0 <= i < all.len() ==> #[trigger] decoded[i] == Ok::<EncryptedPayload, CodecError>(payloads[i]),
    ensures
        chunks_opened(
            key,
            chunks,
            Seq::new(chunks.len(), |i: int| blake3_digest(chunks[i])),
            decoded,
            n,
        ) == Ok::<Seq<u8>, BlobError>(all.take(n as int).flatten_alt()),
    decreases n,
{
    let hashes = Seq::new(chunks.len(), |i: int| blake3_digest(chunks[i]));
    if n > 0 {
        lemma_chunks_open_to_pieces(key, all, chunks, payloads, decoded, (n - 1) as nat);
        let k = n - 1;
        assert(seals(key, payloads[k], all[k], chunk_aad_spec(k as usize)));
        assert(decoded[k] == Ok::<EncryptedPayload, CodecError>(payloads[k]));
        assert(hashes[k] == blake3_digest(chunks[k]));
        assert(all.take(n as int).drop_last() =~= all.take(k));
    }
}

/// A blob sealed by `encrypt_blob_chunks` and built by `assemble_blob`
/// opens to the plaintext again, when each encoded chunk decodes to the
/// payload it encodes.
pub proof fn law_blob_roundtrip(
    key: Seq<u8>,
    plaintext: Seq<u8>,
    chunk_size: u32,
    payloads: Seq<EncryptedPayload>,
    blob: EncryptedBlob,
    file_name: String,
    media_type: String,
    decoded: Seq<Result<EncryptedPayload, CodecError>>,
)
    requires
        0 < chunk_size <= MAX_CHUNK_SIZE,
        payloads.len() == pieces(plaintext, chunk_size as nat).len(),
        forall|i: int|
            0 <= i < payloads.len() ==> seals(
                key,
                #[trigger] payloads[i],
                pieces(plaintext, chunk_size as nat)[i],
                chunk_aad_spec(i as usize),
            ),
        assembled(blob, byte_views(blob.chunks@), plaintext.len(), chunk_size, file_name, media_type),
        blob.chunks@.len() == payloads.len(),
        decoded.len() == payloads.len(),
        forall|i: int| 0 <= i < payloads.len() ==> #[trigger] decoded[i] == Ok::<EncryptedPayload, CodecError>(payloads[i]),
    ensures
        blob_opened(key, blob, decoded) == Ok::<Seq<u8>, BlobError>(plaintext),
{
    let all = pieces(plaintext, chunk_size as nat);
    let chunks = byte_views(blob.chunks@);
    lemma_chunks_open_to_pieces(key, all, chunks, payloads, decoded, all.len());
    assert(all.take(all.len() as int) =~= all);
    all.lemma_flatten_and_flatten_alt_are_equivalent();
    lemma_pieces_flatten(plaintext, chunk_size as nat);
}

} // verus!
