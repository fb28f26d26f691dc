//! Bounds of the optional distributed store for already encrypted envelopes.
//!
//! A payload is cut into values of `VALUE_BYTES`; values are grouped into
//! records of at most `SUBKEYS_PER_RECORD` subkeys. A locator names the
//! records, the payload's length and digest, and when the copy expires.
use vstd::prelude::*;
use crate::digest::{blake3_digest, blake3_hash};
use crate::protocol::same_bytes32;

verus! {

/// The largest payload the distributed store takes.
pub const MAX_DISTRIBUTED_BYTES: usize = 8388608;

/// How many MiB of remote records this node stores for others.
pub const CONTRIBUTION_LIMIT_MIB: u32 = 64;

/// `CONTRIBUTION_LIMIT_MIB` in bytes.
pub const CONTRIBUTION_LIMIT_BYTES: usize = 67108864;

/// How long a published copy is kept: thirty days.
pub const RETENTION_SECONDS: i64 = 2592000;

/// The bytes one subkey value holds.
pub const VALUE_BYTES: usize = 30720;

/// The subkeys one record holds.
pub const SUBKEYS_PER_RECORD: usize = 32;

/// Where a published payload lives and how to check it.
#[derive(Debug, Clone, PartialEq, Eq)]
pub struct DistributedLocator {
    pub version: u16,
    pub record_keys: Vec<String>,
    pub byte_len: u64,
    pub ciphertext_hash: [u8; 32],
    pub expires_unix: i64,
}

#[verifier::external_type_specification]
#[verifier::external_body]
pub struct ExIoError(std::io::Error);

/// Why a distributed operation failed.
#[derive(Debug)]
pub enum DistributedError {
    PayloadSize(usize),
    InvalidLocator(&'static str),
    Expired,
    FlushTimeout,
    MissingChunk { record: usize, subkey: usize },
    HashMismatch,
    Veilid(String),
    Io(std::io::Error),
}

/// `a` divided by `b`, rounded up.
pub open spec fn ceil_div(a: int, b: int) -> int {
    (a + b - 1) / b
}

/// How many values a payload of `byte_len` bytes needs.
pub open spec fn spec_chunk_count(byte_len: int) -> int {
    ceil_div(byte_len, VALUE_BYTES as int)
}

/// How many records a payload of `byte_len` bytes needs.
pub open spec fn spec_record_count(byte_len: int) -> int {
    ceil_div(spec_chunk_count(byte_len), SUBKEYS_PER_RECORD as int)
}

/// How many values a payload of `byte_len` bytes needs.
pub fn chunk_count(byte_len: usize) -> (r: usize)
    ensures
        r == spec_chunk_count(byte_len as int),
{
    let whole = byte_len / VALUE_BYTES;
    if byte_len % VALUE_BYTES == 0 {
        whole
    } else {
        whole + 1
    }
}

/// How many records a payload of `byte_len` bytes needs.
pub fn record_count(byte_len: usize) -> (r: usize)
    ensures
        r == spec_record_count(byte_len as int),
{
    let chunks = chunk_count(byte_len);
    let whole = chunks / SUBKEYS_PER_RECORD;
    if chunks % SUBKEYS_PER_RECORD == 0 {
        whole
    } else {
        whole + 1
    }
}

/// Why a locator is refused at `now_unix`, if it is.
pub open spec fn locator_error(l: DistributedLocator, now_unix: i64) -> Option<DistributedError> {
    if l.version != 1 {
        Some(DistributedError::InvalidLocator("unsupported version"))
    } else if l.expires_unix <= now_unix {
        Some(DistributedError::Expired)
    } else if l.byte_len > usize::MAX {
        Some(DistributedError::InvalidLocator("invalid byte length"))
    } else if l.byte_len > MAX_DISTRIBUTED_BYTES || l.record_keys@.len() == 0 {
        Some(DistributedError::InvalidLocator("invalid payload bounds"))
    } else if l.record_keys@.len() != spec_record_count(l.byte_len as int) {
        Some(DistributedError::InvalidLocator("record count does not match length"))
    } else {
        None
    }
}

impl DistributedLocator {
    /// Checks the locator's version, expiry, size and record count.
    pub fn validate(&self, now_unix: i64) -> (r: Result<(), DistributedError>)
        ensures
            match locator_error(*self, now_unix) {
                Some(e) => r == Err::<(), DistributedError>(e),
                None => r is Ok,
            },
    {
        if self.version != 1 {
            return Err(DistributedError::InvalidLocator("unsupported version"));
        }
        if self.expires_unix <= now_unix {
            return Err(DistributedError::Expired);
        }
        if self.byte_len > usize::MAX as u64 {
            return Err(DistributedError::InvalidLocator("invalid byte length"));
        }
        let byte_len = self.byte_len as usize;
        if byte_len > MAX_DISTRIBUTED_BYTES || self.record_keys.len() == 0 {
            return Err(DistributedError::InvalidLocator("invalid payload bounds"));
        }
        let expected_records = record_count(byte_len);
        if self.record_keys.len() != expected_records {
            return Err(DistributedError::InvalidLocator("record count does not match length"));
        }
        Ok(())
    }
}

/// A failure of the distributed store, with its message.
pub fn api_error(message: String) -> (r: DistributedError)
    ensures
        r == DistributedError::Veilid(message),
{
    DistributedError::Veilid(message)
}

/// Admits a payload for publishing: from one byte to `MAX_DISTRIBUTED_BYTES`.
pub fn admit_payload(len: usize) -> (r: Result<(), DistributedError>)
    ensures
        r is Ok <==> 0 < len <= MAX_DISTRIBUTED_BYTES,
        r is Err ==> r == Err::<(), DistributedError>(DistributedError::PayloadSize(len)),
{
    if len == 0 || len > MAX_DISTRIBUTED_BYTES {
        Err(DistributedError::PayloadSize(len))
    } else {
        Ok(())
    }
}

/// How many values record `record_index` of a payload of `total_chunks`
/// values holds.
pub fn record_chunk_count(total_chunks: usize, record_index: usize) -> (r: usize)
    requires
        record_index * SUBKEYS_PER_RECORD <= total_chunks,
    ensures
        r == if total_chunks - record_index * SUBKEYS_PER_RECORD < SUBKEYS_PER_RECORD {
            total_chunks - record_index * SUBKEYS_PER_RECORD
        } else {
            SUBKEYS_PER_RECORD as int
        },
{
    let start = record_index * SUBKEYS_PER_RECORD;
    let remaining = total_chunks - start;
    if remaining < SUBKEYS_PER_RECORD {
        remaining
    } else {
        SUBKEYS_PER_RECORD
    }
}

/// The bytes one record holds: `SUBKEYS_PER_RECORD` values.
pub const RECORD_BYTES: usize = 983040;

/// The byte range of piece `k` when `len` bytes are cut into pieces of
/// `size`: from `k * size` up to the next multiple or the end.
pub open spec fn piece_range(len: int, size: int, k: int) -> (int, int) {
    (k * size, if (k + 1) * size < len {
        (k + 1) * size
    } else {
        len
    })
}

proof fn lemma_last_piece(len: int, size: int, k: int)
    by (nonlinear_arith)
    requires
        size > 0,
        k >= 0,
        k * size < len,
        len <= (k + 1) * size,
    ensures
        ceil_div(len, size) == k + 1,
{
    assert(len + size - 1 >= (k + 1) * size);
    assert(len + size - 1 < (k + 2) * size);
}

/// The byte ranges `len` bytes are cut into, `size` bytes each but the
/// last, in order.
pub fn split_ranges(len: usize, size: usize) -> (r: Vec<(usize, usize)>)
    requires
        size > 0,
    ensures
        r@.len() == ceil_div(len as int, size as int),
        forall|k: int|
            0 <= k < r@.len() ==> (#[trigger] r@[k]).0 == piece_range(len as int, size as int, k).0 && r@[k].1
                == piece_range(len as int, size as int, k).1,
{
    let mut out: Vec<(usize, usize)> = Vec::new();
    let mut start: usize = 0;
    if len == 0 {
        assert(ceil_div(0, size as int) == 0) by (nonlinear_arith)
            requires
                size > 0,
        ;
        return out;
    }
    assert(out@.len() * size == 0) by (nonlinear_arith)
        requires
            out@.len() == 0,
    ;
    while start < len
        invariant
            size > 0,
            start <= len,
            len > 0,
            start < len ==> start == out@.len() * size,
            start == len ==> out@.len() == ceil_div(len as int, size as int),
            forall|k: int|
                0 <= k < out@.len() ==> (#[trigger] out@[k]).0 == piece_range(len as int, size as int, k).0
                    && out@[k].1 == piece_range(len as int, size as int, k).1,
        decreases len - start,
    {
        let k: Ghost<int> = Ghost(out@.len() as int);
        let end = if len - start > size {
            start + size
        } else {
            len
        };
        proof {
            assert((k@ + 1) * size == k@ * size + size) by (nonlinear_arith);
            if end == len {
                lemma_last_piece(len as int, size as int, k@);
            }
        }
        out.push((start, end));
        start = end;
    }
    out
}

/// The byte ranges of the records a payload of `len` bytes is published
/// in, in order.
pub fn record_ranges(len: usize) -> (r: Vec<(usize, usize)>)
    ensures
        r@.len() == ceil_div(len as int, RECORD_BYTES as int),
        forall|k: int|
            0 <= k < r@.len() ==> (#[trigger] r@[k]).0 == piece_range(len as int, RECORD_BYTES as int, k).0
                && r@[k].1 == piece_range(len as int, RECORD_BYTES as int, k).1,
{
    split_ranges(len, RECORD_BYTES)
}

/// The byte ranges, within a record of `len` bytes, of the values its
/// subkeys hold, in order: as many as `chunk_count(len)`.
pub fn value_ranges(len: usize) -> (r: Vec<(usize, usize)>)
    ensures
        r@.len() == spec_chunk_count(len as int),
        forall|k: int|
            0 <= k < r@.len() ==> (#[trigger] r@[k]).0 == piece_range(len as int, VALUE_BYTES as int, k).0
                && r@[k].1 == piece_range(len as int, VALUE_BYTES as int, k).1,
{
    split_ranges(len, VALUE_BYTES)
}

/// Publishing cuts a payload into as many records as `record_count` says.
pub proof fn law_records_match_record_count(len: int)
    requires
        len >= 0,
    ensures
        ceil_div(len, RECORD_BYTES as int) == spec_record_count(len),
{
    let c = spec_chunk_count(len);
    let r = ceil_div(len, RECORD_BYTES as int);
    assert((c - 1) * 30720 < len <= c * 30720 || (len == 0 && c == 0)) by (nonlinear_arith)
        requires
            len >= 0,
            c == (len + 30720 - 1) / 30720,
    ;
    assert((r - 1) * 983040 < len <= r * 983040 || (len == 0 && r == 0)) by (nonlinear_arith)
        requires
            len >= 0,
            r == (len + 983040 - 1) / 983040,
    ;
    let q = ceil_div(c, 32);
    assert((q - 1) * 32 < c <= q * 32 || (c == 0 && q == 0)) by (nonlinear_arith)
        requires
            c >= 0,
            q == (c + 32 - 1) / 32,
    ;
    assert(q == r) by (nonlinear_arith)
        requires
            (c - 1) * 30720 < len <= c * 30720 || (len == 0 && c == 0),
            (r - 1) * 983040 < len <= r * 983040 || (len == 0 && r == 0),
            (q - 1) * 32 < c <= q * 32 || (c == 0 && q == 0),
            len >= 0,
    ;
}

/// The pieces of a cut cover the bytes exactly and in order: the first
/// starts at 0, each ends where the next starts, the last ends at `len`,
/// and none is empty or longer than `size`.
pub proof fn law_pieces_cover(len: int, size: int)
    requires
        len > 0,
        size > 0,
    ensures
        piece_range(len, size, 0).0 == 0,
        piece_range(len, size, ceil_div(len, size) - 1).1 == len,
        forall|k: int|
            0 <= k < ceil_div(len, size) - 1 ==> (#[trigger] piece_range(len, size, k)).1 == piece_range(
                len,
                size,
                k + 1,
            ).0,
        forall|k: int|
            0 <= k < ceil_div(len, size) ==> 0 < (#[trigger] piece_range(len, size, k)).1 - piece_range(len, size, k).0
                <= size,
{
    let n = ceil_div(len, size);
    assert(n >= 1 && (n - 1) * size < len && len <= n * size) by (nonlinear_arith)
        requires
            len > 0,
            size > 0,
            n == (len + size - 1) / size,
    ;
    assert forall|k: int| 0 <= k < n - 1 implies (#[trigger] piece_range(len, size, k)).1 == piece_range(len, size, k + 1).0 by {
        assert((k + 1) * size <= (n - 1) * size) by (nonlinear_arith)
            requires
                k + 1 <= n - 1,
                size > 0,
        ;
    }
    assert forall|k: int| 0 <= k < n implies 0 < (#[trigger] piece_range(len, size, k)).1 - piece_range(len, size, k).0 <= size by {
        assert(k * size <= (n - 1) * size && (k + 1) * size == k * size + size) by (nonlinear_arith)
            requires
                k <= n - 1,
                size > 0,
        ;
    }
    assert(0 * size == 0);
}

/// What a retrieval gives for the values gathered: their bytes cut to the
/// payload's length where the digest the locator names matches, else a
/// mismatch.
pub open spec fn retrieved(output: Seq<u8>, l: DistributedLocator) -> Result<Seq<u8>, DistributedError> {
    let kept = if output.len() > l.byte_len {
        output.take(l.byte_len as int)
    } else {
        output
    };
    if blake3_digest(kept) == l.ciphertext_hash@ {
        Ok(kept)
    } else {
        Err(DistributedError::HashMismatch)
    }
}

/// A payload comes back whole from the values it was published as, even
/// with bytes after it: where the locator names its length and digest, the
/// gathered bytes starting with it retrieve exactly it.
pub proof fn law_published_payload_retrieves(ciphertext: Seq<u8>, extra: Seq<u8>, l: DistributedLocator)
    requires
        l.byte_len == ciphertext.len(),
        l.ciphertext_hash@ == blake3_digest(ciphertext),
    ensures
        retrieved(ciphertext + extra, l) == Ok::<Seq<u8>, DistributedError>(ciphertext),
{
    if extra.len() > 0 {
        assert((ciphertext + extra).take(ciphertext.len() as int) =~= ciphertext);
    } else {
        assert(ciphertext + extra =~= ciphertext);
    }
}

/// How many values record `i` of a payload of `byte_len` bytes holds.
pub open spec fn spec_record_chunks(byte_len: int, i: int) -> int {
    let rest = spec_chunk_count(byte_len) - i * SUBKEYS_PER_RECORD;
    if rest < SUBKEYS_PER_RECORD {
        rest
    } else {
        SUBKEYS_PER_RECORD as int
    }
}

/// Plans a retrieval at `now_unix`: the locator is checked before anything
/// is read, and only a valid one gives, in record order, how many values
/// each record holds.
pub fn retrieval_plan(locator: &DistributedLocator, now_unix: i64) -> (r: Result<Vec<usize>, DistributedError>)
    ensures
        match locator_error(*locator, now_unix) {
            Some(e) => r == Err::<Vec<usize>, DistributedError>(e),
            None => r matches Ok(v) && v@.len() == locator.record_keys@.len() && forall|i: int|
                0 <= i < v@.len() ==> #[trigger] v@[i] == spec_record_chunks(locator.byte_len as int, i) && 0
                    < v@[i] <= SUBKEYS_PER_RECORD,
        },
{
    match locator.validate(now_unix) {
        Err(e) => {
            return Err(e);
        },
        Ok(()) => {},
    }
    let byte_len = locator.byte_len as usize;
    let total = chunk_count(byte_len);
    let n = locator.record_keys.len();
    let mut out: Vec<usize> = Vec::new();
    let mut i: usize = 0;
    while i < n
        invariant
            n == locator.record_keys@.len(),
            n == ceil_div(total as int, SUBKEYS_PER_RECORD as int),
            total == spec_chunk_count(locator.byte_len as int),
            i <= n,
            out@.len() == i,
            forall|j: int|
                0 <= j < i ==> #[trigger] out@[j] == spec_record_chunks(locator.byte_len as int, j) && 0 < out@[j]
                    <= SUBKEYS_PER_RECORD,
        decreases n - i,
    {
        assert(i * 32 < total) by (nonlinear_arith)
            requires
                i < (total + 32 - 1) / 32,
                total >= 0,
        ;
        let c = record_chunk_count(total, i);
        out.push(c);
        i = i + 1;
    }
    Ok(out)
}

/// Finishes a retrieval: cuts the gathered values to the payload's length
/// and checks the digest the locator names.
pub fn finish_retrieval(output: Vec<u8>, locator: &DistributedLocator) -> (r: Result<Vec<u8>, DistributedError>)
    requires
        locator.byte_len <= usize::MAX,
    ensures
        ({
            let kept = if output@.len() > locator.byte_len {
                output@.take(locator.byte_len as int)
            } else {
                output@
            };
            &&& blake3_digest(kept) == locator.ciphertext_hash@ ==> (r matches Ok(v) && v@ == kept)
            &&& blake3_digest(kept) != locator.ciphertext_hash@ ==> (r matches Err(DistributedError::HashMismatch))
        }),
        match retrieved(output@, *locator) {
            Ok(k) => r matches Ok(v) && v@ == k,
            Err(_) => r matches Err(DistributedError::HashMismatch),
        },
{
    let mut output = output;
    let ghost original = output@;
    output.truncate(locator.byte_len as usize);
    assert(output@ =~= if original.len() > locator.byte_len {
        original.take(locator.byte_len as int)
    } else {
        original
    });
    let hash = blake3_hash(output.as_slice());
    if !same_bytes32(&hash, &locator.ciphertext_hash) {
        return Err(DistributedError::HashMismatch);
    }
    Ok(output)
}

/// The locator of a published payload.
pub fn locator_for(record_keys: Vec<String>, ciphertext: &[u8], now_unix: i64) -> (r: DistributedLocator)
    ensures
        r.version == 1,
        r.record_keys == record_keys,
        r.byte_len == ciphertext@.len(),
        r.ciphertext_hash@ == blake3_digest(ciphertext@),
        r.expires_unix == if now_unix + RETENTION_SECONDS > i64::MAX {
            i64::MAX as int
        } else {
            now_unix + RETENTION_SECONDS
        },
{
    let expires_unix = if now_unix > i64::MAX - RETENTION_SECONDS {
        i64::MAX
    } else {
        now_unix + RETENTION_SECONDS
    };
    DistributedLocator {
        version: 1,
        record_keys,
        byte_len: ciphertext.len() as u64,
        ciphertext_hash: blake3_hash(ciphertext),
        expires_unix,
    }
}

/// A locator is accepted exactly until its expiry: a valid locator checked
/// at an earlier time is valid too.
pub proof fn law_validity_persists_until_expiry(l: DistributedLocator, now: i64, earlier: i64)
    requires
        locator_error(l, now) is None,
        earlier <= now,
    ensures
        locator_error(l, earlier) is None,
{
}

} // verus!
