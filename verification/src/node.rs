//! The rules of the optional store-and-forward node. It only stores opaque,
//! client-encrypted envelopes, per capability, for a bounded time and up to
//! a quota; the database and the HTTP surface are the application's.
use vstd::prelude::*;
use vstd::string::*;
use crate::digest::{hex_decode, hex_decoded};

verus! {

/// The largest envelope a node takes by default: 4 MiB.
pub const DEFAULT_MAX_ENVELOPE_BYTES: usize = 4194304;

/// What one capability may hold by default: 256 MiB.
pub const DEFAULT_MAILBOX_QUOTA_BYTES: u64 = 268435456;

/// The longest a node keeps an envelope by default: seven days.
pub const DEFAULT_MAX_TTL_SECONDS: u64 = 604800;

/// The most envelopes one drain returns.
pub const MAX_DRAIN_BATCH: usize = 512;

/// Where a node keeps its mailbox and how much it takes.
#[derive(Debug, Clone)]
pub struct NodeConfig {
    pub database_path: String,
    pub max_envelope_bytes: usize,
    pub mailbox_quota_bytes: u64,
    pub max_ttl_seconds: u64,
}

/// The path of `name` inside the directory `dir`: a separator is put
/// between them unless `dir` is empty or already ends in one.
pub open spec fn joined(dir: Seq<char>, name: Seq<char>) -> Seq<char> {
    if dir.len() == 0 {
        name
    } else if dir.last() == '/' {
        dir + name
    } else {
        dir + seq!['/'] + name
    }
}

impl NodeConfig {
    /// The default configuration with its database in `data_dir`.
    pub fn at(data_dir: &str) -> (r: Self)
        ensures
            r.database_path@ == joined(data_dir@, "mailbox.sqlite3"@),
            r.max_envelope_bytes == DEFAULT_MAX_ENVELOPE_BYTES,
            r.mailbox_quota_bytes == DEFAULT_MAILBOX_QUOTA_BYTES,
            r.max_ttl_seconds == DEFAULT_MAX_TTL_SECONDS,
    {
        proof {
            reveal_strlit("/");
        }
        let n = data_dir.unicode_len();
        let mut path = String::from_str(data_dir);
        if n > 0 && data_dir.get_char(n - 1) != '/' {
            path.append("/");
        }
        path.append("mailbox.sqlite3");
        NodeConfig {
            database_path: path,
            max_envelope_bytes: DEFAULT_MAX_ENVELOPE_BYTES,
            mailbox_quota_bytes: DEFAULT_MAILBOX_QUOTA_BYTES,
            max_ttl_seconds: DEFAULT_MAX_TTL_SECONDS,
        }
    }
}

/// Why the node refused or failed an operation.
#[derive(Debug)]
pub enum NodeError {
    Quota,
    EnvelopeSize,
    Database(rusqlite::Error),
    Io(std::io::Error),
}

/// The mailbox a node serves, under its configuration.
#[derive(Debug, Clone)]
pub struct MailboxStore {
    config: NodeConfig,
}

/// The time an envelope deposited at `now_unix` for `ttl_seconds` expires:
/// the requested time-to-live held between one second and the maximum
/// (and at most `i64::MAX`), and the sum saturating at `i64::MAX`.
pub open spec fn expiry(now_unix: i64, ttl_seconds: u64, max_ttl_seconds: u64) -> i64 {
    let clamped = if ttl_seconds < 1 {
        1
    } else if ttl_seconds > max_ttl_seconds {
        max_ttl_seconds as int
    } else {
        ttl_seconds as int
    };
    let ttl = if clamped > i64::MAX { i64::MAX as int } else { clamped };
    if now_unix + ttl > i64::MAX {
        i64::MAX
    } else {
        (now_unix + ttl) as i64
    }
}

/// Whether an envelope that expires at `expires_unix` is still delivered at
/// `now_unix`; the node deletes it from then on.
pub open spec fn live(expires_unix: i64, now_unix: i64) -> bool {
    expires_unix > now_unix
}

impl MailboxStore {
    /// A store under this configuration.
    pub fn with_config(config: NodeConfig) -> (r: Self)
        ensures
            r.config_spec() == config,
    {
        MailboxStore { config }
    }

    pub closed spec fn config_spec(&self) -> NodeConfig {
        self.config
    }

    pub fn config(&self) -> (r: &NodeConfig)
        ensures
            *r == self.config_spec(),
    {
        &self.config
    }

    /// Admits an envelope of `envelope_len` bytes for `ttl_seconds` at
    /// `now_unix` and gives the time it expires, or refuses an empty or
    /// oversized one before anything is stored.
    pub fn admit_deposit(&self, envelope_len: usize, ttl_seconds: u64, now_unix: i64) -> (r: Result<i64, NodeError>)
        requires
            self.config_spec().max_ttl_seconds >= 1,
        ensures
            envelope_len == 0 || envelope_len > self.config_spec().max_envelope_bytes ==> r matches Err(
                NodeError::EnvelopeSize,
            ),
            0 < envelope_len <= self.config_spec().max_envelope_bytes ==> (r matches Ok(expires) && expires
                == expiry(now_unix, ttl_seconds, self.config_spec().max_ttl_seconds)),
    {
        if envelope_len == 0 || envelope_len > self.config.max_envelope_bytes {
            return Err(NodeError::EnvelopeSize);
        }
        let ttl: u64 = if ttl_seconds < 1 {
            1
        } else if ttl_seconds > self.config.max_ttl_seconds {
            self.config.max_ttl_seconds
        } else {
            ttl_seconds
        };
        let ttl_signed: i64 = if ttl > i64::MAX as u64 { i64::MAX } else { ttl as i64 };
        let expires = if now_unix > 0 && ttl_signed > i64::MAX - now_unix {
            i64::MAX
        } else {
            now_unix + ttl_signed
        };
        Ok(expires)
    }

    /// Admits an envelope of `envelope_len` bytes into a mailbox that holds
    /// `used_bytes` of live envelopes, or refuses it over the quota. The
    /// quota is per capability: the caller counts only that capability's
    /// envelopes.
    pub fn check_quota(&self, used_bytes: i64, envelope_len: usize) -> (r: Result<(), NodeError>)
        requires
            (if used_bytes > 0 { used_bytes as int } else { 0 }) + envelope_len <= u64::MAX,
        ensures
            r is Ok <==> (if used_bytes > 0 { used_bytes as int } else { 0 }) + envelope_len
                <= self.config_spec().mailbox_quota_bytes,
            r is Err ==> r matches Err(NodeError::Quota),
    {
        let used: u64 = if used_bytes > 0 { used_bytes as u64 } else { 0 };
        let total: u64 = used + envelope_len as u64;
        if total > self.config.mailbox_quota_bytes {
            Err(NodeError::Quota)
        } else {
            Ok(())
        }
    }
}

/// The number of envelopes a drain asks for: at most `MAX_DRAIN_BATCH`.
pub fn drain_limit(limit: usize) -> (r: i64)
    ensures
        r == if limit < MAX_DRAIN_BATCH { limit as int } else { MAX_DRAIN_BATCH as int },
{
    if limit < MAX_DRAIN_BATCH {
        limit as i64
    } else {
        MAX_DRAIN_BATCH as i64
    }
}

/// The capability a mailbox path names: 32 bytes in hexadecimal. Anything
/// else names no mailbox.
pub fn parse_capability(value: &str) -> (r: Option<[u8; 32]>)
    ensures
        match hex_decoded(value.spec_bytes()) {
            Some(b) => if b.len() == 32 {
                r matches Some(c) && c@ == b
            } else {
                r is None
            },
            None => r is None,
        },
{
    match hex_decode(value) {
        Err(_) => None,
        Ok(bytes) => {
            if bytes.len() != 32 {
                return None;
            }
            let mut out = [0u8; 32];
            let mut i: usize = 0;
            while i < 32
                invariant
                    i <= 32,
                    bytes@.len() == 32,
                    out@.len() == 32,
                    forall|j: int| 0 <= j < i ==> out@[j] == bytes@[j],
                decreases 32 - i,
            {
                out[i] = bytes[i];
                i = i + 1;
            }
            assert(out@ =~= bytes@);
            Some(out)
        },
    }
}

/// The system clock's time, carried through opaque.
#[verifier::external_type_specification]
#[verifier::external_body]
pub struct ExSystemTime(std::time::SystemTime);

/// Calls `SystemTime::now`. Nothing is promised of the value: it is the
/// clock's reading.
#[verifier::external_body]
fn system_now() -> (r: std::time::SystemTime) {
    std::time::SystemTime::now()
}

/// Calls `SystemTime::duration_since` with `UNIX_EPOCH`, giving nothing
/// where the time is before the epoch. The time is opaque here, so nothing
/// is promised of the duration.
#[verifier::external_body]
fn since_epoch(time: std::time::SystemTime) -> (r: Option<core::time::Duration>) {
    match time.duration_since(std::time::UNIX_EPOCH) {
        Ok(d) => Some(d),
        Err(_) => None,
    }
}

/// Calls `Duration::as_secs`, the whole seconds of the duration. The
/// duration is opaque here, so nothing is promised of the count.
#[verifier::external_body]
fn whole_seconds(duration: core::time::Duration) -> (r: u64) {
    duration.as_secs()
}

/// Seconds since the epoch as a signed time: zero for a clock before the
/// epoch, saturating at `i64::MAX`.
pub fn unix_seconds(elapsed: Option<u64>) -> (r: i64)
    ensures
        r == match elapsed {
            Some(s) => if s > i64::MAX { i64::MAX as int } else { s as int },
            None => 0,
        },
{
    match elapsed {
        Some(s) => if s > i64::MAX as u64 {
            i64::MAX
        } else {
            s as i64
        },
        None => 0,
    }
}

/// The current time in seconds since the epoch; never negative.
pub fn now_unix() -> (r: i64)
    ensures
        r >= 0,
{
    let elapsed = match since_epoch(system_now()) {
        Some(d) => Some(whole_seconds(d)),
        None => None,
    };
    unix_seconds(elapsed)
}

/// However long a deposit asks to be kept, it is no longer delivered once
/// the maximum time-to-live has passed.
pub proof fn law_retention_capped(now_unix: i64, ttl_seconds: u64, max_ttl_seconds: u64, later: i64)
    requires
        max_ttl_seconds >= 1,
        later >= now_unix + max_ttl_seconds,
    ensures
        !live(expiry(now_unix, ttl_seconds, max_ttl_seconds), later),
{
}

/// A deposit is delivered at least until one second has passed, and, within
/// the maximum, for as long as it asked.
pub proof fn law_deposit_lives_its_ttl(now_unix: i64, ttl_seconds: u64, max_ttl_seconds: u64, later: i64)
    requires
        max_ttl_seconds >= 1,
        0 <= now_unix <= later < i64::MAX,
        later < now_unix + 1 || (later < now_unix + ttl_seconds && later < now_unix + max_ttl_seconds),
    ensures
        live(expiry(now_unix, ttl_seconds, max_ttl_seconds), later),
{
}

} // verus!
