//! Identity backups: the bytes of a profile sealed under a key that Argon2
//! derives from a passphrase, written as a magic header, the salt, the
//! nonce and the ciphertext.
use vstd::prelude::*;
use vstd::string::*;
use vstd::utf8::encode_utf8;
use crate::crypto::{open, seal, xchacha_open, xchacha_seal};
use crate::digest::{extend_bytes, random_bytes};

verus! {

/// The key Argon2id, with the crate's default parameters, derives from a
/// password and a salt into 32 bytes.
pub uninterp spec fn argon2_key(password: Seq<u8>, salt: Seq<u8>) -> Seq<u8>;

/// Calls `Argon2::default().hash_password_into` for a 32-byte key. With a
/// 16-byte salt and a 32-byte output the crate refuses only a password of
/// more than `0xFFFF_FFFF` bytes; the contract names the key.
#[verifier::external_body]
fn argon2_derive(password: &[u8], salt: &[u8; 16]) -> (r: Option<[u8; 32]>)
    ensures
        r is None <==> password@.len() > 0xFFFF_FFFF,
        r matches Some(k) ==> k@ == argon2_key(password@, salt@),
{
    let mut key = [0u8; 32];
    match argon2::Argon2::default().hash_password_into(password, salt, &mut key) {
        Ok(()) => Some(key),
        Err(_) => None,
    }
}

/// The fewest characters a backup passphrase may have.
pub const MIN_PASSPHRASE_CHARS: usize = 10;

/// The length of a backup's header: the magic, the salt and the nonce.
pub const BACKUP_HEADER_LEN: usize = 56;

/// Why a backup could not be written or read.
#[derive(Debug, Clone, Copy, PartialEq, Eq)]
pub enum BackupError {
    /// The passphrase has fewer than `MIN_PASSPHRASE_CHARS` characters.
    ShortPassphrase,
    /// The key could not be derived from the passphrase.
    KeyDerivation,
    /// The contents are too large to seal.
    Seal,
    /// The bytes are no backup of this format.
    Invalid,
    /// The passphrase is wrong or the backup is damaged.
    WrongPassphrase,
}

/// The bytes of `PPTALK-BACKUP-1` and a zero byte, which open every backup.
pub open spec fn backup_magic() -> Seq<u8> {
    seq![
        0x50u8, 0x50u8, 0x54u8, 0x41u8, 0x4cu8, 0x4bu8, 0x2du8, 0x42u8, 0x41u8, 0x43u8,
        0x4bu8, 0x55u8, 0x50u8, 0x2du8, 0x31u8, 0x00u8,
    ]
}

fn magic() -> (r: [u8; 16])
    ensures
        r@ == backup_magic(),
{
    let r: [u8; 16] = [0x50, 0x50, 0x54, 0x41, 0x4c, 0x4b, 0x2d, 0x42, 0x41, 0x43, 0x4b, 0x55, 0x50, 0x2d, 0x31, 0x00];
    assert(r@ =~= backup_magic());
    r
}

/// The key a passphrase gives with a salt, or why it gives none.
pub open spec fn backup_key_result(passphrase: Seq<char>, salt: Seq<u8>) -> Result<Seq<u8>, BackupError> {
    if passphrase.len() < MIN_PASSPHRASE_CHARS {
        Err(BackupError::ShortPassphrase)
    } else if encode_utf8(passphrase).len() > 0xFFFF_FFFF {
        Err(BackupError::KeyDerivation)
    } else {
        Ok(argon2_key(encode_utf8(passphrase), salt))
    }
}

/// The key that seals a backup under the passphrase and the salt.
pub fn backup_key(passphrase: &str, salt: &[u8; 16]) -> (r: Result<[u8; 32], BackupError>)
    ensures
        match backup_key_result(passphrase@, salt@) {
            Ok(k) => r matches Ok(x) && x@ == k,
            Err(e) => r == Err::<[u8; 32], BackupError>(e),
        },
{
    if passphrase.unicode_len() < MIN_PASSPHRASE_CHARS {
        return Err(BackupError::ShortPassphrase);
    }
    match argon2_derive(passphrase.as_bytes(), salt) {
        Some(key) => Ok(key),
        None => Err(BackupError::KeyDerivation),
    }
}

/// The bytes of a backup: the magic, the salt, the nonce, the ciphertext.
pub open spec fn backup_frame(salt: Seq<u8>, nonce: Seq<u8>, ciphertext: Seq<u8>) -> Seq<u8> {
    backup_magic() + salt + nonce + ciphertext
}

/// What a backup holds under the passphrase: refused as invalid where it is
/// too short for a header and a ciphertext or lacks the magic, then as the
/// key derivation refuses, and as a wrong passphrase where the ciphertext
/// does not open under the derived key.
pub open spec fn backup_contents(passphrase: Seq<char>, bytes: Seq<u8>) -> Result<Seq<u8>, BackupError> {
    if bytes.len() <= BACKUP_HEADER_LEN || bytes.take(16) != backup_magic() {
        Err(BackupError::Invalid)
    } else {
        match backup_key_result(passphrase, bytes.subrange(16, 32)) {
            Err(e) => Err(e),
            Ok(k) => match xchacha_open(k, bytes.subrange(32, 56), bytes.skip(56), Seq::empty()) {
                Some(p) => Ok(p),
                None => Err(BackupError::WrongPassphrase),
            },
        }
    }
}

/// Seals `plaintext` under the passphrase with the given salt and nonce,
/// and frames it. Whatever it writes opens again under the same passphrase
/// to `plaintext`.
pub fn seal_backup(passphrase: &str, salt: &[u8; 16], nonce: &[u8; 24], plaintext: &[u8]) -> (r: Result<
    Vec<u8>,
    BackupError,
>)
    ensures
        match backup_key_result(passphrase@, salt@) {
            Err(e) => r == Err::<Vec<u8>, BackupError>(e),
            Ok(k) => if plaintext@.len() / 64 < u32::MAX {
                r matches Ok(b) && b@ == backup_frame(salt@, nonce@, xchacha_seal(k, nonce@, plaintext@, Seq::empty()))
            } else {
                r == Err::<Vec<u8>, BackupError>(BackupError::Seal)
            },
        },
        r matches Ok(b) ==> b@.len() == BACKUP_HEADER_LEN + plaintext@.len() + 16 && b@.take(16) == backup_magic(),
        r matches Ok(b) ==> backup_contents(passphrase@, b@) == Ok::<Seq<u8>, BackupError>(plaintext@),
{
    let key = match backup_key(passphrase, salt) {
        Ok(k) => k,
        Err(e) => {
            return Err(e);
        },
    };
    let no_aad: [u8; 0] = [];
    assert(no_aad@ =~= Seq::<u8>::empty());
    let ciphertext = match seal(&key, nonce, plaintext, &no_aad) {
        Some(c) => c,
        None => {
            return Err(BackupError::Seal);
        },
    };
    let header = magic();
    let mut out: Vec<u8> = Vec::new();
    extend_bytes(&mut out, &header);
    extend_bytes(&mut out, salt);
    extend_bytes(&mut out, nonce);
    extend_bytes(&mut out, ciphertext.as_slice());
    proof {
        let b = out@;
        assert(b =~= backup_frame(salt@, nonce@, ciphertext@));
        assert(b.take(16) =~= backup_magic());
        assert(b.subrange(16, 32) =~= salt@);
        assert(b.subrange(32, 56) =~= nonce@);
        assert(b.skip(56) =~= ciphertext@);
    }
    Ok(out)
}

/// Writes a backup of `plaintext` under the passphrase, with a fresh random
/// salt and nonce. It succeeds unless the passphrase is too short, the key
/// cannot be derived, or the contents are too large to seal; what it writes
/// starts with the magic and opens again under the same passphrase to
/// `plaintext`.
pub fn export_backup(passphrase: &str, plaintext: &[u8]) -> (r: Result<Vec<u8>, BackupError>)
    ensures
        passphrase@.len() < MIN_PASSPHRASE_CHARS ==> r == Err::<Vec<u8>, BackupError>(BackupError::ShortPassphrase),
        passphrase@.len() >= MIN_PASSPHRASE_CHARS && encode_utf8(passphrase@).len() > 0xFFFF_FFFF ==> r == Err::<
            Vec<u8>,
            BackupError,
        >(BackupError::KeyDerivation),
        passphrase@.len() >= MIN_PASSPHRASE_CHARS && encode_utf8(passphrase@).len() <= 0xFFFF_FFFF ==> (r is Ok
            <==> plaintext@.len() / 64 < u32::MAX),
        r is Err ==> r == Err::<Vec<u8>, BackupError>(BackupError::ShortPassphrase) || r == Err::<
            Vec<u8>,
            BackupError,
        >(BackupError::KeyDerivation) || r == Err::<Vec<u8>, BackupError>(BackupError::Seal),
        r matches Ok(b) ==> b@.len() == BACKUP_HEADER_LEN + plaintext@.len() + 16 && b@.take(16) == backup_magic(),
        r matches Ok(b) ==> backup_contents(passphrase@, b@) == Ok::<Seq<u8>, BackupError>(plaintext@),
{
    let salt: [u8; 16] = random_bytes::<16>();
    let nonce: [u8; 24] = random_bytes::<24>();
    seal_backup(passphrase, &salt, &nonce, plaintext)
}

/// Reads a backup under the passphrase.
pub fn open_backup(passphrase: &str, bytes: &[u8]) -> (r: Result<Vec<u8>, BackupError>)
    ensures
        match backup_contents(passphrase@, bytes@) {
            Ok(p) => r matches Ok(v) && v@ == p,
            Err(e) => r == Err::<Vec<u8>, BackupError>(e),
        },
{
    if bytes.len() <= BACKUP_HEADER_LEN {
        return Err(BackupError::Invalid);
    }
    let header = magic();
    let mut i: usize = 0;
    while i < 16
        invariant
            i <= 16,
            bytes@.len() > BACKUP_HEADER_LEN,
            header@ == backup_magic(),
            forall|j: int| 0 <= j < i ==> bytes@[j] == header@[j],
        decreases 16 - i,
    {
        if bytes[i] != header[i] {
            assert(bytes@.take(16)[i as int] != backup_magic()[i as int]);
            return Err(BackupError::Invalid);
        }
        i = i + 1;
    }
    assert(bytes@.take(16) =~= backup_magic());
    let mut salt: [u8; 16] = [0u8; 16];
    let mut k: usize = 0;
    while k < 16
        invariant
            k <= 16,
            bytes@.len() > BACKUP_HEADER_LEN,
            forall|j: int| 0 <= j < k ==> salt@[j] == bytes@[16 + j],
        decreases 16 - k,
    {
        salt[k] = bytes[16 + k];
        k = k + 1;
    }
    assert(salt@ =~= bytes@.subrange(16, 32));
    let mut nonce: [u8; 24] = [0u8; 24];
    let mut n: usize = 0;
    while n < 24
        invariant
            n <= 24,
            bytes@.len() > BACKUP_HEADER_LEN,
            forall|j: int| 0 <= j < n ==> nonce@[j] == bytes@[32 + j],
        decreases 24 - n,
    {
        nonce[n] = bytes[32 + n];
        n = n + 1;
    }
    assert(nonce@ =~= bytes@.subrange(32, 56));
    let mut ciphertext: Vec<u8> = Vec::new();
    let mut c: usize = BACKUP_HEADER_LEN;
    while c < bytes.len()
        invariant
            BACKUP_HEADER_LEN <= c <= bytes@.len(),
            ciphertext@ == bytes@.subrange(BACKUP_HEADER_LEN as int, c as int),
        decreases bytes@.len() - c,
    {
        ciphertext.push(bytes[c]);
        assert(bytes@.subrange(BACKUP_HEADER_LEN as int, c + 1) =~= bytes@.subrange(BACKUP_HEADER_LEN as int, c as int).push(
            bytes@[c as int],
        ));
        c = c + 1;
    }
    assert(ciphertext@ =~= bytes@.skip(56));
    let key = match backup_key(passphrase, &salt) {
        Ok(key) => key,
        Err(e) => {
            return Err(e);
        },
    };
    let no_aad: [u8; 0] = [];
    assert(no_aad@ =~= Seq::<u8>::empty());
    match open(&key, &nonce, ciphertext.as_slice(), &no_aad) {
        Some(p) => Ok(p),
        None => Err(BackupError::WrongPassphrase),
    }
}

/// A backup opens under the passphrase it was sealed with to the contents
/// it was sealed from, whatever the salt and nonce.
pub proof fn law_backup_round_trip(
    passphrase: Seq<char>,
    salt: Seq<u8>,
    nonce: Seq<u8>,
    plaintext: Seq<u8>,
    key: Seq<u8>,
)
    requires
        salt.len() == 16,
        nonce.len() == 24,
        backup_key_result(passphrase, salt) == Ok::<Seq<u8>, BackupError>(key),
        xchacha_open(key, nonce, xchacha_seal(key, nonce, plaintext, Seq::empty()), Seq::empty()) == Some(plaintext),
        xchacha_seal(key, nonce, plaintext, Seq::empty()).len() > 0,
    ensures
        backup_contents(passphrase, backup_frame(salt, nonce, xchacha_seal(key, nonce, plaintext, Seq::empty())))
            == Ok::<Seq<u8>, BackupError>(plaintext),
{
    let c = xchacha_seal(key, nonce, plaintext, Seq::empty());
    let b = backup_frame(salt, nonce, c);
    assert(b.take(16) =~= backup_magic());
    assert(b.subrange(16, 32) =~= salt);
    assert(b.subrange(32, 56) =~= nonce);
    assert(b.skip(56) =~= c);
}

} // verus!
