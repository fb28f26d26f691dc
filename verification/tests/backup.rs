use pptalk::backup::{
    backup_key, export_backup, open_backup, seal_backup, BackupError, BACKUP_HEADER_LEN,
};

const MAGIC: &[u8] = b"PPTALK-BACKUP-1\0";

#[test]
fn encrypted_identity_backup_restores_without_exposing_plaintext() {
    let profile = br#"{"name":"Alice Backup","version":1}"#.to_vec();
    let bytes = export_backup("correct horse battery", &profile).expect("export backup");
    assert!(bytes.starts_with(MAGIC));
    assert!(!String::from_utf8_lossy(&bytes).contains("Alice Backup"));
    assert!(open_backup("wrong passphrase", &bytes).is_err());
    let restored = open_backup("correct horse battery", &bytes).expect("restore backup");
    assert_eq!(restored, profile);
}

#[test]
fn backup_passphrases_need_ten_characters() {
    assert!(matches!(export_backup("short", b"x"), Err(BackupError::ShortPassphrase)));
    assert!(matches!(backup_key("123456789", &[0; 16]), Err(BackupError::ShortPassphrase)));
    assert!(backup_key("éééééééééé", &[0; 16]).is_ok());
    assert_eq!(
        backup_key("correct horse battery", &[1; 16]).expect("key"),
        backup_key("correct horse battery", &[1; 16]).expect("key")
    );
    assert_ne!(
        backup_key("correct horse battery", &[1; 16]).expect("key"),
        backup_key("correct horse battery", &[2; 16]).expect("key")
    );
}

#[test]
fn backup_layout_is_magic_salt_nonce_ciphertext() {
    let sealed = seal_backup("correct horse battery", &[7; 16], &[9; 24], b"hello").expect("seal");
    assert_eq!(sealed.len(), BACKUP_HEADER_LEN + 5 + 16);
    assert_eq!(&sealed[..16], MAGIC);
    assert_eq!(&sealed[16..32], &[7; 16]);
    assert_eq!(&sealed[32..56], &[9; 24]);
    assert_eq!(open_backup("correct horse battery", &sealed).expect("open"), b"hello");
}

#[test]
fn damaged_or_foreign_backups_are_refused() {
    let sealed = seal_backup("correct horse battery", &[7; 16], &[9; 24], b"hello").expect("seal");
    assert!(matches!(open_backup("correct horse battery", &sealed[..BACKUP_HEADER_LEN]), Err(BackupError::Invalid)));
    let mut foreign = sealed.clone();
    foreign[0] = b'X';
    assert!(matches!(open_backup("correct horse battery", &foreign), Err(BackupError::Invalid)));
    let mut damaged = sealed.clone();
    let last = damaged.len() - 1;
    damaged[last] ^= 1;
    assert!(matches!(open_backup("correct horse battery", &damaged), Err(BackupError::WrongPassphrase)));
    assert!(matches!(open_backup("short", &sealed), Err(BackupError::ShortPassphrase)));
}
