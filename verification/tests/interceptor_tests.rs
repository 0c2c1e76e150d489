use secapp::config::Config;
use secapp::crypto::{decrypt_file, sha256_hash, CryptoError, EncryptedFileKey, MasterKey};
use secapp::db::Database;
use secapp::hex;
use secapp::interceptor::{
    convert_event, encrypted_path_for, is_sealed_copy, open_sealed_file, prepare_decryption,
    record_deletion, record_encryption, seal_file_with, seal_new_contents, EventStep, FileEvent,
    FileEventKind, InterceptError, Interceptor, WatchEventKind,
};

const T0: &str = "2024-02-02 10:00:00";
const T1: &str = "2024-02-02 10:00:05";

fn master() -> MasterKey {
    MasterKey { key: [0x11u8; 32] }
}

#[test]
fn event_kind_names() {
    assert_eq!(FileEventKind::Created.as_str(), "Created");
    assert_eq!(FileEventKind::Modified.as_str(), "Modified");
    assert_eq!(FileEventKind::Deleted.as_str(), "Deleted");
}

#[test]
fn watcher_events_are_converted() {
    let paths = vec!["/a".to_string(), "/b".to_string()];
    let e = convert_event(WatchEventKind::Create, &paths).unwrap();
    assert_eq!(e.path, "/a");
    assert_eq!(e.kind, FileEventKind::Created);
    assert_eq!(convert_event(WatchEventKind::Modify, &paths).unwrap().kind, FileEventKind::Modified);
    assert_eq!(convert_event(WatchEventKind::Remove, &paths).unwrap().kind, FileEventKind::Deleted);
    assert!(convert_event(WatchEventKind::Other, &paths).is_none());
    assert!(convert_event(WatchEventKind::Create, &Vec::new()).is_none());
}

#[test]
fn sealed_copies_get_a_secapp_extension() {
    assert_eq!(encrypted_path_for("/home/u/.ssh/id_rsa.pub"), "/home/u/.ssh/id_rsa.pub.secapp");
    assert_eq!(encrypted_path_for("/home/u/.ssh/config"), "/home/u/.ssh/config..secapp");
    assert!(is_sealed_copy("/home/u/.ssh/config..secapp"));
    assert!(is_sealed_copy("/x/y.secapp"));
    assert!(!is_sealed_copy("/x/y.secapp.bak"));
    assert!(!is_sealed_copy("/x/.secapp"));
}

#[test]
fn events_are_taken_up_once_and_only_when_protected() {
    let config = Config::for_home("/home/u");
    let mut i = Interceptor::new(&config);
    assert!(i.is_protected("/home/u/.ssh/id_rsa"));
    assert!(!i.is_protected("/home/u/.sshx/id_rsa"));
    assert!(!i.is_protected("/etc/passwd"));

    let created = FileEvent { path: "/home/u/.ssh/id_rsa".to_string(), kind: FileEventKind::Created };
    assert_eq!(i.begin_event(&created), EventStep::Encrypt);
    assert!(i.is_processing("/home/u/.ssh/id_rsa"));
    // The interceptor's own writes to the same file are not taken up again.
    let again = FileEvent { path: "/home/u/.ssh//id_rsa".to_string(), kind: FileEventKind::Modified };
    assert_eq!(i.begin_event(&again), EventStep::Skip);
    i.end_event("/home/u/.ssh/id_rsa");
    assert!(!i.is_processing("/home/u/.ssh/id_rsa"));

    let deleted = FileEvent { path: "/home/u/.gnupg/k".to_string(), kind: FileEventKind::Deleted };
    assert_eq!(i.begin_event(&deleted), EventStep::Delete);
    let outside = FileEvent { path: "/tmp/x".to_string(), kind: FileEventKind::Created };
    assert_eq!(i.begin_event(&outside), EventStep::Skip);
    assert!(!i.is_processing("/tmp/x"));
}

#[test]
fn sealing_with_given_key_and_nonces() {
    let m = master();
    let file_key = [0x22u8; 32];
    let wrap_nonce = [0x33u8; 12];
    let nonce = [0x44u8; 12];
    let s = seal_file_with(&m, "/d/secret.txt", b"top secret", &file_key, &wrap_nonce, &nonce).unwrap();
    assert_eq!(s.encrypted_path, "/d/secret.txt.secapp");
    assert_eq!(s.original_size, 10);
    assert_eq!(s.encrypted_size, 38);
    assert_eq!(s.ciphertext.len(), 38);
    assert_eq!(&s.ciphertext[..12], &nonce);
    assert_eq!(s.original_hash, hex::encode(&sha256_hash(b"top secret")));
    assert_eq!(s.encrypted_hash, hex::encode(&sha256_hash(&s.ciphertext)));
    assert_eq!(s.encrypted_key.nonce, hex::encode(&wrap_nonce));
    assert_eq!(decrypt_file(&s.ciphertext, &file_key).unwrap(), b"top secret".to_vec());
}

#[test]
fn new_contents_are_sealed_only_when_they_should_be() {
    let m = master();
    let mut db = Database::new();
    // Empty file: nothing.
    assert!(seal_new_contents(Some(&m), "/p/f", b"").unwrap().is_none());
    // Locked: nothing.
    assert!(seal_new_contents(None, "/p/f", b"data").unwrap().is_none());
    // A sealed copy is not sealed again.
    assert!(seal_new_contents(Some(&m), "/p/f..secapp", b"data").unwrap().is_none());
    // Unlocked: sealed.
    let s = seal_new_contents(Some(&m), "/p/f", b"data").unwrap().unwrap();
    assert_eq!(s.original_size, 4);
    record_encryption(&mut db, "/p/f", &s, 77, T0).unwrap();
    // Rewritten after it was sealed: sealed again, and the record follows.
    let again = seal_new_contents(Some(&m), "/p/f", b"new data").unwrap().unwrap();
    assert_eq!(again.original_size, 8);
    record_encryption(&mut db, "/p/f", &again, 77, T1).unwrap();
    let row = db.get_protected_file("/p/f").unwrap();
    assert_eq!(row.id, 1);
    assert_eq!(row.created_at, T0);
    assert_eq!(row.modified_at, T1);
    assert_eq!(row.original_size, 8);
    assert_eq!(row.original_hash, again.original_hash);
    assert!(row.is_encrypted);
    assert_eq!(db.list_protected_files().len(), 1);
    assert_eq!(db.list_access_logs(-1).len(), 2);
}

#[test]
fn recording_fails_only_when_a_table_is_full() {
    let m = master();
    let s = seal_file_with(&m, "/p/a", b"abc", &[1u8; 32], &[2u8; 12], &[3u8; 12]).unwrap();
    let full_logs = Database::restore(Vec::new(), 0, Vec::new(), i64::MAX, Vec::new(), 0, Vec::new(), 0).unwrap();
    let mut db = full_logs;
    assert_eq!(
        record_encryption(&mut db, "/p/a", &s, 1, T0),
        Err(InterceptError::Db(secapp::db::DbError::TableFull))
    );
    assert!(db.list_access_logs(-1).is_empty());
    let mut db = Database::restore(Vec::new(), i64::MAX, Vec::new(), 0, Vec::new(), 0, Vec::new(), 0).unwrap();
    assert_eq!(
        record_encryption(&mut db, "/p/a", &s, 1, T0),
        Err(InterceptError::Db(secapp::db::DbError::TableFull))
    );
    assert!(db.list_protected_files().is_empty());
    let mut db = Database::new();
    assert_eq!(record_encryption(&mut db, "/p/a", &s, 1, T0), Ok(()));
    assert_eq!(db.sequences(), (1, 1, 0, 0));
}

#[test]
fn a_recorded_file_opens_to_its_contents() {
    let m = master();
    let mut db = Database::new();
    let s = seal_file_with(&m, "/p/notes", b"hello world", &[5u8; 32], &[6u8; 12], &[7u8; 12]).unwrap();
    record_encryption(&mut db, "/p/notes", &s, 100, T0).unwrap();

    let row = db.get_protected_file("/p/notes").unwrap();
    assert!(row.is_encrypted);
    assert_eq!(row.original_size, 11);
    assert_eq!(row.original_hash, s.original_hash);
    let logs = db.list_access_logs(-1);
    assert_eq!(logs.len(), 1);
    assert_eq!(logs[0].process_name, "secapp-daemon");
    assert_eq!(logs[0].action, "encrypt");
    assert_eq!(logs[0].process_pid, 100);

    let plan = prepare_decryption(&db, Some(&m), "/p/notes").unwrap();
    assert_eq!(plan.file_key, [5u8; 32]);
    assert_eq!(plan.encrypted_path, "/p/notes..secapp");
    let opened = open_sealed_file(&mut db, "/p/notes", &plan, &s.ciphertext, 100, T1).unwrap();
    assert_eq!(opened.plaintext, b"hello world".to_vec());
    assert!(opened.hash_matches);
    let logs = db.list_access_logs(-1);
    assert_eq!(logs.len(), 2);
    assert_eq!(logs[0].action, "decrypt");

    // Altered sealed bytes are refused and logged nowhere.
    let mut bad = s.ciphertext.clone();
    bad[20] ^= 1;
    assert_eq!(
        open_sealed_file(&mut db, "/p/notes", &plan, &bad, 100, T1).err(),
        Some(InterceptError::Crypto(CryptoError::DecryptionFailed))
    );
    assert_eq!(db.list_access_logs(-1).len(), 2);
}

#[test]
fn opening_is_refused_for_the_reasons_it_should_be() {
    let m = master();
    let mut db = Database::new();
    assert_eq!(prepare_decryption(&db, Some(&m), "/none").err(), Some(InterceptError::NotTracked));
    let k = EncryptedFileKey { encrypted_key: "00".to_string(), nonce: "00".to_string() };
    db.add_protected_file("/plain", &k, "h", "e", 1, 29, false, T0).unwrap();
    assert_eq!(prepare_decryption(&db, Some(&m), "/plain").err(), Some(InterceptError::NotEncrypted));
    db.set_file_encrypted("/plain", true, T1);
    assert_eq!(prepare_decryption(&db, None, "/plain").err(), Some(InterceptError::NoMasterKey));
    assert_eq!(
        prepare_decryption(&db, Some(&m), "/plain").err(),
        Some(InterceptError::Crypto(CryptoError::InvalidNonceLength))
    );
    // A key wrapped under another master key does not unwrap.
    let s = seal_file_with(&MasterKey { key: [9u8; 32] }, "/q", b"x", &[1u8; 32], &[2u8; 12], &[3u8; 12]).unwrap();
    record_encryption(&mut db, "/q", &s, 1, T0).unwrap();
    assert_eq!(
        prepare_decryption(&db, Some(&m), "/q").err(),
        Some(InterceptError::Crypto(CryptoError::KeyUnwrapFailed))
    );
}

#[test]
fn deletions_forget_the_file() {
    let m = master();
    let mut db = Database::new();
    let s = seal_file_with(&m, "/p/gone", b"bye", &[1u8; 32], &[2u8; 12], &[3u8; 12]).unwrap();
    record_encryption(&mut db, "/p/gone", &s, 5, T0).unwrap();
    assert!(record_deletion(&mut db, "/p/gone"));
    assert!(db.get_protected_file("/p/gone").is_none());
    assert!(!record_deletion(&mut db, "/p/gone"));
}

#[test]
fn deletion_keeps_the_other_records() {
    let m = master();
    let mut db = Database::new();
    for p in ["/p/a", "/p/b", "/p/c"] {
        let s = seal_file_with(&m, p, b"x", &[1u8; 32], &[2u8; 12], &[3u8; 12]).unwrap();
        record_encryption(&mut db, p, &s, 5, T0).unwrap();
    }
    assert!(record_deletion(&mut db, "/p/b"));
    let paths: Vec<String> = db.list_protected_files().into_iter().map(|f| f.path).collect();
    assert_eq!(paths, vec!["/p/a".to_string(), "/p/c".to_string()]);
}

#[test]
fn sealed_copies_are_28_bytes_longer() {
    let s = seal_file_with(&master(), "/t/a.txt", b"abc", &[7u8; 32], &[1u8; 12], &[2u8; 12]).unwrap();
    assert_eq!(s.ciphertext.len(), 31);
    assert_eq!(s.encrypted_size, 31);
    assert_eq!(s.encrypted_path, "/t/a.txt.secapp");
    assert_eq!(s.original_hash, "ba7816bf8f01cfea414140de5dae2223b00361a396177a9cb410ff61f20015ad");
}
