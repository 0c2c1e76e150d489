use secapp::crypto::{derive_master_key, generate_file_key, generate_salt, wrap_file_key, EncryptedFileKey, KeySalt};
use secapp::db::{Database, DbError};
use secapp::hex;

const T0: &str = "2024-01-01 00:00:00";
const T1: &str = "2024-01-01 00:00:01";
const T2: &str = "2024-01-01 00:00:02";

fn sample_key() -> EncryptedFileKey {
    EncryptedFileKey { encrypted_key: "00ff".to_string(), nonce: "0102".to_string() }
}

#[test]
fn test_database_open_and_migrate() {
    let db = Database::new();
    // Should have created all tables
    let files = db.list_protected_files();
    assert!(files.is_empty());
}

#[test]
fn test_protected_file_crud() {
    let mut db = Database::new();
    let salt = generate_salt().unwrap();
    let master_key = derive_master_key("test", &salt, 1024, 1, 1).unwrap();
    let file_key = generate_file_key().unwrap();
    let wrapped = wrap_file_key(&master_key, &file_key).unwrap();

    let id = db
        .add_protected_file("/home/user/.ssh/id_rsa", &wrapped, "abc123", "def456", 1000, 1028, true, T0)
        .unwrap();
    assert!(id > 0);

    let file = db.get_protected_file("/home/user/.ssh/id_rsa").unwrap();
    assert_eq!(file.path, "/home/user/.ssh/id_rsa");
    assert_eq!(file.original_size, 1000);
    assert!(file.is_encrypted);

    let files = db.list_protected_files();
    assert_eq!(files.len(), 1);

    assert!(db.remove_protected_file("/home/user/.ssh/id_rsa"));
    assert!(db.get_protected_file("/home/user/.ssh/id_rsa").is_none());
}

#[test]
fn test_access_log_crud() {
    let mut db = Database::new();

    let id = db
        .log_access("/home/user/.ssh/id_rsa", 12345, "ssh-agent", "/usr/bin/ssh-agent", "read", true, T0)
        .unwrap();
    assert!(id > 0);

    let logs = db.list_access_logs(10);
    assert_eq!(logs.len(), 1);
    assert_eq!(logs[0].process_name, "ssh-agent");
    assert!(logs[0].allowed);

    let path_logs = db.list_access_logs_for_path("/home/user/.ssh/id_rsa", 10);
    assert_eq!(path_logs.len(), 1);
}

#[test]
fn test_policy_crud() {
    let mut db = Database::new();

    let id = db.add_policy("/home/user/.ssh/*", "*", "allow", 10, T0).unwrap();
    assert!(id > 0);

    let id2 = db.add_policy("/home/user/.ssh/*", "malware", "deny", 20, T0).unwrap();
    assert!(id2 > 0);

    // Higher priority policy wins
    let policy = db.get_policy("/home/user/.ssh/id_rsa", "malware").unwrap();
    assert_eq!(policy.action, "deny");
    assert_eq!(policy.priority, 20);

    let policies = db.list_policies();
    assert_eq!(policies.len(), 2);

    assert!(db.remove_policy(id));
    assert!(db.remove_policy(id2));
}

#[test]
fn test_key_salt_roundtrip() {
    let mut db = Database::new();
    let salt = KeySalt { salt: hex::encode(&generate_salt().unwrap()) };

    db.store_key_salt(&salt, T0).unwrap();
    let loaded = db.get_key_salt().unwrap();
    assert_eq!(salt.salt, loaded.salt);
}

// ---------------------------------------------------------------------------

#[test]
fn files_are_listed_by_path_and_rewritten_in_place() {
    let mut db = Database::new();
    let k = sample_key();
    let a = db.add_protected_file("/b", &k, "h1", "e1", 1, 29, true, T0).unwrap();
    let b = db.add_protected_file("/a", &k, "h2", "e2", 2, 30, true, T1).unwrap();
    assert_eq!((a, b), (1, 2));
    let paths: Vec<String> = db.list_protected_files().into_iter().map(|f| f.path).collect();
    assert_eq!(paths, vec!["/a".to_string(), "/b".to_string()]);

    // Rewriting "/b" keeps its id and creation time; the id returned is the
    // one of the latest insert.
    let r = db.add_protected_file("/b", &k, "h3", "e3", 3, 31, false, T2).unwrap();
    assert_eq!(r, 2);
    let f = db.get_protected_file("/b").unwrap();
    assert_eq!(f.id, 1);
    assert_eq!(f.created_at, T0);
    assert_eq!(f.modified_at, T2);
    assert_eq!(f.original_hash, "h3");
    assert_eq!(f.encrypted_key, "00ff");
    assert_eq!(f.key_nonce, "0102");
    assert!(!f.is_encrypted);
    assert_eq!(db.list_protected_files().len(), 2);

    // A new file after that gets the next id.
    assert_eq!(db.add_protected_file("/c", &k, "h", "e", 0, 28, true, T2).unwrap(), 3);
    assert!(!db.remove_protected_file("/nope"));
}

#[test]
fn marking_a_file_encrypted() {
    let mut db = Database::new();
    let k = sample_key();
    db.add_protected_file("/f", &k, "h", "e", 5, 33, false, T0).unwrap();
    db.set_file_encrypted("/f", true, T1);
    let f = db.get_protected_file("/f").unwrap();
    assert!(f.is_encrypted);
    assert_eq!(f.modified_at, T1);
    assert_eq!(f.created_at, T0);
    // An unknown path changes nothing.
    db.set_file_encrypted("/g", true, T2);
    assert_eq!(db.list_protected_files().len(), 1);
}

#[test]
fn logs_come_newest_first_and_respect_limits() {
    let mut db = Database::new();
    db.log_access("/x", 1, "p1", "c1", "read", true, T0).unwrap();
    db.log_access("/y", 2, "p2", "c2", "write", false, T2).unwrap();
    db.log_access("/x", 3, "p3", "c3", "read", true, T1).unwrap();
    db.log_access("/x", 4, "p4", "c4", "read", true, T1).unwrap();

    let all: Vec<i64> = db.list_access_logs(-1).into_iter().map(|l| l.process_pid).collect();
    // Newest first; entries logged at the same time, latest id first.
    assert_eq!(all, vec![2, 4, 3, 1]);
    assert_eq!(db.list_access_logs(2).len(), 2);
    assert_eq!(db.list_access_logs(0).len(), 0);
    assert_eq!(db.list_access_logs(100).len(), 4);

    let for_x: Vec<i64> = db.list_access_logs_for_path("/x", -5).into_iter().map(|l| l.process_pid).collect();
    assert_eq!(for_x, vec![4, 3, 1]);
    let first_x: Vec<i64> = db.list_access_logs_for_path("/x", 1).into_iter().map(|l| l.process_pid).collect();
    assert_eq!(first_x, vec![4]);
    assert!(db.list_access_logs_for_path("/z", 10).is_empty());

    let l = &db.list_access_logs(1)[0];
    assert_eq!(l.file_path, "/y");
    assert_eq!(l.process_cmdline, "c2");
    assert_eq!(l.action, "write");
    assert!(!l.allowed);
    assert_eq!(l.timestamp, T2);
}

#[test]
fn policy_actions_are_checked() {
    let mut db = Database::new();
    assert_eq!(db.add_policy("/a/*", "*", "permit", 1, T0), Err(DbError::InvalidAction));
    assert!(db.list_policies().is_empty());
    assert_eq!(db.add_policy("/a/*", "*", "log", 1, T0), Ok(1));
    // A refused policy uses up no id.
    assert_eq!(db.add_policy("/a/*", "*", "allow", 1, T0), Ok(2));
}

#[test]
fn policies_by_priority_then_id() {
    let mut db = Database::new();
    let low = db.add_policy("/data/*", "*", "log", 1, T0).unwrap();
    let high = db.add_policy("/data/secret*", "*", "deny", 9, T0).unwrap();
    let tie = db.add_policy("/data/*", "backup", "allow", 1, T0).unwrap();
    let order: Vec<i64> = db.list_policies().into_iter().map(|p| p.id).collect();
    assert_eq!(order, vec![high, low, tie]);

    // The first applicable policy in that order governs.
    assert_eq!(db.get_policy("/data/secret.txt", "backup").unwrap().id, high);
    assert_eq!(db.get_policy("/data/public.txt", "backup").unwrap().id, low);
    assert!(db.get_policy("/other/file", "backup").is_none());

    assert!(db.remove_policy(low));
    assert!(!db.remove_policy(low));
    assert_eq!(db.get_policy("/data/public.txt", "backup").unwrap().id, tie);
    assert!(db.get_policy("/data/public.txt", "cron").is_none());
}

#[test]
fn a_stored_salt_replaces_the_earlier_one() {
    let mut db = Database::new();
    assert!(db.get_key_salt().is_none());
    let first = db.store_key_salt(&KeySalt { salt: "aa".to_string() }, T0).unwrap();
    let second = db.store_key_salt(&KeySalt { salt: "bb".to_string() }, T1).unwrap();
    assert_eq!((first, second), (1, 2));
    assert_eq!(db.get_key_salt().unwrap().salt, "bb");
}

#[test]
fn stored_rows_restore_the_tables() {
    let mut db = Database::new();
    let k = sample_key();
    db.add_protected_file("/b", &k, "h", "e", 1, 29, true, T0).unwrap();
    db.add_protected_file("/a", &k, "h", "e", 2, 30, true, T0).unwrap();
    db.remove_protected_file("/b");
    db.log_access("/a", 1, "p", "c", "read", true, T1).unwrap();
    db.add_policy("/a", "*", "deny", 3, T0).unwrap();
    db.store_key_salt(&KeySalt { salt: "ab".to_string() }, T0).unwrap();
    let (fs, ls, ps, ks) = db.sequences();
    assert_eq!((fs, ls, ps, ks), (2, 1, 1, 1));

    let mut again = Database::restore(
        db.list_protected_files(),
        fs,
        db.list_access_logs(-1),
        ls,
        db.list_policies(),
        ps,
        db.key_metadata(),
        ks,
    )
    .unwrap();
    assert_eq!(again.list_protected_files().len(), 1);
    assert_eq!(again.get_protected_file("/a").unwrap().id, 2);
    assert_eq!(again.get_key_salt().unwrap().salt, "ab");
    assert_eq!(again.key_metadata()[0].created_at, T0);
    // Ids keep counting from where the stored tables left off.
    assert_eq!(again.add_protected_file("/c", &k, "h", "e", 0, 28, true, T1).unwrap(), 3);
    assert_eq!(again.add_policy("/c", "*", "log", 0, T1).unwrap(), 2);
}

#[test]
fn rows_that_break_the_rules_are_refused() {
    let mut db = Database::new();
    let k = sample_key();
    db.add_protected_file("/a", &k, "h", "e", 1, 29, true, T0).unwrap();
    db.add_protected_file("/b", &k, "h", "e", 1, 29, true, T0).unwrap();
    let mut files = db.list_protected_files();
    files.reverse();
    let r = Database::restore(files, 2, Vec::new(), 0, Vec::new(), 0, Vec::new(), 0);
    assert_eq!(r.err(), Some(DbError::InvalidRows));
    // An id beyond the table's sequence.
    let r = Database::restore(db.list_protected_files(), 1, Vec::new(), 0, Vec::new(), 0, Vec::new(), 0);
    assert_eq!(r.err(), Some(DbError::InvalidRows));
    // Two policies with one id.
    db.add_policy("/x", "*", "deny", 5, T0).unwrap();
    db.add_policy("/y", "*", "deny", 1, T0).unwrap();
    let mut ps = db.list_policies();
    ps[1].id = ps[0].id;
    let r = Database::restore(Vec::new(), 0, Vec::new(), 0, ps, 2, Vec::new(), 0);
    assert_eq!(r.err(), Some(DbError::InvalidRows));
    // An unknown action.
    let mut ps = db.list_policies();
    ps[0].action = "maybe".to_string();
    let r = Database::restore(Vec::new(), 0, Vec::new(), 0, ps, 2, Vec::new(), 0);
    assert_eq!(r.err(), Some(DbError::InvalidRows));
    assert!(Database::restore(Vec::new(), 0, Vec::new(), 0, db.list_policies(), 2, Vec::new(), 0).is_ok());
}
