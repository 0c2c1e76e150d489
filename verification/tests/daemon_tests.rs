use secapp::config::Config;
use secapp::crypto::{derive_master_key, CryptoError, KeySalt};
use secapp::daemon::{parse_pid, Daemon, DaemonError, PidFile};
use secapp::db::Database;
use secapp::hex::{self, HexError};

const NOW: &str = "2024-05-01 12:00:00";

fn light_config() -> Config {
    let mut c = Config::for_home("/home/test");
    c.encryption.memory_cost = 1024;
    c.encryption.time_cost = 1;
    c.encryption.parallelism = 1;
    c
}

#[test]
fn pid_text_is_read_like_str_parse() {
    assert_eq!(parse_pid("1234\n"), Some(1234));
    assert_eq!(parse_pid("  42  "), Some(42));
    assert_eq!(parse_pid("+7"), Some(7));
    assert_eq!(parse_pid("-7"), Some(-7));
    assert_eq!(parse_pid("2147483647"), Some(i32::MAX));
    assert_eq!(parse_pid("-2147483648"), Some(i32::MIN));
    assert_eq!(parse_pid("2147483648"), None);
    assert_eq!(parse_pid(""), None);
    assert_eq!(parse_pid("   "), None);
    assert_eq!(parse_pid("+"), None);
    assert_eq!(parse_pid("12a"), None);
    assert_eq!(parse_pid("1 2"), None);
    assert_eq!(parse_pid("\u{3000}99\u{2029}"), Some(99));
}

#[test]
fn pid_file_keeps_its_path() {
    let p = PidFile::new("/run/secapp.pid".to_string());
    assert_eq!(p.path(), "/run/secapp.pid");
}

#[test]
fn a_new_daemon_is_locked() {
    let d = Daemon::new(light_config(), Database::new());
    assert!(!d.is_unlocked());
    assert_eq!(d.check_unlocked(), Err(DaemonError::Locked));
    assert!(d.master_key().is_none());
    assert_eq!(d.config().protected_paths.len(), 4);
    assert!(d.db().list_protected_files().is_empty());
}

#[test]
fn first_unlock_stores_the_salt() {
    let mut d = Daemon::new(light_config(), Database::new());
    let fresh = [7u8; 32];
    assert_eq!(d.unlock_with_salt("pw", &fresh, NOW), Ok(()));
    assert!(d.is_unlocked());
    assert_eq!(d.check_unlocked(), Ok(()));
    let salt = d.db().get_key_salt().unwrap();
    assert_eq!(salt.salt, hex::encode(&fresh));
    let expected = derive_master_key("pw", &fresh, 1024, 1, 1).unwrap();
    assert_eq!(d.master_key().unwrap().key, expected.key);

    // Later unlocks use the stored salt, not the fresh one.
    d.lock();
    assert!(!d.is_unlocked());
    assert_eq!(d.unlock_with_salt("pw", &[9u8; 32], NOW), Ok(()));
    assert_eq!(d.master_key().unwrap().key, expected.key);
    assert_eq!(d.db().get_key_salt().unwrap().salt, hex::encode(&fresh));
}

#[test]
fn unlock_is_repeatable_with_the_same_password() {
    let mut d = Daemon::new(light_config(), Database::new());
    d.unlock("secret", NOW).unwrap();
    let first = d.master_key().unwrap().key;
    d.lock();
    d.unlock("secret", NOW).unwrap();
    assert_eq!(d.master_key().unwrap().key, first);
    d.lock();
    d.unlock("other", NOW).unwrap();
    assert_ne!(d.master_key().unwrap().key, first);
}

#[test]
fn a_bad_stored_salt_is_reported() {
    let mut db = Database::new();
    db.store_key_salt(&KeySalt { salt: "xyz".to_string() }, NOW).unwrap();
    let mut d = Daemon::new(light_config(), db);
    assert_eq!(d.unlock("pw", NOW), Err(DaemonError::InvalidSalt(HexError::OddLength)));
    assert!(!d.is_unlocked());
}

#[test]
fn bad_cost_parameters_are_reported() {
    let mut c = light_config();
    c.encryption.time_cost = 0;
    let mut d = Daemon::new(c, Database::new());
    assert_eq!(d.unlock("pw", NOW), Err(DaemonError::Crypto(CryptoError::InvalidParameters)));
    assert!(!d.is_unlocked());
    assert!(d.db().get_key_salt().is_none());
}

#[test]
fn keyring_bytes_restore_the_key() {
    let mut d = Daemon::new(light_config(), Database::new());
    assert!(!d.restore_master_key(None));
    assert!(!d.restore_master_key(Some(vec![1u8; 16])));
    assert!(!d.is_unlocked());
    assert!(d.restore_master_key(Some(vec![2u8; 32])));
    assert_eq!(d.master_key().unwrap().key, [2u8; 32]);
}

#[test]
fn parts_hand_out_what_the_daemon_holds() {
    let mut d = Daemon::new(light_config(), Database::new());
    d.unlock_with_salt("pw", &[3u8; 32], NOW).unwrap();
    let key = d.master_key().unwrap().key;
    let (config, db, master) = d.into_parts();
    assert_eq!(config.encryption.memory_cost, 1024);
    assert_eq!(db.get_key_salt().unwrap().salt, hex::encode(&[3u8; 32]));
    assert_eq!(master.unwrap().key, key);
}

#[test]
fn reloading_keeps_the_lock_state() {
    let mut d = Daemon::new(light_config(), Database::new());
    d.unlock_with_salt("pw", &[3u8; 32], NOW).unwrap();
    let key = d.master_key().unwrap().key;
    let mut db = Database::new();
    db.add_policy("/x", "*", "log", 0, NOW).unwrap();
    d.reload(db);
    assert_eq!(d.db().list_policies().len(), 1);
    assert!(d.db().get_key_salt().is_none());
    assert_eq!(d.master_key().unwrap().key, key);
}
