use secapp::config::{Config, DaemonConfig, EncryptionAlgorithm, EncryptionConfig};

#[test]
fn default_config_has_protected_paths() {
    let config = Config::default();
    assert!(!config.protected_paths.is_empty());
    // Should contain at least .ssh and .config
    let has_ssh = config.protected_paths.iter().any(|p| p.contains(".ssh"));
    let has_config = config.protected_paths.iter().any(|p| p.contains(".config"));
    assert!(has_ssh, "default should protect .ssh");
    assert!(has_config, "default should protect .config");
}

#[test]
fn add_remove_protected_path() {
    let mut config = Config::default();
    let test_path = "/tmp/secapp-test-dir";
    assert!(config.add_protected_path(test_path));
    assert!(!config.add_protected_path(test_path)); // duplicate
    assert!(config.remove_protected_path(test_path));
    assert!(!config.remove_protected_path(test_path)); // already removed
}

#[test]
fn encryption_config_defaults_sane() {
    let enc = EncryptionConfig::default();
    assert_eq!(enc.algorithm, EncryptionAlgorithm::Aes256Gcm);
    assert!(enc.memory_cost >= 19_456, "OWASP minimum memory cost");
    assert!(enc.time_cost >= 2, "OWASP minimum time cost");
}

#[test]
fn defaults_under_a_home_directory() {
    let config = Config::for_home("/home/alice");
    assert_eq!(
        config.protected_paths,
        vec![
            "/home/alice/.config".to_string(),
            "/home/alice/.local".to_string(),
            "/home/alice/.ssh".to_string(),
            "/home/alice/.gnupg".to_string(),
        ]
    );
    assert_eq!(config.encryption.memory_cost, 19_456);
    assert_eq!(config.encryption.time_cost, 2);
    assert_eq!(config.encryption.parallelism, 1);
    assert_eq!(config.daemon.pid_file, "/home/alice/.secapp/secapp.pid");
    assert_eq!(config.daemon.poll_interval_ms, 1000);
    assert!(!config.daemon.autostart);
    assert_eq!(config.daemon.log_level, "info");
}

#[test]
fn home_with_trailing_slash_joins_once() {
    let d = DaemonConfig::for_home("/root/");
    assert_eq!(d.pid_file, "/root/.secapp/secapp.pid");
    assert_eq!(Config::config_dir_in("/home/bob"), "/home/bob/.secapp");
}

#[test]
fn paths_compare_by_components() {
    let mut config = Config::for_home("/home/alice");
    // Same path as an existing entry, written differently.
    assert!(!config.add_protected_path("/home/alice//.ssh/"));
    assert!(config.add_protected_path("/srv/keys"));
    assert_eq!(config.protected_paths.len(), 5);
    assert!(config.remove_protected_path("/srv/keys/."));
    assert_eq!(config.protected_paths.len(), 4);
    // Removing a path removes every entry that is the same path.
    config.protected_paths.push("/x/y".to_string());
    config.protected_paths.push("/x//y/".to_string());
    assert!(config.remove_protected_path("/x/y"));
    assert_eq!(config.protected_paths.len(), 4);
}

#[test]
fn add_then_remove_restores_the_list() {
    let mut config = Config::for_home("/home/carol");
    let before = config.protected_paths.clone();
    assert!(config.add_protected_path("/opt/secret"));
    assert!(config.remove_protected_path("/opt/secret"));
    assert_eq!(config.protected_paths, before);
}

#[test]
fn config_locations_are_under_the_home_directory() {
    if let (Ok(dir), Ok(db), Ok(file)) = (Config::config_dir(), Config::db_path(), Config::config_path()) {
        assert!(dir.ends_with("/.secapp"));
        assert_eq!(db, format!("{}/secapp.db", dir));
        assert_eq!(file, format!("{}/config.json", dir));
    }
}

#[test]
fn locations_under_a_given_home() {
    assert_eq!(Config::config_path_in("/home/dave"), "/home/dave/.secapp/config.json");
    assert_eq!(Config::db_path_in("/home/dave/"), "/home/dave/.secapp/secapp.db");
}
