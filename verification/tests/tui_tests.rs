use secapp::db::{AccessLog, Policy, ProtectedFile};
use secapp::tui::{file_line, log_line, policy_line, App, Command, Key, Tab};

fn file(path: &str, size: i64, enc: bool) -> ProtectedFile {
    ProtectedFile {
        id: 1,
        path: path.to_string(),
        encrypted_key: String::new(),
        key_nonce: String::new(),
        original_hash: String::new(),
        encrypted_hash: String::new(),
        original_size: size,
        encrypted_size: size + 28,
        is_encrypted: enc,
        created_at: String::new(),
        modified_at: String::new(),
    }
}

fn log(pid: i64, allowed: bool) -> AccessLog {
    AccessLog {
        id: 1,
        file_path: "/home/u/.ssh/id_rsa".to_string(),
        process_pid: pid,
        process_name: "ssh".to_string(),
        process_cmdline: "ssh host".to_string(),
        action: "read".to_string(),
        allowed,
        timestamp: "2024-01-01 00:00:00".to_string(),
    }
}

fn policy(priority: i64) -> Policy {
    Policy {
        id: 1,
        path_pattern: "/home/*".to_string(),
        process_pattern: "*".to_string(),
        action: "deny".to_string(),
        priority,
        created_at: String::new(),
    }
}

#[test]
fn tab_titles_and_positions() {
    assert_eq!(Tab::Directories.title(), "Directories");
    assert_eq!(Tab::Logs.title(), "Access Logs");
    assert_eq!(Tab::Policies.title(), "Policies");
    assert_eq!(Tab::Status.title(), "Status");
    assert_eq!(Tab::Directories.index(), 0);
    assert_eq!(Tab::Status.index(), 3);
    assert_eq!(Tab::from_index(5), Tab::Logs);
    for t in [Tab::Directories, Tab::Logs, Tab::Policies, Tab::Status] {
        assert_eq!(Tab::from_index(t.index()), t);
    }
}

#[test]
fn tabs_cycle_both_ways() {
    let mut app = App::new();
    assert_eq!(app.tab(), Tab::Directories);
    for expected in [Tab::Logs, Tab::Policies, Tab::Status, Tab::Directories] {
        assert_eq!(app.handle_key(Key::Tab), Command::Stay);
        assert_eq!(app.tab(), expected);
    }
    app.handle_key(Key::BackTab);
    assert_eq!(app.tab(), Tab::Status);
}

#[test]
fn quitting_locking_refreshing() {
    let mut app = App::new();
    assert_eq!(app.handle_key(Key::Char('q')), Command::Quit);
    assert_eq!(app.handle_key(Key::Esc), Command::Quit);
    assert_eq!(app.handle_key(Key::Char('r')), Command::Refresh);
    assert!(app.status_bar().ends_with("| Data refreshed"));
    app.unlock_succeeded();
    assert!(app.unlocked());
    assert_eq!(app.handle_key(Key::Char('l')), Command::Lock);
    assert!(!app.unlocked());
    assert!(app.status_bar().ends_with("Keystore locked"));
    assert_eq!(app.handle_key(Key::Char('x')), Command::Stay);
}

#[test]
fn password_entry() {
    let mut app = App::new();
    assert_eq!(app.handle_key(Key::Char('u')), Command::Stay);
    assert_eq!(app.status_bar(), "Enter master password: ");
    for c in "pass".chars() {
        assert_eq!(app.handle_key(Key::Char(c)), Command::Stay);
    }
    // Keys that quit elsewhere are typed here.
    app.handle_key(Key::Char('q'));
    assert_eq!(app.status_bar(), "Enter master password: *****");
    app.handle_key(Key::Backspace);
    app.handle_key(Key::Up);
    assert_eq!(app.status_bar(), "Enter master password: ****");
    assert_eq!(app.handle_key(Key::Enter), Command::Unlock("pass".to_string()));
    assert!(!app.status_bar().contains('*'));

    app.handle_key(Key::Char('u'));
    app.handle_key(Key::Char('z'));
    assert_eq!(app.handle_key(Key::Esc), Command::Stay);
    assert!(app.status_bar().ends_with("Password entry cancelled"));
    app.unlock_failed("wrong password");
    assert!(app.status_bar().ends_with("Unlock failed: wrong password"));
}

#[test]
fn status_bar_shows_the_lock() {
    let mut app = App::new();
    assert_eq!(app.status_bar(), "\u{1F512} secapp | [u]nlock [l]ock [r]efresh [q]uit | ");
    app.unlock_succeeded();
    assert_eq!(
        app.status_bar(),
        "\u{1F513} secapp | [u]nlock [l]ock [r]efresh [q]uit | Keystore unlocked successfully"
    );
}

#[test]
fn list_lines() {
    assert_eq!(file_line(&file("/a/b", 1024, true)), "\u{1F512} /a/b (1024 bytes)");
    assert_eq!(file_line(&file("/c", 0, false)), "\u{1F513} /c (0 bytes)");
    assert_eq!(
        log_line(&log(42, true)),
        "\u{2713} [2024-01-01 00:00:00] read by ssh (42) - /home/u/.ssh/id_rsa"
    );
    assert!(log_line(&log(-1, false)).starts_with("\u{2717} "));
    assert_eq!(policy_line(&policy(-3)), "[deny] deny on /home/* from * (p=-3)");
}

#[test]
fn selection_moves_within_the_lists() {
    let mut app = App::new();
    // Nothing loaded: no selection moves.
    app.handle_key(Key::Down);
    assert_eq!(app.selected(Tab::Directories), None);

    let files = vec![file("/a", 1, true), file("/b", 2, true), file("/c", 3, false)];
    app.refresh(Some(&files), Some(vec![log(1, true)]), Some(vec![policy(1), policy(2)]), true);
    assert!(app.unlocked());
    assert_eq!(app.file_lines().len(), 3);
    assert_eq!(app.file_lines()[1], "\u{1F512} /b (2 bytes)");
    assert_eq!(app.access_logs().len(), 1);
    assert_eq!(app.policies().len(), 2);

    // The first step down from no selection lands on the second row.
    app.handle_key(Key::Down);
    assert_eq!(app.selected(Tab::Directories), Some(1));
    app.handle_key(Key::Down);
    app.handle_key(Key::Down);
    assert_eq!(app.selected(Tab::Directories), Some(2));
    app.handle_key(Key::Up);
    app.handle_key(Key::Up);
    app.handle_key(Key::Up);
    assert_eq!(app.selected(Tab::Directories), Some(0));

    app.handle_key(Key::Tab);
    app.handle_key(Key::Up);
    assert_eq!(app.selected(Tab::Logs), Some(0));
    app.handle_key(Key::Tab);
    app.handle_key(Key::Down);
    assert_eq!(app.selected(Tab::Policies), Some(1));
    app.handle_key(Key::Tab);
    app.handle_key(Key::Down);
    assert_eq!(app.selected(Tab::Status), None);

    // A failed query keeps the old rows.
    app.refresh(None, None, None, false);
    assert_eq!(app.file_lines().len(), 3);
    assert_eq!(app.policies().len(), 2);
    assert!(!app.unlocked());
}

#[test]
fn password_stars_count_bytes() {
    let mut app = App::new();
    app.handle_key(Key::Char('u'));
    app.handle_key(Key::Char('é'));
    assert_eq!(app.status_bar(), "Enter master password: **");
    app.handle_key(Key::Char('a'));
    assert_eq!(app.status_bar(), "Enter master password: ***");
}
