use secapp::glob::glob;
use secapp::path::{extension, is_absolute, is_same_path, join, path_components, starts_with, with_extension};
use secapp::text::{append_decimal, append_text, chars_of, string_from_chars, text_less};

#[test]
fn glob_wildcards() {
    assert!(glob("/home/user/.ssh/*", "/home/user/.ssh/id_rsa"));
    assert!(glob("/home/*", "/home/a/b/c"));
    assert!(glob("*", ""));
    assert!(glob("*", "anything"));
    assert!(!glob("/home/user/.ssh/*", "/home/user/.gnupg/key"));
    assert!(glob("a?c", "abc"));
    assert!(!glob("a?c", "ac"));
    assert!(!glob("a*", "A"));
    assert!(glob("malware", "malware"));
    assert!(!glob("malware", "malware2"));
    assert!(glob("*.txt", "notes.txt"));
    assert!(!glob("*.txt", "notes.txt.bak"));
}

#[test]
fn glob_classes() {
    assert!(glob("[a-c]x", "bx"));
    assert!(!glob("[a-c]x", "dx"));
    assert!(glob("[^a]x", "bx"));
    assert!(!glob("[^a]x", "ax"));
    assert!(glob("[]]", "]"));
    assert!(glob("[xyz]*", "zebra"));
    // An unclosed class matches nothing.
    assert!(!glob("[abc", "a"));
}

#[test]
fn text_order_is_by_code_point() {
    assert!(text_less("a", "b"));
    assert!(text_less("ab", "abc"));
    assert!(!text_less("abc", "abc"));
    assert!(text_less("B", "a"));
    assert!(!text_less("b", "a"));
    assert!(text_less("", "a"));
}

#[test]
fn text_building() {
    let mut s = String::new();
    append_text(&mut s, "n=");
    append_decimal(&mut s, -42);
    append_text(&mut s, ",");
    append_decimal(&mut s, 0);
    append_text(&mut s, ",");
    append_decimal(&mut s, i64::MIN);
    assert_eq!(s, format!("n=-42,0,{}", i64::MIN));
    assert_eq!(chars_of("héllo"), vec!['h', 'é', 'l', 'l', 'o']);
    assert_eq!(string_from_chars(&['o', 'k']), "ok");
}

#[test]
fn path_components_like_std() {
    let c = |p: &str| -> Vec<String> { path_components(p).into_iter().map(|v| v.into_iter().collect()).collect() };
    assert_eq!(c("/a//b/./c/"), vec!["/", "a", "b", "c"]);
    assert_eq!(c("./a"), vec![".", "a"]);
    assert_eq!(c("a/./b"), vec!["a", "b"]);
    assert_eq!(c("a/../b"), vec!["a", "..", "b"]);
    assert_eq!(c(""), Vec::<String>::new());
    assert!(is_absolute("/x"));
    assert!(!is_absolute("x/y"));
}

#[test]
fn path_prefixes_and_sameness() {
    assert!(starts_with("/home/user/.ssh/id_rsa", "/home/user/.ssh"));
    assert!(starts_with("/home/user/.ssh", "/home/user/.ssh/"));
    assert!(!starts_with("/home/user/.sshx", "/home/user/.ssh"));
    assert!(starts_with("/anything", "/"));
    assert!(is_same_path("/a/b", "/a//b/"));
    assert!(!is_same_path("/a/b", "a/b"));
}

#[test]
fn extensions_like_std() {
    assert_eq!(extension("/a/b.txt"), Some("txt".to_string()));
    assert_eq!(extension("/a/archive.tar.gz"), Some("gz".to_string()));
    assert_eq!(extension("/a/.bashrc"), None);
    assert_eq!(extension("/a/b"), None);
    assert_eq!(extension("/a/b."), Some("".to_string()));
    assert_eq!(extension("/"), None);
    assert_eq!(with_extension("/a/b.txt", "md"), "/a/b.md");
    assert_eq!(with_extension("/a/b", "md"), "/a/b.md");
    assert_eq!(with_extension("/a/b.txt", ""), "/a/b");
    assert_eq!(with_extension("/a/.bashrc", "x"), "/a/.bashrc.x");
}

#[test]
fn joining_like_std() {
    assert_eq!(join("/home/alice", ".secapp"), "/home/alice/.secapp");
    assert_eq!(join("/home/alice/", ".secapp"), "/home/alice/.secapp");
    assert_eq!(join("/home/alice", "/etc"), "/etc");
    assert_eq!(join("", "x"), "x");
}
