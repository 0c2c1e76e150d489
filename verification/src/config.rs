//! The keystore's configuration: protected directories, Argon2id costs and
//! daemon settings, with their defaults under a home directory.
use vstd::prelude::*;
use crate::path::{is_same_path, join, same_path, spec_join};

verus! {

/// The user's home directory (`dirs::home_dir`), as text. It depends on the
/// environment (`$HOME`, else the password database); nothing is promised
/// of it.
#[verifier::external_body]
fn home_dir() -> (r: Option<String>) {
    match dirs::home_dir() {
        Some(p) => Some(p.to_string_lossy().into_owned()),
        None => None,
    }
}

/// File encryption algorithm.
#[derive(Debug, Clone, Copy, PartialEq, Eq)]
pub enum EncryptionAlgorithm {
    Aes256Gcm,
}

/// Encryption settings.
pub struct EncryptionConfig {
    /// Argon2id memory cost in KiB
    pub memory_cost: u32,
    /// Argon2id time iterations
    pub time_cost: u32,
    /// Argon2id parallelism
    pub parallelism: u32,
    /// File encryption algorithm
    pub algorithm: EncryptionAlgorithm,
}

/// Daemon settings.
pub struct DaemonConfig {
    /// Polling interval for file changes in milliseconds
    pub poll_interval_ms: u64,
    /// Whether to start on boot
    pub autostart: bool,
    /// PID file location
    pub pid_file: String,
    /// Log level (trace, debug, info, warn, error)
    pub log_level: String,
}

/// The configuration.
pub struct Config {
    /// Directories to protect (absolute paths)
    pub protected_paths: Vec<String>,
    /// Encryption settings
    pub encryption: EncryptionConfig,
    /// Daemon settings
    pub daemon: DaemonConfig,
}

/// Why a configuration location could not be found.
#[derive(Debug, Clone, Copy, PartialEq, Eq)]
pub enum ConfigError {
    /// The home directory cannot be determined.
    NoHomeDirectory,
}

/// The texts of a list of paths.
pub open spec fn paths_view(v: Seq<String>) -> Seq<Seq<char>> {
    v.map_values(|s: String| s@)
}

pub open spec fn dot_config() -> Seq<char> {
    seq!['.', 'c', 'o', 'n', 'f', 'i', 'g']
}

pub open spec fn dot_local() -> Seq<char> {
    seq!['.', 'l', 'o', 'c', 'a', 'l']
}

pub open spec fn dot_ssh() -> Seq<char> {
    seq!['.', 's', 's', 'h']
}

pub open spec fn dot_gnupg() -> Seq<char> {
    seq!['.', 'g', 'n', 'u', 'p', 'g']
}

/// The directory of the keystore's own files, relative to the home directory.
pub open spec fn dot_secapp() -> Seq<char> {
    seq!['.', 's', 'e', 'c', 'a', 'p', 'p']
}

/// The directories protected by default, under a home directory.
pub open spec fn default_protected_paths(home: Seq<char>) -> Seq<Seq<char>> {
    seq![
        spec_join(home, dot_config()),
        spec_join(home, dot_local()),
        spec_join(home, dot_ssh()),
        spec_join(home, dot_gnupg()),
    ]
}

/// The keystore's directory under a home directory.
pub open spec fn spec_config_dir(home: Seq<char>) -> Seq<char> {
    spec_join(home, dot_secapp())
}

/// The configuration file under a home directory.
pub open spec fn spec_config_path(home: Seq<char>) -> Seq<char> {
    spec_join(spec_config_dir(home), seq!['c', 'o', 'n', 'f', 'i', 'g', '.', 'j', 's', 'o', 'n'])
}

/// The database file under a home directory.
pub open spec fn spec_db_path(home: Seq<char>) -> Seq<char> {
    spec_join(spec_config_dir(home), seq!['s', 'e', 'c', 'a', 'p', 'p', '.', 'd', 'b'])
}

/// The default PID file under a home directory.
pub open spec fn spec_pid_file(home: Seq<char>) -> Seq<char> {
    spec_join(spec_config_dir(home), seq!['s', 'e', 'c', 'a', 'p', 'p', '.', 'p', 'i', 'd'])
}

/// Whether an encryption configuration holds the defaults (OWASP's
/// recommended minimums for Argon2id: 19 MiB, two passes, one lane).
pub open spec fn is_default_encryption(e: EncryptionConfig) -> bool {
    &&& e.memory_cost == 19_456
    &&& e.time_cost == 2
    &&& e.parallelism == 1
    &&& e.algorithm == EncryptionAlgorithm::Aes256Gcm
}

/// Whether daemon settings hold the defaults for a home directory.
pub open spec fn is_default_daemon(d: DaemonConfig, home: Seq<char>) -> bool {
    &&& d.poll_interval_ms == 1000
    &&& !d.autostart
    &&& d.pid_file@ == spec_pid_file(home)
    &&& d.log_level@ == seq!['i', 'n', 'f', 'o']
}

/// Whether a configuration holds the defaults for a home directory.
pub open spec fn is_default_config(c: Config, home: Seq<char>) -> bool {
    &&& paths_view(c.protected_paths@) == default_protected_paths(home)
    &&& is_default_encryption(c.encryption)
    &&& is_default_daemon(c.daemon, home)
}

/// The home directory, or "/root" when it cannot be determined.
fn home_or_root() -> (r: String) {
    match home_dir() {
        Some(h) => h,
        None => "/root".to_owned(),
    }
}

impl EncryptionConfig {
    /// The default encryption settings.
    pub fn defaults() -> (r: EncryptionConfig)
        ensures
            is_default_encryption(r),
    {
        EncryptionConfig {
            memory_cost: 19_456,
            time_cost: 2,
            parallelism: 1,
            algorithm: EncryptionAlgorithm::Aes256Gcm,
        }
    }
}

impl Default for EncryptionConfig {
    fn default() -> (r: EncryptionConfig)
        ensures
            is_default_encryption(r),
    {
        EncryptionConfig::defaults()
    }
}

impl DaemonConfig {
    /// The default daemon settings for a home directory.
    pub fn for_home(home: &str) -> (r: DaemonConfig)
        ensures
            is_default_daemon(r, home@),
    {
        let dir = join(home, ".secapp");
        proof {
            reveal_strlit(".secapp");
            reveal_strlit("secapp.pid");
            reveal_strlit("info");
            assert(".secapp"@ == dot_secapp());
            assert("secapp.pid"@ == seq!['s', 'e', 'c', 'a', 'p', 'p', '.', 'p', 'i', 'd']);
            assert("info"@ == seq!['i', 'n', 'f', 'o']);
        }
        DaemonConfig {
            poll_interval_ms: 1000,
            autostart: false,
            pid_file: join(dir.as_str(), "secapp.pid"),
            log_level: "info".to_owned(),
        }
    }
}

impl Default for DaemonConfig {
    fn default() -> (r: DaemonConfig)
        ensures
            exists|home: Seq<char>| is_default_daemon(r, home),
    {
        let home = home_or_root();
        DaemonConfig::for_home(home.as_str())
    }
}

impl Config {
    /// The default configuration for a home directory.
    pub fn for_home(home: &str) -> (r: Config)
        ensures
            is_default_config(r, home@),
    {
        proof {
            reveal_strlit(".config");
            reveal_strlit(".local");
            reveal_strlit(".ssh");
            reveal_strlit(".gnupg");
            assert(".config"@ == dot_config());
            assert(".local"@ == dot_local());
            assert(".ssh"@ == dot_ssh());
            assert(".gnupg"@ == dot_gnupg());
        }
        let mut paths: Vec<String> = Vec::new();
        paths.push(join(home, ".config"));
        paths.push(join(home, ".local"));
        paths.push(join(home, ".ssh"));
        paths.push(join(home, ".gnupg"));
        assert(paths_view(paths@) == default_protected_paths(home@));
        Config {
            protected_paths: paths,
            encryption: EncryptionConfig::defaults(),
            daemon: DaemonConfig::for_home(home),
        }
    }

    /// Add a path to the protected list if not already present (as the same
    /// path). The path is taken as given: a relative path is to be resolved
    /// by the caller first.
    pub fn add_protected_path(&mut self, path: &str) -> (r: bool)
        ensures
            r == !(exists|i: int|
                0 <= i < old(self).protected_paths@.len() && same_path(
                    #[trigger] old(self).protected_paths@[i]@,
                    path@,
                )),
            paths_view(final(self).protected_paths@) == (if r {
                paths_view(old(self).protected_paths@).push(path@)
            } else {
                paths_view(old(self).protected_paths@)
            }),
            paths_view(final(self).protected_paths@) == with_path(paths_view(old(self).protected_paths@), path@),
            final(self).encryption == old(self).encryption,
            final(self).daemon == old(self).daemon,
    {
        let mut i: usize = 0;
        while i < self.protected_paths.len()
            invariant
                self == old(self),
                i <= self.protected_paths.len(),
                forall|k: int| 0 <= k < i ==> !same_path(#[trigger] self.protected_paths@[k]@, path@),
            decreases self.protected_paths.len() - i,
        {
            if is_same_path(self.protected_paths[i].as_str(), path) {
                assert(same_path(self.protected_paths@[i as int]@, path@));
                proof {
                    lemma_lists_path(self.protected_paths@, path@);
                }
                return false;
            }
            i += 1;
        }
        let ghost before = paths_view(self.protected_paths@);
        proof {
            lemma_lists_path(self.protected_paths@, path@);
        }
        self.protected_paths.push(path.to_owned());
        assert(paths_view(self.protected_paths@) == before.push(path@));
        true
    }

    /// Remove a path (every entry that is the same path) from the protected
    /// list; tells whether the list changed.
    pub fn remove_protected_path(&mut self, path: &str) -> (r: bool)
        ensures
            paths_view(final(self).protected_paths@) == paths_view(old(self).protected_paths@).filter(
                |p: Seq<char>| !same_path(p, path@),
            ),
            paths_view(final(self).protected_paths@) == without_path(paths_view(old(self).protected_paths@), path@),
            r == (final(self).protected_paths@.len() != old(self).protected_paths@.len()),
            r == (exists|i: int|
                0 <= i < old(self).protected_paths@.len() && same_path(
                    #[trigger] old(self).protected_paths@[i]@,
                    path@,
                )),
            final(self).encryption == old(self).encryption,
            final(self).daemon == old(self).daemon,
    {
        let ghost pred = |p: Seq<char>| !same_path(p, path@);
        let ghost old_view = paths_view(self.protected_paths@);
        let original_len = self.protected_paths.len();
        let mut kept: Vec<String> = Vec::new();
        let mut i: usize = 0;
        while i < self.protected_paths.len()
            invariant
                i <= self.protected_paths.len(),
                original_len == self.protected_paths.len(),
                self.protected_paths@ == old(self).protected_paths@,
                old_view == paths_view(self.protected_paths@),
                pred == (|p: Seq<char>| !same_path(p, path@)),
                paths_view(kept@) == old_view.take(i as int).filter(pred),
                kept.len() <= i,
                (kept.len() == i) == (forall|k: int| 0 <= k < i ==> !same_path(
                    #[trigger] old_view[k],
                    path@,
                )),
            decreases self.protected_paths.len() - i,
        {
            proof {
                reveal_with_fuel(Seq::<_>::filter, 1);
                assert(old_view.take(i + 1).drop_last() == old_view.take(i as int));
                assert(old_view[i as int] == self.protected_paths@[i as int]@);
            }
            if !is_same_path(self.protected_paths[i].as_str(), path) {
                kept.push(self.protected_paths[i].clone());
                assert(paths_view(kept@) == old_view.take(i + 1).filter(pred));
            } else {
                assert(paths_view(kept@) == old_view.take(i + 1).filter(pred));
            }
            i += 1;
        }
        assert(old_view.take(original_len as int) == old_view);
        proof {
            if kept.len() == original_len {
                assert forall|k: int| 0 <= k < old(self).protected_paths@.len() implies !same_path(
                    #[trigger] old(self).protected_paths@[k]@,
                    path@,
                ) by {
                    assert(old_view[k] == old(self).protected_paths@[k]@);
                }
            } else {
                let k = choose|k: int| 0 <= k < original_len && same_path(#[trigger] old_view[k], path@);
                assert(old_view[k] == old(self).protected_paths@[k]@);
                assert(same_path(old(self).protected_paths@[k]@, path@));
            }
        }
        self.protected_paths = kept;
        self.protected_paths.len() != original_len
    }

    /// The keystore's directory under a home directory.
    pub fn config_dir_in(home: &str) -> (r: String)
        ensures
            r@ == spec_config_dir(home@),
    {
        proof {
            reveal_strlit(".secapp");
            assert(".secapp"@ == dot_secapp());
        }
        join(home, ".secapp")
    }

    /// Get the path to the config directory.
    pub fn config_dir() -> (r: Result<String, ConfigError>)
        ensures
            r matches Ok(d) ==> exists|home: Seq<char>| d@ == spec_config_dir(home),
            r matches Err(e) ==> e == ConfigError::NoHomeDirectory,
    {
        match home_dir() {
            Some(h) => Ok(Config::config_dir_in(h.as_str())),
            None => Err(ConfigError::NoHomeDirectory),
        }
    }

    /// The configuration file under a home directory.
    pub fn config_path_in(home: &str) -> (r: String)
        ensures
            r@ == spec_config_path(home@),
    {
        proof {
            reveal_strlit("config.json");
            assert("config.json"@ == seq!['c', 'o', 'n', 'f', 'i', 'g', '.', 'j', 's', 'o', 'n']);
        }
        let dir = Config::config_dir_in(home);
        join(dir.as_str(), "config.json")
    }

    /// The database file under a home directory.
    pub fn db_path_in(home: &str) -> (r: String)
        ensures
            r@ == spec_db_path(home@),
    {
        proof {
            reveal_strlit("secapp.db");
            assert("secapp.db"@ == seq!['s', 'e', 'c', 'a', 'p', 'p', '.', 'd', 'b']);
        }
        let dir = Config::config_dir_in(home);
        join(dir.as_str(), "secapp.db")
    }

    /// Get the path to the config file.
    pub fn config_path() -> (r: Result<String, ConfigError>)
        ensures
            r matches Ok(p) ==> exists|home: Seq<char>| p@ == spec_config_path(home),
            r matches Err(e) ==> e == ConfigError::NoHomeDirectory,
    {
        match home_dir() {
            Some(h) => Ok(Config::config_path_in(h.as_str())),
            None => Err(ConfigError::NoHomeDirectory),
        }
    }

    /// Get the path to the database file.
    pub fn db_path() -> (r: Result<String, ConfigError>)
        ensures
            r matches Ok(p) ==> exists|home: Seq<char>| p@ == spec_db_path(home),
            r matches Err(e) ==> e == ConfigError::NoHomeDirectory,
    {
        match home_dir() {
            Some(h) => Ok(Config::db_path_in(h.as_str())),
            None => Err(ConfigError::NoHomeDirectory),
        }
    }
}

/// Whether a list of paths holds `p` (as the same path).
pub open spec fn lists_path(list: Seq<Seq<char>>, p: Seq<char>) -> bool {
    exists|i: int| 0 <= i < list.len() && same_path(#[trigger] list[i], p)
}

/// The protected list after adding `p`: unchanged when it holds `p` already.
pub open spec fn with_path(list: Seq<Seq<char>>, p: Seq<char>) -> Seq<Seq<char>> {
    if lists_path(list, p) {
        list
    } else {
        list.push(p)
    }
}

/// The protected list after removing `p`.
pub open spec fn without_path(list: Seq<Seq<char>>, p: Seq<char>) -> Seq<Seq<char>> {
    list.filter(|q: Seq<char>| !same_path(q, p))
}

/// A list of paths holds `p` when one of its texts is the same path.
proof fn lemma_lists_path(v: Seq<String>, p: Seq<char>)
    ensures
        lists_path(paths_view(v), p) == (exists|i: int| 0 <= i < v.len() && same_path(#[trigger] v[i]@, p)),
{
    if lists_path(paths_view(v), p) {
        let i = choose|i: int| 0 <= i < paths_view(v).len() && same_path(#[trigger] paths_view(v)[i], p);
        assert(same_path(v[i]@, p));
    }
    if exists|i: int| 0 <= i < v.len() && same_path(#[trigger] v[i]@, p) {
        let i = choose|i: int| 0 <= i < v.len() && same_path(#[trigger] v[i]@, p);
        assert(same_path(paths_view(v)[i], p));
    }
}

/// After adding a path the list holds it, so adding it again changes
/// nothing; after removing a path the list no longer holds it, so removing
/// it again changes nothing.
pub proof fn law_add_and_remove_settle(list: Seq<Seq<char>>, p: Seq<char>)
    ensures
        lists_path(with_path(list, p), p),
        with_path(with_path(list, p), p) == with_path(list, p),
        !lists_path(without_path(list, p), p),
        without_path(without_path(list, p), p) == without_path(list, p),
{
    if !lists_path(list, p) {
        assert(list.push(p)[list.len() as int] == p);
        assert(same_path(p, p));
    }
    let pred = |q: Seq<char>| !same_path(q, p);
    let w = list.filter(pred);
    if lists_path(w, p) {
        let i = choose|i: int| 0 <= i < w.len() && same_path(#[trigger] w[i], p);
        list.lemma_filter_pred(pred, i);
        assert(pred(w[i]));
    }
    assert forall|i: int| 0 <= i < w.len() implies pred(#[trigger] w[i]) by {
        list.lemma_filter_pred(pred, i);
    }
    crate::path::lemma_filter_keeps_all(w, pred);
}

/// Adding a path that the list does not hold and then removing it gives
/// the list back.
pub proof fn law_add_then_remove(list: Seq<Seq<char>>, p: Seq<char>)
    requires
        !lists_path(list, p),
    ensures
        without_path(with_path(list, p), p) == list,
{
    let pred = |q: Seq<char>| !same_path(q, p);
    assert(list.push(p).drop_last() == list);
    assert(!pred(p));
    assert(list.push(p).filter(pred) == list.filter(pred)) by {
        reveal_with_fuel(Seq::<_>::filter, 1);
    }
    assert forall|i: int| 0 <= i < list.len() implies pred(#[trigger] list[i]) by {
        if !pred(list[i]) {
            assert(same_path(list[i], p));
        }
    }
    crate::path::lemma_filter_keeps_all(list, pred);
}

impl Default for Config {
    fn default() -> (r: Config)
        ensures
            exists|home: Seq<char>| is_default_config(r, home),
    {
        let home = home_or_root();
        Config::for_home(home.as_str())
    }
}

} // verus!
