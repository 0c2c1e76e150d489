//! The keystore daemon's state: its configuration, its database and the
//! master key, held only while the keystore is unlocked; and its PID file.
use vstd::prelude::*;
use vstd::utf8::encode_utf8;
use vstd::string::*;
use crate::config::Config;
use crate::crypto::{
    derive_master_key, generate_salt, master_key_bytes, master_key_derivation, CryptoError,
    KeySalt, MasterKey, KEY_SIZE,
};
use crate::db::{Database, DbError, DbView, KeyRow};
use crate::hex::{self, hex_decode_result, hex_encoding, HexError};
use crate::text::{chars_of, code_point};

verus! {

/// Why the daemon could not do what was asked.
#[derive(Debug, Clone, Copy, PartialEq, Eq)]
pub enum DaemonError {
    /// The stored key derivation salt is not hexadecimal.
    InvalidSalt(HexError),
    /// Key derivation failed.
    Crypto(CryptoError),
    /// The database refused a write.
    Db(DbError),
    /// The keystore must be unlocked first.
    Locked,
}

/// Daemon state and lifecycle management.
pub struct Daemon {
    config: Config,
    db: Database,
    master_key: Option<MasterKey>,
}

/// The outcome of unlocking: the master key it sets and the key rows it
/// leaves, or the error.
pub open spec fn unlock_outcome(
    password: Seq<u8>,
    fresh_salt: Seq<u8>,
    db: DbView,
    memory_cost: u32,
    time_cost: u32,
    parallelism: u32,
    now: Seq<char>,
) -> Result<(Seq<u8>, Seq<KeyRow>), DaemonError> {
    if db.keys.len() > 0 {
        match hex_decode_result(encode_utf8(db.keys[0].salt)) {
            Err(e) => Err(DaemonError::InvalidSalt(e)),
            Ok(salt) => match master_key_derivation(password, salt, memory_cost, time_cost, parallelism) {
                Err(e) => Err(DaemonError::Crypto(e)),
                Ok(k) => Ok((k, db.keys)),
            },
        }
    } else {
        match master_key_derivation(password, fresh_salt, memory_cost, time_cost, parallelism) {
            Err(e) => Err(DaemonError::Crypto(e)),
            Ok(k) => if db.key_seq == i64::MAX {
                Err(DaemonError::Db(DbError::TableFull))
            } else {
                Ok(
                    (
                        k,
                        seq![
                            KeyRow {
                                id: db.key_seq + 1,
                                salt: hex_encoding(fresh_salt),
                                key_wrapping_nonce: Seq::empty(),
                                created_at: now,
                            },
                        ],
                    ),
                )
            },
        }
    }
}

/// How an unlock with `fresh` as the salt to use when none is stored
/// relates the states before and after it to its result.
pub open spec fn unlocked_as(
    db: DbView,
    key: Option<Seq<u8>>,
    new_db: DbView,
    new_key: Option<Seq<u8>>,
    e: crate::config::EncryptionConfig,
    password: Seq<u8>,
    fresh: Seq<u8>,
    now: Seq<char>,
    r: Result<(), DaemonError>,
) -> bool {
    let outcome = unlock_outcome(password, fresh, db, e.memory_cost, e.time_cost, e.parallelism, now);
    match r {
        Ok(()) => {
            &&& outcome matches Ok((k, keys))
            &&& new_key == Some(k)
            &&& new_db == (DbView {
                keys: keys,
                key_seq: if db.keys.len() > 0 {
                    db.key_seq
                } else {
                    db.key_seq + 1
                },
                last_rowid: if db.keys.len() > 0 {
                    db.last_rowid
                } else {
                    db.key_seq + 1
                },
                ..db
            })
        },
        Err(err) => {
            &&& outcome == Err::<(Seq<u8>, Seq<KeyRow>), DaemonError>(err)
            &&& new_key == key
            &&& new_db == db
        },
    }
}

/// The salt an unlock derives the key from: the stored one, decoded from
/// hex, or on a first unlock the fresh one.
pub open spec fn unlock_salt(db: DbView, fresh: Seq<u8>) -> Seq<u8> {
    if db.keys.len() > 0 {
        hex_decode_result(encode_utf8(db.keys[0].salt))->Ok_0
    } else {
        fresh
    }
}

/// A successful unlock sets the master key to Argon2id of the password
/// over the salt it uses, with the configured memory cost, time cost and
/// parallelism, each taken from its own setting; a first unlock stores the
/// fresh salt as hex, and a later one keeps the stored salt.
pub proof fn law_unlock_key(
    db: DbView,
    key: Option<Seq<u8>>,
    new_db: DbView,
    new_key: Option<Seq<u8>>,
    e: crate::config::EncryptionConfig,
    password: Seq<u8>,
    fresh: Seq<u8>,
    now: Seq<char>,
    r: Result<(), DaemonError>,
)
    requires
        unlocked_as(db, key, new_db, new_key, e, password, fresh, now, r),
        r is Ok,
    ensures
        db.keys.len() > 0 ==> hex_decode_result(encode_utf8(db.keys[0].salt)) is Ok,
        master_key_derivation(password, unlock_salt(db, fresh), e.memory_cost, e.time_cost, e.parallelism)
            == Ok::<Seq<u8>, CryptoError>(new_key->Some_0),
        new_key is Some,
        db.keys.len() > 0 ==> new_db.keys == db.keys,
        db.keys.len() == 0 ==> new_db.keys.len() == 1 && new_db.keys[0].salt == hex_encoding(fresh),
{
}

/// An unlock never fails for want of randomness once it has a salt.
proof fn lemma_derivation_never_random(
    db: DbView,
    password: Seq<u8>,
    fresh: Seq<u8>,
    e: crate::config::EncryptionConfig,
    now: Seq<char>,
)
    ensures
        unlock_outcome(password, fresh, db, e.memory_cost, e.time_cost, e.parallelism, now)
            != Err::<(Seq<u8>, Seq<KeyRow>), DaemonError>(DaemonError::Crypto(CryptoError::RandomnessUnavailable)),
{
}

/// A later unlock with the same password sets the same master key: the
/// first unlock stores the salt it derived the key from, and every later
/// unlock derives the key from that stored salt, whatever fresh salt it is
/// offered.
pub proof fn law_unlock_is_repeatable(
    password: Seq<u8>,
    fresh: Seq<u8>,
    other_fresh: Seq<u8>,
    db: DbView,
    memory_cost: u32,
    time_cost: u32,
    parallelism: u32,
    now: Seq<char>,
    later: Seq<char>,
)
    requires
        unlock_outcome(password, fresh, db, memory_cost, time_cost, parallelism, now) is Ok,
    ensures
        ({
            let (key, keys) = unlock_outcome(password, fresh, db, memory_cost, time_cost, parallelism, now)->Ok_0;
            unlock_outcome(password, other_fresh, DbView { keys: keys, ..db }, memory_cost, time_cost, parallelism, later)
                == Ok::<(Seq<u8>, Seq<KeyRow>), DaemonError>((key, keys))
        }),
{
    if db.keys.len() == 0 {
        hex::lemma_hex_roundtrip(fresh);
    }
}

impl Daemon {
    /// What the daemon keeps: a well-formed database.
    pub closed spec fn wf(&self) -> bool {
        self.db@.wf()
    }

    /// The database as plain values.
    pub closed spec fn db_view(&self) -> DbView {
        self.db@
    }

    /// The master key's bytes while the keystore is unlocked.
    pub closed spec fn key_view(&self) -> Option<Seq<u8>> {
        match self.master_key {
            Some(k) => Some(k.key@),
            None => None,
        }
    }

    /// The configuration.
    pub closed spec fn config_view(&self) -> &Config {
        &self.config
    }

    /// A locked daemon over a configuration and an opened database.
    pub fn new(config: Config, db: Database) -> (r: Daemon)
        requires
            db@.wf(),
        ensures
            r.wf(),
            r.db_view() == db@,
            r.key_view() is None,
            *r.config_view() == config,
    {
        Daemon { config, db, master_key: None }
    }

    /// Unlock the keystore with a master password, using `fresh_salt` when
    /// no salt is stored yet (which is then stored, as hex, stamped `now`).
    pub fn unlock_with_salt(&mut self, password: &str, fresh_salt: &[u8; 32], now: &str) -> (r: Result<(), DaemonError>)
        requires
            old(self).wf(),
        ensures
            final(self).wf(),
            final(self).config_view() == old(self).config_view(),
            r is Ok ==> final(self).key_view() is Some && master_key_derivation(
                password.spec_bytes(),
                unlock_salt(old(self).db_view(), fresh_salt@),
                old(self).config_view().encryption.memory_cost,
                old(self).config_view().encryption.time_cost,
                old(self).config_view().encryption.parallelism,
            ) == Ok::<Seq<u8>, CryptoError>(final(self).key_view()->Some_0),
            unlocked_as(
                old(self).db_view(),
                old(self).key_view(),
                final(self).db_view(),
                final(self).key_view(),
                old(self).config_view().encryption,
                password.spec_bytes(),
                fresh_salt@,
                now@,
                r,
            ),
    {
        let memory_cost = self.config.encryption.memory_cost;
        let time_cost = self.config.encryption.time_cost;
        let parallelism = self.config.encryption.parallelism;
        match self.db.get_key_salt() {
            Some(key_salt) => {
                let salt_bytes = match hex::decode(key_salt.salt.as_str()) {
                    Ok(b) => b,
                    Err(e) => return Err(DaemonError::InvalidSalt(e)),
                };
                let master_key = match derive_master_key(password, salt_bytes.as_slice(), memory_cost, time_cost, parallelism) {
                    Ok(k) => k,
                    Err(e) => return Err(DaemonError::Crypto(e)),
                };
                self.master_key = Some(master_key);
                Ok(())
            },
            None => {
                let master_key = match derive_master_key(password, fresh_salt.as_slice(), memory_cost, time_cost, parallelism) {
                    Ok(k) => k,
                    Err(e) => return Err(DaemonError::Crypto(e)),
                };
                let key_salt = KeySalt { salt: hex::encode(fresh_salt.as_slice()) };
                match self.db.store_key_salt(&key_salt, now) {
                    Ok(_) => {},
                    Err(e) => {
                        assert(old(self).db@.keys =~= Seq::<KeyRow>::empty());
                        assert(self.db@ == old(self).db@);
                        return Err(DaemonError::Db(e));
                    },
                }
                self.master_key = Some(master_key);
                Ok(())
            },
        }
    }

    /// Unlock the keystore with a master password. If no key exists yet, a
    /// new random salt is stored and the key is derived from it; when the
    /// operating system gives no random bytes for it, nothing changes and
    /// the unlock fails.
    pub fn unlock(&mut self, password: &str, now: &str) -> (r: Result<(), DaemonError>)
        requires
            old(self).wf(),
        ensures
            final(self).wf(),
            final(self).config_view() == old(self).config_view(),
            r == Err::<(), DaemonError>(DaemonError::Crypto(CryptoError::RandomnessUnavailable)) ==> {
                &&& old(self).db_view().keys.len() == 0
                &&& final(self).db_view() == old(self).db_view()
                &&& final(self).key_view() == old(self).key_view()
            },
            r != Err::<(), DaemonError>(DaemonError::Crypto(CryptoError::RandomnessUnavailable)) ==> exists|fresh: Seq<u8>|
                fresh.len() == 32 && unlocked_as(
                    old(self).db_view(),
                    old(self).key_view(),
                    final(self).db_view(),
                    final(self).key_view(),
                    old(self).config_view().encryption,
                    password.spec_bytes(),
                    fresh,
                    now@,
                    r,
                ),
    {
        let has_salt = self.db.get_key_salt().is_some();
        if has_salt {
            // The stored salt is used; no fresh salt is needed.
            let unused = [0u8; 32];
            let r = self.unlock_with_salt(password, &unused, now);
            proof {
                lemma_derivation_never_random(old(self).db_view(), password.spec_bytes(), unused@,
                    old(self).config_view().encryption, now@);
            }
            return r;
        }
        let fresh = match generate_salt() {
            Ok(f) => f,
            Err(e) => return Err(DaemonError::Crypto(e)),
        };
        let r = self.unlock_with_salt(password, &fresh, now);
        proof {
            lemma_derivation_never_random(old(self).db_view(), password.spec_bytes(), fresh@,
                old(self).config_view().encryption, now@);
        }
        r
    }

    /// Lock the keystore, clearing the master key from memory.
    pub fn lock(&mut self)
        requires
            old(self).wf(),
        ensures
            final(self).wf(),
            final(self).key_view() is None,
            final(self).db_view() == old(self).db_view(),
            final(self).config_view() == old(self).config_view(),
    {
        self.master_key = None;
    }

    /// Check if the keystore is currently unlocked.
    pub fn is_unlocked(&self) -> (r: bool)
        ensures
            r == self.key_view() is Some,
    {
        self.master_key.is_some()
    }

    /// Restores the master key from bytes read out of a keyring; tells
    /// whether they were a key.
    pub fn restore_master_key(&mut self, key_bytes: Option<Vec<u8>>) -> (r: bool)
        requires
            old(self).wf(),
        ensures
            final(self).wf(),
            final(self).db_view() == old(self).db_view(),
            final(self).config_view() == old(self).config_view(),
            r == (key_bytes matches Some(b) && b@.len() == KEY_SIZE),
            r ==> final(self).key_view() == Some(key_bytes->Some_0@),
            !r ==> final(self).key_view() == old(self).key_view(),
    {
        match key_bytes {
            Some(bytes) => match MasterKey::from_bytes(bytes.as_slice()) {
                Some(k) => {
                    self.master_key = Some(k);
                    true
                },
                None => false,
            },
            None => false,
        }
    }

    /// The daemon may start watching only when unlocked.
    pub fn check_unlocked(&self) -> (r: Result<(), DaemonError>)
        ensures
            r is Ok <==> self.key_view() is Some,
            r matches Err(e) ==> e == DaemonError::Locked,
    {
        if self.master_key.is_some() {
            Ok(())
        } else {
            Err(DaemonError::Locked)
        }
    }

    /// The master key, while unlocked.
    pub fn master_key(&self) -> (r: Option<&MasterKey>)
        ensures
            match r {
                Some(k) => self.key_view() == Some(k.key@),
                None => self.key_view() is None,
            },
    {
        match &self.master_key {
            Some(k) => Some(k),
            None => None,
        }
    }

    /// Get a reference to the database for queries.
    pub fn db(&self) -> (r: &Database)
        ensures
            r@ == self.db_view(),
    {
        &self.db
    }

    /// Takes up tables read afresh from storage, keeping the configuration
    /// and the lock state.
    pub fn reload(&mut self, db: Database)
        requires
            db@.wf(),
        ensures
            final(self).wf(),
            final(self).db_view() == db@,
            final(self).key_view() == old(self).key_view(),
            final(self).config_view() == old(self).config_view(),
    {
        self.db = db;
    }

    /// Hands out the configuration, the database and the master key, for
    /// work that takes them apart (the file watcher changes the database
    /// while it holds the key).
    pub fn into_parts(self) -> (r: (Config, Database, Option<MasterKey>))
        requires
            self.wf(),
        ensures
            r.0 == *self.config_view(),
            r.1@ == self.db_view(),
            r.1@.wf(),
            match r.2 {
                Some(k) => self.key_view() == Some(k.key@),
                None => self.key_view() is None,
            },
    {
        (self.config, self.db, self.master_key)
    }

    /// Get a reference to the config.
    pub fn config(&self) -> (r: &Config)
        ensures
            r == self.config_view(),
    {
        &self.config
    }
}

/// Whether a character is white space in Unicode (`char::is_whitespace`).
pub open spec fn is_white(c: char) -> bool {
    let v = c as int;
    ||| 9 <= v <= 13
    ||| v == 32
    ||| v == 0x85
    ||| v == 0xA0
    ||| v == 0x1680
    ||| 0x2000 <= v <= 0x200A
    ||| v == 0x2028
    ||| v == 0x2029
    ||| v == 0x202F
    ||| v == 0x205F
    ||| v == 0x3000
}

/// The text without its leading white space.
pub open spec fn trim_start(s: Seq<char>) -> Seq<char>
    decreases s.len(),
{
    if s.len() > 0 && is_white(s[0]) {
        trim_start(s.drop_first())
    } else {
        s
    }
}

/// The text without its trailing white space.
pub open spec fn trim_end(s: Seq<char>) -> Seq<char>
    decreases s.len(),
{
    if s.len() > 0 && is_white(s.last()) {
        trim_end(s.drop_last())
    } else {
        s
    }
}

/// The text without white space at either end (`str::trim`).
pub open spec fn spec_trim(s: Seq<char>) -> Seq<char> {
    trim_end(trim_start(s))
}

/// Whether a character is an ASCII digit.
pub open spec fn is_digit(c: char) -> bool {
    48 <= c as int <= 57
}

/// The number that decimal digits write.
pub open spec fn decimal_value(d: Seq<char>) -> int
    decreases d.len(),
{
    if d.len() == 0 {
        0
    } else {
        decimal_value(d.drop_last()) * 10 + (d.last() as int - 48)
    }
}

/// Whether a text starts with a sign.
pub open spec fn has_sign(t: Seq<char>) -> bool {
    t.len() > 0 && (t[0] == '-' || t[0] == '+')
}

/// The text after its sign, if any.
pub open spec fn unsigned_part(t: Seq<char>) -> Seq<char> {
    if has_sign(t) {
        t.drop_first()
    } else {
        t
    }
}

/// Whether every character is a digit.
pub open spec fn all_digits(d: Seq<char>) -> bool {
    forall|i: int| 0 <= i < d.len() ==> is_digit(#[trigger] d[i])
}

/// The value a signed decimal text writes.
pub open spec fn signed_value(t: Seq<char>) -> int {
    if t.len() > 0 && t[0] == '-' {
        -decimal_value(unsigned_part(t))
    } else {
        decimal_value(unsigned_part(t))
    }
}

/// What `str::parse::<i32>` gives: an optional `+` or `-` and at least one
/// digit, and nothing else, of a value that fits.
pub open spec fn parse_i32_text(t: Seq<char>) -> Option<i32> {
    if unsigned_part(t).len() == 0 || !all_digits(unsigned_part(t)) {
        None
    } else if i32::MIN <= signed_value(t) <= i32::MAX {
        Some(signed_value(t) as i32)
    } else {
        None
    }
}

proof fn lemma_decimal_grows(d: Seq<char>, i: int)
    requires
        0 <= i <= d.len(),
        forall|k: int| 0 <= k < d.len() ==> is_digit(#[trigger] d[k]),
    ensures
        0 <= decimal_value(d.take(i)) <= decimal_value(d),
    decreases d.len() - i,
{
    if i < d.len() {
        lemma_decimal_grows(d, i + 1);
        assert(d.take(i + 1).drop_last() == d.take(i));
        assert(d.take(i + 1).last() == d[i]);
    } else {
        assert(d.take(i) == d);
        lemma_decimal_nonneg(d);
    }
}

proof fn lemma_decimal_nonneg(d: Seq<char>)
    requires
        forall|k: int| 0 <= k < d.len() ==> is_digit(#[trigger] d[k]),
    ensures
        decimal_value(d) >= 0,
    decreases d.len(),
{
    if d.len() > 0 {
        assert(d.last() == d[d.len() - 1]);
        lemma_decimal_nonneg(d.drop_last());
    }
}

fn is_white_char(c: char) -> (r: bool)
    ensures
        r == is_white(c),
{
    let v = code_point(c);
    (9 <= v && v <= 13) || v == 32 || v == 0x85 || v == 0xA0 || v == 0x1680 || (0x2000 <= v && v
        <= 0x200A) || v == 0x2028 || v == 0x2029 || v == 0x202F || v == 0x205F || v == 0x3000
}

/// Reads a process id as `text.trim().parse::<i32>()` does.
pub fn parse_pid(text: &str) -> (r: Option<i32>)
    ensures
        r == parse_i32_text(spec_trim(text@)),
{
    let c = chars_of(text);
    let n = c.len();
    let mut start: usize = 0;
    assert(c@.skip(0) == c@);
    while start < n && is_white_char(c[start])
        invariant
            n == c@.len(),
            start <= n,
            trim_start(c@) == trim_start(c@.skip(start as int)),
        decreases n - start,
    {
        assert(c@.skip(start as int).drop_first() == c@.skip(start + 1));
        start += 1;
    }
    assert(trim_start(c@) == c@.skip(start as int));
    let mut end: usize = n;
    assert(c@.subrange(start as int, n as int) == c@.skip(start as int));
    while end > start && is_white_char(c[end - 1])
        invariant
            n == c@.len(),
            start <= end <= n,
            spec_trim(c@) == trim_end(c@.subrange(start as int, end as int)),
        decreases end,
    {
        assert(c@.subrange(start as int, end as int).drop_last() == c@.subrange(start as int, end - 1));
        end -= 1;
    }
    assert(spec_trim(c@) == c@.subrange(start as int, end as int));
    let ghost t = c@.subrange(start as int, end as int);
    let mut i = start;
    let mut neg = false;
    if i < end && (c[i] == '-' || c[i] == '+') {
        neg = c[i] == '-';
        i += 1;
    }
    let ghost digits = c@.subrange(i as int, end as int);
    proof {
        if t.len() > 0 && (t[0] == '-' || t[0] == '+') {
            assert(digits == t.drop_first());
        } else {
            assert(digits == t);
        }
    }
    if i == end {
        return None;
    }
    let digits_start = i;
    let mut value: i64 = 0;
    while i < end
        invariant
            digits_start <= i <= end <= n,
            n == c.len(),
            c@ == text@,
            t == spec_trim(text@),
            neg == (t.len() > 0 && t[0] == '-'),
            digits == unsigned_part(t),
            digits == c@.subrange(digits_start as int, end as int),
            forall|k: int| digits_start <= k < i ==> is_digit(#[trigger] c@[k]),
            value == decimal_value(c@.subrange(digits_start as int, i as int)),
            0 <= value <= 2147483648,
        decreases end - i,
    {
        let ch = c[i];
        let cp = code_point(ch);
        if !(48 <= cp && cp <= 57) {
            proof {
                assert(digits[i - digits_start] == ch);
                assert(!is_digit(digits[i - digits_start]));
                assert(!all_digits(digits));
                assert(parse_i32_text(t) is None);
            }
            return None;
        }
        let d = (cp - 48) as i64;
        let ghost sub = c@.subrange(digits_start as int, i + 1);
        assert(sub.drop_last() == c@.subrange(digits_start as int, i as int));
        assert(sub.last() == ch);
        assert(decimal_value(sub) == value * 10 + d);
        value = value * 10 + d;
        i += 1;
        if value > 2147483648 {
            proof {
                if all_digits(digits) {
                    lemma_decimal_grows(digits, i - digits_start);
                    assert(digits.take(i - digits_start) == sub);
                    assert(decimal_value(digits) > 2147483648);
                    assert(digits.len() > 0);
                    assert(parse_i32_text(t) is None);
                } else {
                    assert(parse_i32_text(t) is None);
                }
            }
            return None;
        }
    }
    proof {
        assert forall|k: int| 0 <= k < digits.len() implies is_digit(#[trigger] digits[k]) by {
            assert(digits[k] == c@[digits_start + k]);
        }
        assert(digits == c@.subrange(digits_start as int, i as int));
    }
    if neg {
        Some((0 - value) as i32)
    } else if value <= 2147483647 {
        Some(value as i32)
    } else {
        None
    }
}

/// Handle daemon PID file management.
pub struct PidFile {
    path: String,
}

impl PidFile {
    /// The path of the PID file.
    pub closed spec fn path_view(&self) -> Seq<char> {
        self.path@
    }

    pub fn new(path: String) -> (r: PidFile)
        ensures
            r.path_view() == path@,
    {
        PidFile { path }
    }

    /// Where the PID file lives.
    pub fn path(&self) -> (r: &str)
        ensures
            r@ == self.path_view(),
    {
        self.path.as_str()
    }
}

} // verus!
