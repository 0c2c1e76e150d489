//! The keystore's tables: protected files, access logs, access policies and
//! key metadata, with the rules by which they are written and queried.
//!
//! Each table keeps its rows in the order in which queries present them:
//! files by path, access logs newest first (by timestamp, then by id),
//! policies by priority, highest first, and by id among equal priorities.
//! Row ids are handed out as SQLite hands out `AUTOINCREMENT` ids: one more
//! than the largest id ever given in that table, never reused.
use vstd::prelude::*;
use crate::crypto::{EncryptedFileKey, KeySalt};
use crate::glob::{glob, spec_glob};
use crate::text::{
    chars_of, lemma_text_lt_irreflexive, lemma_text_lt_total, lemma_text_lt_transitive, text_less,
    text_lt,
};

verus! {

/// Metadata for a protected file tracked in the database.
pub struct ProtectedFile {
    pub id: i64,
    pub path: String,
    pub encrypted_key: String,
    pub key_nonce: String,
    pub original_hash: String,
    pub encrypted_hash: String,
    pub original_size: i64,
    pub encrypted_size: i64,
    pub is_encrypted: bool,
    pub created_at: String,
    pub modified_at: String,
}

/// A protected file as a row of plain values.
pub struct FileRow {
    pub id: int,
    pub path: Seq<char>,
    pub encrypted_key: Seq<char>,
    pub key_nonce: Seq<char>,
    pub original_hash: Seq<char>,
    pub encrypted_hash: Seq<char>,
    pub original_size: int,
    pub encrypted_size: int,
    pub is_encrypted: bool,
    pub created_at: Seq<char>,
    pub modified_at: Seq<char>,
}

impl View for ProtectedFile {
    type V = FileRow;

    open spec fn view(&self) -> FileRow {
        FileRow {
            id: self.id as int,
            path: self.path@,
            encrypted_key: self.encrypted_key@,
            key_nonce: self.key_nonce@,
            original_hash: self.original_hash@,
            encrypted_hash: self.encrypted_hash@,
            original_size: self.original_size as int,
            encrypted_size: self.encrypted_size as int,
            is_encrypted: self.is_encrypted,
            created_at: self.created_at@,
            modified_at: self.modified_at@,
        }
    }
}

impl ProtectedFile {
    /// A copy of this record.
    pub fn duplicate(&self) -> (r: ProtectedFile)
        ensures
            r@ == self@,
    {
        ProtectedFile {
            id: self.id,
            path: self.path.clone(),
            encrypted_key: self.encrypted_key.clone(),
            key_nonce: self.key_nonce.clone(),
            original_hash: self.original_hash.clone(),
            encrypted_hash: self.encrypted_hash.clone(),
            original_size: self.original_size,
            encrypted_size: self.encrypted_size,
            is_encrypted: self.is_encrypted,
            created_at: self.created_at.clone(),
            modified_at: self.modified_at.clone(),
        }
    }
}

/// Access log entry.
pub struct AccessLog {
    pub id: i64,
    pub file_path: String,
    pub process_pid: i64,
    pub process_name: String,
    pub process_cmdline: String,
    pub action: String,
    pub allowed: bool,
    pub timestamp: String,
}

/// An access log entry as a row of plain values.
pub struct LogRow {
    pub id: int,
    pub file_path: Seq<char>,
    pub process_pid: int,
    pub process_name: Seq<char>,
    pub process_cmdline: Seq<char>,
    pub action: Seq<char>,
    pub allowed: bool,
    pub timestamp: Seq<char>,
}

impl View for AccessLog {
    type V = LogRow;

    open spec fn view(&self) -> LogRow {
        LogRow {
            id: self.id as int,
            file_path: self.file_path@,
            process_pid: self.process_pid as int,
            process_name: self.process_name@,
            process_cmdline: self.process_cmdline@,
            action: self.action@,
            allowed: self.allowed,
            timestamp: self.timestamp@,
        }
    }
}

impl AccessLog {
    /// A copy of this entry.
    pub fn duplicate(&self) -> (r: AccessLog)
        ensures
            r@ == self@,
    {
        AccessLog {
            id: self.id,
            file_path: self.file_path.clone(),
            process_pid: self.process_pid,
            process_name: self.process_name.clone(),
            process_cmdline: self.process_cmdline.clone(),
            action: self.action.clone(),
            allowed: self.allowed,
            timestamp: self.timestamp.clone(),
        }
    }
}

/// Access policy for a path or process.
pub struct Policy {
    pub id: i64,
    pub path_pattern: String,
    pub process_pattern: String,
    /// "allow", "deny" or "log".
    pub action: String,
    pub priority: i64,
    pub created_at: String,
}

/// A policy as a row of plain values.
pub struct PolicyRow {
    pub id: int,
    pub path_pattern: Seq<char>,
    pub process_pattern: Seq<char>,
    pub action: Seq<char>,
    pub priority: int,
    pub created_at: Seq<char>,
}

impl View for Policy {
    type V = PolicyRow;

    open spec fn view(&self) -> PolicyRow {
        PolicyRow {
            id: self.id as int,
            path_pattern: self.path_pattern@,
            process_pattern: self.process_pattern@,
            action: self.action@,
            priority: self.priority as int,
            created_at: self.created_at@,
        }
    }
}

impl Policy {
    /// A copy of this policy.
    pub fn duplicate(&self) -> (r: Policy)
        ensures
            r@ == self@,
    {
        Policy {
            id: self.id,
            path_pattern: self.path_pattern.clone(),
            process_pattern: self.process_pattern.clone(),
            action: self.action.clone(),
            priority: self.priority,
            created_at: self.created_at.clone(),
        }
    }
}

/// Key metadata stored for master key rotation.
pub struct KeyMetadata {
    pub id: i64,
    pub salt: String,
    pub key_wrapping_nonce: String,
    pub created_at: String,
}

/// Key metadata as a row of plain values.
pub struct KeyRow {
    pub id: int,
    pub salt: Seq<char>,
    pub key_wrapping_nonce: Seq<char>,
    pub created_at: Seq<char>,
}

impl View for KeyMetadata {
    type V = KeyRow;

    open spec fn view(&self) -> KeyRow {
        KeyRow {
            id: self.id as int,
            salt: self.salt@,
            key_wrapping_nonce: self.key_wrapping_nonce@,
            created_at: self.created_at@,
        }
    }
}

impl KeyMetadata {
    /// A copy of this row.
    pub fn duplicate(&self) -> (r: KeyMetadata)
        ensures
            r@ == self@,
    {
        KeyMetadata {
            id: self.id,
            salt: self.salt.clone(),
            key_wrapping_nonce: self.key_wrapping_nonce.clone(),
            created_at: self.created_at.clone(),
        }
    }
}

/// Why a write to the tables was refused.
#[derive(Debug, Clone, Copy, PartialEq, Eq)]
pub enum DbError {
    /// The table has handed out the largest id there is.
    TableFull,
    /// A policy's action is none of "allow", "deny" and "log".
    InvalidAction,
    /// Stored rows break the rules of their tables.
    InvalidRows,
}

/// The whole database as plain values.
pub struct DbView {
    pub files: Seq<FileRow>,
    pub file_seq: int,
    pub logs: Seq<LogRow>,
    pub log_seq: int,
    pub policies: Seq<PolicyRow>,
    pub policy_seq: int,
    pub keys: Seq<KeyRow>,
    pub key_seq: int,
    /// The id of the row that the latest successful insert created (0 before any).
    pub last_rowid: int,
}

/// The text "allow".
pub open spec fn allow_text() -> Seq<char> {
    seq!['a', 'l', 'l', 'o', 'w']
}

/// The text "deny".
pub open spec fn deny_text() -> Seq<char> {
    seq!['d', 'e', 'n', 'y']
}

/// The text "log".
pub open spec fn log_text() -> Seq<char> {
    seq!['l', 'o', 'g']
}

/// Whether a text is one of the three policy actions.
pub open spec fn is_policy_action(a: Seq<char>) -> bool {
    a == allow_text() || a == deny_text() || a == log_text()
}

/// Files are presented by path.
pub open spec fn file_before(a: FileRow, b: FileRow) -> bool {
    text_lt(a.path, b.path)
}

/// Logs are presented newest first: by timestamp, latest first, then by id, largest first.
pub open spec fn log_before(a: LogRow, b: LogRow) -> bool {
    text_lt(b.timestamp, a.timestamp) || (a.timestamp == b.timestamp && a.id > b.id)
}

/// Policies are presented by priority, highest first, then by id, smallest first.
pub open spec fn policy_before(a: PolicyRow, b: PolicyRow) -> bool {
    a.priority > b.priority || (a.priority == b.priority && a.id < b.id)
}

/// Whether every row comes before every later row.
pub open spec fn sorted_by<T>(s: Seq<T>, before: spec_fn(T, T) -> bool) -> bool {
    forall|i: int, j: int| 0 <= i < j < s.len() ==> before(#[trigger] s[i], #[trigger] s[j])
}

/// Whether an order is transitive.
pub open spec fn transitive<T>(before: spec_fn(T, T) -> bool) -> bool {
    forall|a: T, b: T, c: T| #[trigger] before(a, b) && #[trigger] before(b, c) ==> before(a, c)
}

pub open spec fn files_sorted(s: Seq<FileRow>) -> bool {
    sorted_by(s, |a: FileRow, b: FileRow| file_before(a, b))
}

pub open spec fn logs_sorted(s: Seq<LogRow>) -> bool {
    sorted_by(s, |a: LogRow, b: LogRow| log_before(a, b))
}

pub open spec fn policies_sorted(s: Seq<PolicyRow>) -> bool {
    sorted_by(s, |a: PolicyRow, b: PolicyRow| policy_before(a, b))
}

/// Inserting a row where it belongs keeps the rows in order.
pub proof fn lemma_insert_sorted<T>(s: Seq<T>, pos: int, x: T, before: spec_fn(T, T) -> bool)
    requires
        sorted_by(s, before),
        transitive(before),
        0 <= pos <= s.len(),
        forall|k: int| 0 <= k < pos ==> before(#[trigger] s[k], x),
        pos < s.len() ==> before(x, s[pos]),
    ensures
        sorted_by(s.insert(pos, x), before),
        rows_plus(s, s.insert(pos, x), x),
{
    let t = s.insert(pos, x);
    assert forall|i: int, j: int| 0 <= i < j < t.len() implies before(#[trigger] t[i], #[trigger] t[j]) by {
        if j < pos {
            assert(before(s[i], s[j]));
        } else if j == pos {
            assert(before(s[i], x));
        } else if i < pos {
            assert(before(s[i], s[j - 1]));
        } else if i == pos {
            if j - 1 > pos {
                assert(before(s[pos], s[j - 1]));
                assert(before(x, s[pos]));
            }
        } else {
            assert(before(s[i - 1], s[j - 1]));
        }
    }
    assert forall|y: T| t.contains(y) <==> (s.contains(y) || y == x) by {
        if t.contains(y) {
            let k = choose|k: int| 0 <= k < t.len() && t[k] == y;
            if k < pos {
                assert(s[k] == y);
            } else if k > pos {
                assert(s[k - 1] == y);
            }
        }
        if s.contains(y) {
            let k = choose|k: int| 0 <= k < s.len() && s[k] == y;
            if k < pos {
                assert(t[k] == y);
            } else {
                assert(t[k + 1] == y);
            }
        }
        if y == x {
            assert(t[pos] == y);
        }
    }
}

/// File order is transitive.
pub proof fn lemma_file_order()
    ensures
        transitive(|a: FileRow, b: FileRow| file_before(a, b)),
{
    assert forall|a: FileRow, b: FileRow, c: FileRow| #[trigger] file_before(a, b) && #[trigger] file_before(b, c) implies file_before(a, c) by {
        lemma_text_lt_transitive(a.path, b.path, c.path);
    }
}

/// Log order is transitive.
pub proof fn lemma_log_order()
    ensures
        transitive(|a: LogRow, b: LogRow| log_before(a, b)),
{
    assert forall|a: LogRow, b: LogRow, c: LogRow| #[trigger] log_before(a, b) && #[trigger] log_before(b, c) implies log_before(a, c) by {
        if text_lt(b.timestamp, a.timestamp) && text_lt(c.timestamp, b.timestamp) {
            lemma_text_lt_transitive(c.timestamp, b.timestamp, a.timestamp);
        }
    }
}

impl DbView {
    /// What every state of the database keeps.
    pub open spec fn wf(self) -> bool {
        &&& 0 <= self.file_seq <= i64::MAX
        &&& 0 <= self.log_seq <= i64::MAX
        &&& 0 <= self.policy_seq <= i64::MAX
        &&& 0 <= self.key_seq <= i64::MAX
        &&& 0 <= self.last_rowid <= i64::MAX
        &&& files_sorted(self.files)
        &&& logs_sorted(self.logs)
        &&& policies_sorted(self.policies)
        &&& self.keys.len() <= 1
        &&& forall|i: int| 0 <= i < self.files.len() ==> 1 <= #[trigger] self.files[i].id <= self.file_seq
        &&& forall|i: int| 0 <= i < self.logs.len() ==> 1 <= #[trigger] self.logs[i].id <= self.log_seq
        &&& forall|i: int| 0 <= i < self.policies.len() ==> 1 <= #[trigger] self.policies[i].id <= self.policy_seq
        &&& forall|i: int| 0 <= i < self.policies.len() ==> is_policy_action(#[trigger] self.policies[i].action)
        &&& forall|i: int, j: int|
            0 <= i < self.policies.len() && 0 <= j < self.policies.len() && i != j ==> #[trigger] self.policies[i].id
                != #[trigger] self.policies[j].id
        &&& forall|i: int| 0 <= i < self.keys.len() ==> 1 <= #[trigger] self.keys[i].id <= self.key_seq
    }
}

/// Whether some row of the table has this path.
pub open spec fn has_path(files: Seq<FileRow>, path: Seq<char>) -> bool {
    exists|i: int| 0 <= i < files.len() && #[trigger] files[i].path == path
}

/// The position of the row with this path.
pub open spec fn path_index(files: Seq<FileRow>, path: Seq<char>) -> int {
    choose|i: int| 0 <= i < files.len() && #[trigger] files[i].path == path
}

/// Whether `after` holds the rows of `before` and `row`, and nothing else.
pub open spec fn rows_plus<T>(before: Seq<T>, after: Seq<T>, row: T) -> bool {
    &&& after.len() == before.len() + 1
    &&& forall|x: T| after.contains(x) <==> (before.contains(x) || x == row)
}

/// How many rows a query with `LIMIT limit` returns out of `len`: all of
/// them when the limit is negative.
pub open spec fn limit_count(limit: int, len: int) -> int {
    if limit < 0 || limit >= len {
        len
    } else {
        limit
    }
}

pub open spec fn file_rows(v: Seq<ProtectedFile>) -> Seq<FileRow> {
    v.map_values(|f: ProtectedFile| f@)
}

pub open spec fn log_rows(v: Seq<AccessLog>) -> Seq<LogRow> {
    v.map_values(|l: AccessLog| l@)
}

pub open spec fn policy_rows(v: Seq<Policy>) -> Seq<PolicyRow> {
    v.map_values(|p: Policy| p@)
}

pub open spec fn key_rows(v: Seq<KeyMetadata>) -> Seq<KeyRow> {
    v.map_values(|k: KeyMetadata| k@)
}

/// The keystore database.
pub struct Database {
    files: Vec<ProtectedFile>,
    file_seq: i64,
    logs: Vec<AccessLog>,
    log_seq: i64,
    policies: Vec<Policy>,
    policy_seq: i64,
    keys: Vec<KeyMetadata>,
    key_seq: i64,
    last_rowid: i64,
}

impl View for Database {
    type V = DbView;

    closed spec fn view(&self) -> DbView {
        DbView {
            files: file_rows(self.files@),
            file_seq: self.file_seq as int,
            logs: log_rows(self.logs@),
            log_seq: self.log_seq as int,
            policies: policy_rows(self.policies@),
            policy_seq: self.policy_seq as int,
            keys: key_rows(self.keys@),
            key_seq: self.key_seq as int,
            last_rowid: self.last_rowid as int,
        }
    }
}

/// The unique row with a given path, if any, in a table sorted by path.
proof fn lemma_path_index(files: Seq<FileRow>, i: int)
    requires
        files_sorted(files),
        0 <= i < files.len(),
    ensures
        has_path(files, files[i].path),
        path_index(files, files[i].path) == i,
{
    let p = files[i].path;
    assert(files[i].path == p);
    let k = path_index(files, p);
    if k < i {
        assert(file_before(files[k], files[i]));
        lemma_text_lt_irreflexive(p);
    } else if k > i {
        assert(file_before(files[i], files[k]));
        lemma_text_lt_irreflexive(p);
    }
}

impl Database {
    /// An empty database.
    pub fn new() -> (r: Database)
        ensures
            r@.wf(),
            r@.files.len() == 0,
            r@.logs.len() == 0,
            r@.policies.len() == 0,
            r@.keys.len() == 0,
            r@.file_seq == 0,
            r@.log_seq == 0,
            r@.policy_seq == 0,
            r@.key_seq == 0,
            r@.last_rowid == 0,
    {
        let r = Database {
            files: Vec::new(),
            file_seq: 0,
            logs: Vec::new(),
            log_seq: 0,
            policies: Vec::new(),
            policy_seq: 0,
            keys: Vec::new(),
            key_seq: 0,
            last_rowid: 0,
        };
        assert(r@.files.len() == 0);
        r
    }

    /// Where the row with `path` stands, if any.
    fn find_file(&self, path: &String) -> (r: Option<usize>)
        requires
            self@.wf(),
        ensures
            r is Some <==> has_path(self@.files, path@),
            r matches Some(i) ==> i == path_index(self@.files, path@) && i < self.files.len(),
    {
        let mut i: usize = 0;
        while i < self.files.len()
            invariant
                self@.wf(),
                i <= self.files.len(),
                forall|j: int| 0 <= j < i ==> (#[trigger] self.files@[j]).path@ != path@,
            decreases self.files.len() - i,
        {
            if self.files[i].path == *path {
                proof {
                    assert(self@.files[i as int] == self.files@[i as int]@);
                    lemma_path_index(self@.files, i as int);
                }
                return Some(i);
            }
            i += 1;
        }
        assert forall|j: int| 0 <= j < self@.files.len() implies #[trigger] self@.files[j].path
            != path@ by {
            assert(self@.files[j] == self.files@[j]@);
        }
        None
    }

    /// The file tracked under `path`.
    pub fn get_protected_file(&self, path: &str) -> (r: Option<ProtectedFile>)
        requires
            self@.wf(),
        ensures
            r is Some <==> has_path(self@.files, path@),
            r matches Some(f) ==> f@ == self@.files[path_index(self@.files, path@)],
    {
        let p = path.to_owned();
        match self.find_file(&p) {
            Some(i) => {
                assert(self@.files[i as int] == self.files@[i as int]@);
                Some(self.files[i].duplicate())
            },
            None => None,
        }
    }

    /// All tracked files, by path.
    pub fn list_protected_files(&self) -> (r: Vec<ProtectedFile>)
        requires
            self@.wf(),
        ensures
            file_rows(r@) == self@.files,
    {
        let mut r: Vec<ProtectedFile> = Vec::new();
        let mut i: usize = 0;
        while i < self.files.len()
            invariant
                i <= self.files.len(),
                file_rows(r@) == file_rows(self.files@).take(i as int),
            decreases self.files.len() - i,
        {
            r.push(self.files[i].duplicate());
            assert(file_rows(self.files@).take(i + 1) == file_rows(self.files@).take(i as int).push(
                self.files@[i as int]@,
            ));
            assert(file_rows(r@) == file_rows(self.files@).take(i + 1));
            i += 1;
        }
        assert(file_rows(self.files@).take(self.files.len() as int) == file_rows(self.files@));
        r
    }

    /// Where a new row with `path` belongs in the table by path.
    fn file_position(&self, path: &str) -> (pos: usize)
        requires
            self@.wf(),
            !has_path(self@.files, path@),
        ensures
            pos <= self.files.len(),
            forall|k: int| 0 <= k < pos ==> text_lt(#[trigger] self@.files[k].path, path@),
            pos < self.files.len() ==> text_lt(path@, self@.files[pos as int].path),
    {
        let mut i: usize = 0;
        while i < self.files.len() && text_less(self.files[i].path.as_str(), path)
            invariant
                self@.wf(),
                i <= self.files.len(),
                forall|k: int| 0 <= k < i ==> text_lt(#[trigger] self@.files[k].path, path@),
            decreases self.files.len() - i,
        {
            assert(self@.files[i as int] == self.files@[i as int]@);
            i += 1;
        }
        proof {
            if i < self.files.len() {
                assert(self@.files[i as int] == self.files@[i as int]@);
                assert(self@.files[i as int].path != path@);
                lemma_text_lt_total(path@, self@.files[i as int].path);
            }
        }
        i
    }

    /// Registers a file as protected and stores its encrypted key; a file
    /// already tracked under `path` gets the new values and keeps its id and
    /// creation time. Returns the id of the row that the latest insert
    /// created, which is the new row's when there was none for `path`.
    pub fn add_protected_file(
        &mut self,
        path: &str,
        encrypted_key: &EncryptedFileKey,
        original_hash: &str,
        encrypted_hash: &str,
        original_size: i64,
        encrypted_size: i64,
        is_encrypted: bool,
        now: &str,
    ) -> (r: Result<i64, DbError>)
        requires
            old(self)@.wf(),
        ensures
            final(self)@.wf(),
            final(self)@.logs == old(self)@.logs,
            final(self)@.log_seq == old(self)@.log_seq,
            final(self)@.policies == old(self)@.policies,
            final(self)@.policy_seq == old(self)@.policy_seq,
            final(self)@.keys == old(self)@.keys,
            final(self)@.key_seq == old(self)@.key_seq,
            match r {
                Ok(id) => if has_path(old(self)@.files, path@) {
                    let i = path_index(old(self)@.files, path@);
                    &&& final(self)@.files == old(self)@.files.update(
                        i,
                        (FileRow {
                            id: old(self)@.files[i].id,
                            path: path@,
                            encrypted_key: encrypted_key.encrypted_key@,
                            key_nonce: encrypted_key.nonce@,
                            original_hash: original_hash@,
                            encrypted_hash: encrypted_hash@,
                            original_size: original_size as int,
                            encrypted_size: encrypted_size as int,
                            is_encrypted: is_encrypted,
                            created_at: old(self)@.files[i].created_at,
                            modified_at: now@,
                        }),
                    )
                    &&& final(self)@.file_seq == old(self)@.file_seq
                    &&& final(self)@.last_rowid == old(self)@.last_rowid
                    &&& id == old(self)@.last_rowid
                } else {
                    &&& id == old(self)@.file_seq + 1
                    &&& final(self)@.file_seq == id
                    &&& final(self)@.last_rowid == id
                    &&& rows_plus(
                        old(self)@.files,
                        final(self)@.files,
                        (FileRow {
                            id: id as int,
                            path: path@,
                            encrypted_key: encrypted_key.encrypted_key@,
                            key_nonce: encrypted_key.nonce@,
                            original_hash: original_hash@,
                            encrypted_hash: encrypted_hash@,
                            original_size: original_size as int,
                            encrypted_size: encrypted_size as int,
                            is_encrypted: is_encrypted,
                            created_at: now@,
                            modified_at: now@,
                        }),
                    )
                },
                Err(e) => {
                    &&& e == DbError::TableFull
                    &&& !has_path(old(self)@.files, path@)
                    &&& old(self)@.file_seq == i64::MAX
                    &&& final(self)@ == old(self)@
                },
            },
    {
        let p = path.to_owned();
        match self.find_file(&p) {
            Some(i) => {
                let ghost old_rows = self@.files;
                let id = self.files[i].id;
                let created_at = self.files[i].created_at.clone();
                let row = ProtectedFile {
                    id,
                    path: p,
                    encrypted_key: encrypted_key.encrypted_key.clone(),
                    key_nonce: encrypted_key.nonce.clone(),
                    original_hash: original_hash.to_owned(),
                    encrypted_hash: encrypted_hash.to_owned(),
                    original_size,
                    encrypted_size,
                    is_encrypted,
                    created_at,
                    modified_at: now.to_owned(),
                };
                assert(old_rows[i as int] == self.files@[i as int]@);
                self.files.set(i, row);
                proof {
                    assert(self@.files == old_rows.update(i as int, row@));
                    assert forall|a: int, b: int| 0 <= a < b < self@.files.len() implies file_before(
                        #[trigger] self@.files[a],
                        #[trigger] self@.files[b],
                    ) by {
                        assert(file_before(old_rows[a], old_rows[b]));
                    }
                }
                Ok(self.last_rowid)
            },
            None => {
                if self.file_seq == i64::MAX {
                    return Err(DbError::TableFull);
                }
                let id = self.file_seq + 1;
                let pos = self.file_position(path);
                let ghost old_rows = self@.files;
                let row = ProtectedFile {
                    id,
                    path: p,
                    encrypted_key: encrypted_key.encrypted_key.clone(),
                    key_nonce: encrypted_key.nonce.clone(),
                    original_hash: original_hash.to_owned(),
                    encrypted_hash: encrypted_hash.to_owned(),
                    original_size,
                    encrypted_size,
                    is_encrypted,
                    created_at: now.to_owned(),
                    modified_at: now.to_owned(),
                };
                self.files.insert(pos, row);
                self.file_seq = id;
                self.last_rowid = id;
                proof {
                    assert(self@.files == old_rows.insert(pos as int, row@));
                    lemma_file_order();
                    lemma_insert_sorted(old_rows, pos as int, row@, |a: FileRow, b: FileRow| file_before(a, b));
                }
                Ok(id)
            },
        }
    }

    /// Stops tracking the file under `path`; tells whether a row went.
    pub fn remove_protected_file(&mut self, path: &str) -> (r: bool)
        requires
            old(self)@.wf(),
        ensures
            final(self)@.wf(),
            r == has_path(old(self)@.files, path@),
            final(self)@.files == (if r {
                old(self)@.files.remove(path_index(old(self)@.files, path@))
            } else {
                old(self)@.files
            }),
            final(self)@ == (DbView { files: final(self)@.files, ..old(self)@ }),
    {
        let p = path.to_owned();
        match self.find_file(&p) {
            Some(i) => {
                let ghost old_rows = self@.files;
                let _gone = self.files.remove(i);
                proof {
                    assert(self@.files == old_rows.remove(i as int));
                    assert forall|a: int, b: int| 0 <= a < b < self@.files.len() implies file_before(
                        #[trigger] self@.files[a],
                        #[trigger] self@.files[b],
                    ) by {
                        if b < i {
                            assert(file_before(old_rows[a], old_rows[b]));
                        } else if a < i {
                            assert(file_before(old_rows[a], old_rows[b + 1]));
                        } else {
                            assert(file_before(old_rows[a + 1], old_rows[b + 1]));
                        }
                    }
                }
                true
            },
            None => false,
        }
    }

    /// Sets whether the file under `path` is encrypted, stamping its modification time.
    pub fn set_file_encrypted(&mut self, path: &str, is_encrypted: bool, now: &str)
        requires
            old(self)@.wf(),
        ensures
            final(self)@.wf(),
            final(self)@.files == (if has_path(old(self)@.files, path@) {
                old(self)@.files.update(
                    path_index(old(self)@.files, path@),
                    (FileRow {
                        is_encrypted: is_encrypted,
                        modified_at: now@,
                        ..old(self)@.files[path_index(old(self)@.files, path@)]
                    }),
                )
            } else {
                old(self)@.files
            }),
            final(self)@ == (DbView { files: final(self)@.files, ..old(self)@ }),
    {
        let p = path.to_owned();
        match self.find_file(&p) {
            Some(i) => {
                let ghost old_rows = self@.files;
                let mut row = self.files[i].duplicate();
                row.is_encrypted = is_encrypted;
                row.modified_at = now.to_owned();
                assert(old_rows[i as int] == self.files@[i as int]@);
                self.files.set(i, row);
                proof {
                    assert(self@.files == old_rows.update(i as int, row@));
                    assert forall|a: int, b: int| 0 <= a < b < self@.files.len() implies file_before(
                        #[trigger] self@.files[a],
                        #[trigger] self@.files[b],
                    ) by {
                        assert(file_before(old_rows[a], old_rows[b]));
                    }
                }
            },
            None => {},
        }
    }

    /// Logs an access event, stamped `now`; returns the new entry's id.
    pub fn log_access(
        &mut self,
        file_path: &str,
        process_pid: i64,
        process_name: &str,
        process_cmdline: &str,
        action: &str,
        allowed: bool,
        now: &str,
    ) -> (r: Result<i64, DbError>)
        requires
            old(self)@.wf(),
        ensures
            final(self)@.wf(),
            match r {
                Ok(id) => {
                    &&& id == old(self)@.log_seq + 1
                    &&& rows_plus(
                        old(self)@.logs,
                        final(self)@.logs,
                        (LogRow {
                            id: id as int,
                            file_path: file_path@,
                            process_pid: process_pid as int,
                            process_name: process_name@,
                            process_cmdline: process_cmdline@,
                            action: action@,
                            allowed: allowed,
                            timestamp: now@,
                        }),
                    )
                    &&& final(self)@ == (DbView {
                        logs: final(self)@.logs,
                        log_seq: id as int,
                        last_rowid: id as int,
                        ..old(self)@
                    })
                },
                Err(e) => {
                    &&& e == DbError::TableFull
                    &&& old(self)@.log_seq == i64::MAX
                    &&& final(self)@ == old(self)@
                },
            },
    {
        if self.log_seq == i64::MAX {
            return Err(DbError::TableFull);
        }
        let id = self.log_seq + 1;
        let mut pos: usize = 0;
        while pos < self.logs.len() && text_less(now, self.logs[pos].timestamp.as_str())
            invariant
                self@.wf(),
                pos <= self.logs.len(),
                forall|k: int| 0 <= k < pos ==> text_lt(now@, #[trigger] self@.logs[k].timestamp),
            decreases self.logs.len() - pos,
        {
            assert(self@.logs[pos as int] == self.logs@[pos as int]@);
            pos += 1;
        }
        let ghost old_rows = self@.logs;
        let row = AccessLog {
            id,
            file_path: file_path.to_owned(),
            process_pid,
            process_name: process_name.to_owned(),
            process_cmdline: process_cmdline.to_owned(),
            action: action.to_owned(),
            allowed,
            timestamp: now.to_owned(),
        };
        proof {
            if pos < old_rows.len() {
                assert(old_rows[pos as int] == self.logs@[pos as int]@);
                lemma_text_lt_total(now@, old_rows[pos as int].timestamp);
                assert(log_before(row@, old_rows[pos as int]));
            }
            assert forall|k: int| 0 <= k < pos implies log_before(#[trigger] old_rows[k], row@) by {
                assert(text_lt(now@, old_rows[k].timestamp));
            }
        }
        self.logs.insert(pos, row);
        self.log_seq = id;
        self.last_rowid = id;
        proof {
            assert(self@.logs == old_rows.insert(pos as int, row@));
            lemma_log_order();
            lemma_insert_sorted(old_rows, pos as int, row@, |a: LogRow, b: LogRow| log_before(a, b));
        }
        Ok(id)
    }

    /// The `limit` most recent access logs (all of them when `limit` is negative).
    pub fn list_access_logs(&self, limit: i64) -> (r: Vec<AccessLog>)
        requires
            self@.wf(),
        ensures
            log_rows(r@) == self@.logs.take(limit_count(limit as int, self@.logs.len() as int)),
    {
        let n = self.logs.len();
        let count: usize = if limit < 0 || limit as u64 >= n as u64 {
            n
        } else {
            limit as usize
        };
        let mut r: Vec<AccessLog> = Vec::new();
        let mut i: usize = 0;
        while i < count
            invariant
                count <= self.logs.len(),
                i <= count,
                log_rows(r@) == log_rows(self.logs@).take(i as int),
            decreases count - i,
        {
            r.push(self.logs[i].duplicate());
            assert(log_rows(self.logs@).take(i + 1) == log_rows(self.logs@).take(i as int).push(
                self.logs@[i as int]@,
            ));
            assert(log_rows(r@) == log_rows(self.logs@).take(i + 1));
            i += 1;
        }
        r
    }

    /// The `limit` most recent access logs of one file path (all of them when
    /// `limit` is negative).
    pub fn list_access_logs_for_path(&self, path: &str, limit: i64) -> (r: Vec<AccessLog>)
        requires
            self@.wf(),
        ensures
            ({
                let matching = self@.logs.filter(|l: LogRow| l.file_path == path@);
                log_rows(r@) == matching.take(limit_count(limit as int, matching.len() as int))
            }),
    {
        let p = path.to_owned();
        let ghost pred = |l: LogRow| l.file_path == path@;
        let mut r: Vec<AccessLog> = Vec::new();
        let mut i: usize = 0;
        while i < self.logs.len()
            invariant
                p@ == path@,
                pred == (|l: LogRow| l.file_path == path@),
                i <= self.logs.len(),
                log_rows(r@) == log_rows(self.logs@).take(i as int).filter(pred),
            decreases self.logs.len() - i,
        {
            proof {
                reveal_with_fuel(Seq::<_>::filter, 1);
                assert(log_rows(self.logs@).take(i + 1).drop_last() == log_rows(self.logs@).take(
                    i as int,
                ));
            }
            if self.logs[i].file_path == p {
                r.push(self.logs[i].duplicate());
                assert(log_rows(r@) == log_rows(self.logs@).take(i + 1).filter(pred));
            }
            i += 1;
        }
        assert(log_rows(self.logs@).take(self.logs.len() as int) == log_rows(self.logs@));
        let n = r.len();
        if limit >= 0 && (limit as u64) < (n as u64) {
            r.truncate(limit as usize);
        }
        r
    }

    /// Adds an access policy, stamped `now`; returns its id.
    pub fn add_policy(
        &mut self,
        path_pattern: &str,
        process_pattern: &str,
        action: &str,
        priority: i64,
        now: &str,
    ) -> (r: Result<i64, DbError>)
        requires
            old(self)@.wf(),
        ensures
            final(self)@.wf(),
            match r {
                Ok(id) => {
                    &&& is_policy_action(action@)
                    &&& id == old(self)@.policy_seq + 1
                    &&& rows_plus(
                        old(self)@.policies,
                        final(self)@.policies,
                        (PolicyRow {
                            id: id as int,
                            path_pattern: path_pattern@,
                            process_pattern: process_pattern@,
                            action: action@,
                            priority: priority as int,
                            created_at: now@,
                        }),
                    )
                    &&& final(self)@ == (DbView {
                        policies: final(self)@.policies,
                        policy_seq: id as int,
                        last_rowid: id as int,
                        ..old(self)@
                    })
                },
                Err(e) => {
                    &&& final(self)@ == old(self)@
                    &&& e == (if old(self)@.policy_seq == i64::MAX {
                        DbError::TableFull
                    } else {
                        DbError::InvalidAction
                    })
                    &&& (old(self)@.policy_seq == i64::MAX || !is_policy_action(action@))
                },
            },
    {
        if self.policy_seq == i64::MAX {
            return Err(DbError::TableFull);
        }
        if !policy_action_text(action) {
            return Err(DbError::InvalidAction);
        }
        let id = self.policy_seq + 1;
        let mut pos: usize = 0;
        while pos < self.policies.len() && self.policies[pos].priority >= priority
            invariant
                self@.wf(),
                pos <= self.policies.len(),
                forall|k: int| 0 <= k < pos ==> #[trigger] self@.policies[k].priority >= priority,
            decreases self.policies.len() - pos,
        {
            assert(self@.policies[pos as int] == self.policies@[pos as int]@);
            pos += 1;
        }
        let ghost old_rows = self@.policies;
        let row = Policy {
            id,
            path_pattern: path_pattern.to_owned(),
            process_pattern: process_pattern.to_owned(),
            action: action.to_owned(),
            priority,
            created_at: now.to_owned(),
        };
        proof {
            if pos < old_rows.len() {
                assert(old_rows[pos as int] == self.policies@[pos as int]@);
            }
            assert forall|k: int| 0 <= k < pos implies policy_before(#[trigger] old_rows[k], row@) by {
                assert(old_rows[k].id <= old_rows.len() + 0 || old_rows[k].id <= self@.policy_seq);
            }
        }
        self.policies.insert(pos, row);
        self.policy_seq = id;
        self.last_rowid = id;
        proof {
            assert(self@.policies == old_rows.insert(pos as int, row@));
            lemma_policy_order();
            lemma_insert_sorted(old_rows, pos as int, row@, |a: PolicyRow, b: PolicyRow| policy_before(a, b));
            assert forall|i: int, j: int|
                0 <= i < self@.policies.len() && 0 <= j < self@.policies.len() && i != j implies #[trigger] self@.policies[i].id
                    != #[trigger] self@.policies[j].id by {
                if i < pos && j < pos {
                    assert(old_rows[i] == self@.policies[i] && old_rows[j] == self@.policies[j]);
                } else if i > pos && j > pos {
                    assert(old_rows[i - 1] == self@.policies[i] && old_rows[j - 1] == self@.policies[j]);
                } else if i < pos && j > pos {
                    assert(old_rows[i] == self@.policies[i] && old_rows[j - 1] == self@.policies[j]);
                } else if i > pos && j < pos {
                    assert(old_rows[i - 1] == self@.policies[i] && old_rows[j] == self@.policies[j]);
                } else if i == pos {
                    if j < pos {
                        assert(old_rows[j] == self@.policies[j]);
                    } else {
                        assert(old_rows[j - 1] == self@.policies[j]);
                    }
                } else {
                    if i < pos {
                        assert(old_rows[i] == self@.policies[i]);
                    } else {
                        assert(old_rows[i - 1] == self@.policies[i]);
                    }
                }
            }
        }
        Ok(id)
    }

    /// The policy that governs `process_name` touching `path`: the first, in
    /// presentation order, whose path pattern globs the path and whose process
    /// pattern globs the process name or is "*".
    pub fn get_policy(&self, path: &str, process_name: &str) -> (r: Option<Policy>)
        requires
            self@.wf(),
        ensures
            opt_policy_row(r) == first_applicable(self@.policies, path@, process_name@),
    {
        let mut i: usize = 0;
        assert(self@.policies.skip(0) == self@.policies);
        while i < self.policies.len()
            invariant
                i <= self.policies.len(),
                first_applicable(self@.policies, path@, process_name@) == first_applicable(
                    self@.policies.skip(i as int),
                    path@,
                    process_name@,
                ),
            decreases self.policies.len() - i,
        {
            let p = &self.policies[i];
            assert(self@.policies.skip(i as int)[0] == p@);
            assert(self@.policies.skip(i as int).drop_first() == self@.policies.skip(i + 1));
            if glob(p.path_pattern.as_str(), path) && (glob(p.process_pattern.as_str(), process_name)
                || is_star(p.process_pattern.as_str())) {
                return Some(p.duplicate());
            }
            i += 1;
        }
        None
    }

    /// All policies, by priority (highest first), then by id.
    pub fn list_policies(&self) -> (r: Vec<Policy>)
        requires
            self@.wf(),
        ensures
            policy_rows(r@) == self@.policies,
    {
        let mut r: Vec<Policy> = Vec::new();
        let mut i: usize = 0;
        while i < self.policies.len()
            invariant
                i <= self.policies.len(),
                policy_rows(r@) == policy_rows(self.policies@).take(i as int),
            decreases self.policies.len() - i,
        {
            r.push(self.policies[i].duplicate());
            assert(policy_rows(self.policies@).take(i + 1) == policy_rows(self.policies@).take(
                i as int,
            ).push(self.policies@[i as int]@));
            assert(policy_rows(r@) == policy_rows(self.policies@).take(i + 1));
            i += 1;
        }
        assert(policy_rows(self.policies@).take(self.policies.len() as int) == policy_rows(
            self.policies@,
        ));
        r
    }

    /// Removes the policy with this id; tells whether one went.
    pub fn remove_policy(&mut self, id: i64) -> (r: bool)
        requires
            old(self)@.wf(),
        ensures
            final(self)@.wf(),
            r == has_policy_id(old(self)@.policies, id as int),
            final(self)@.policies == (if r {
                old(self)@.policies.remove(policy_id_index(old(self)@.policies, id as int))
            } else {
                old(self)@.policies
            }),
            final(self)@ == (DbView { policies: final(self)@.policies, ..old(self)@ }),
    {
        let mut i: usize = 0;
        while i < self.policies.len()
            invariant
                self@.wf(),
                self@ == old(self)@,
                i <= self.policies.len(),
                forall|k: int| 0 <= k < i ==> (#[trigger] self@.policies[k]).id != id,
            decreases self.policies.len() - i,
        {
            assert(self@.policies[i as int] == self.policies@[i as int]@);
            if self.policies[i].id == id {
                let ghost old_rows = self@.policies;
                proof {
                    let k = policy_id_index(old_rows, id as int);
                    assert(old_rows[i as int].id == id);
                    assert(old_rows[k].id == id);
                    assert(k == i);
                }
                let _gone = self.policies.remove(i);
                proof {
                    assert(self@.policies == old_rows.remove(i as int));
                    assert forall|a: int, b: int| 0 <= a < b < self@.policies.len() implies policy_before(
                        #[trigger] self@.policies[a],
                        #[trigger] self@.policies[b],
                    ) by {
                        if b < i {
                            assert(policy_before(old_rows[a], old_rows[b]));
                        } else if a < i {
                            assert(policy_before(old_rows[a], old_rows[b + 1]));
                        } else {
                            assert(policy_before(old_rows[a + 1], old_rows[b + 1]));
                        }
                    }
                    assert forall|a: int, b: int|
                        0 <= a < self@.policies.len() && 0 <= b < self@.policies.len() && a != b implies #[trigger] self@.policies[a].id
                            != #[trigger] self@.policies[b].id by {
                        let a2 = if a < i { a } else { a + 1 };
                        let b2 = if b < i { b } else { b + 1 };
                        assert(old_rows[a2] == self@.policies[a]);
                        assert(old_rows[b2] == self@.policies[b]);
                    }
                }
                return true;
            }
            i += 1;
        }
        false
    }

    /// Stores the key derivation salt, replacing any earlier one; returns
    /// the new row's id. When the table has handed out its last id, the
    /// earlier salt is gone all the same.
    pub fn store_key_salt(&mut self, salt: &KeySalt, now: &str) -> (r: Result<i64, DbError>)
        requires
            old(self)@.wf(),
        ensures
            final(self)@.wf(),
            match r {
                Ok(id) => {
                    &&& id == old(self)@.key_seq + 1
                    &&& final(self)@.keys == seq![
                        KeyRow {
                            id: id as int,
                            salt: salt.salt@,
                            key_wrapping_nonce: Seq::empty(),
                            created_at: now@,
                        },
                    ]
                    &&& final(self)@ == (DbView {
                        keys: final(self)@.keys,
                        key_seq: id as int,
                        last_rowid: id as int,
                        ..old(self)@
                    })
                },
                Err(e) => {
                    &&& e == DbError::TableFull
                    &&& old(self)@.key_seq == i64::MAX
                    &&& final(self)@ == (DbView { keys: Seq::empty(), ..old(self)@ })
                },
            },
    {
        self.keys = Vec::new();
        if self.key_seq == i64::MAX {
            assert(self@.keys == Seq::<KeyRow>::empty());
            return Err(DbError::TableFull);
        }
        let id = self.key_seq + 1;
        let row = KeyMetadata {
            id,
            salt: salt.salt.clone(),
            key_wrapping_nonce: String::new(),
            created_at: now.to_owned(),
        };
        self.keys.push(row);
        self.key_seq = id;
        self.last_rowid = id;
        assert(self@.keys == seq![row@]);
        Ok(id)
    }

    /// The stored key derivation salt.
    pub fn get_key_salt(&self) -> (r: Option<KeySalt>)
        requires
            self@.wf(),
        ensures
            r is Some <==> self@.keys.len() > 0,
            r matches Some(k) ==> k.salt@ == self@.keys[0].salt,
    {
        if self.keys.len() == 0 {
            None
        } else {
            assert(self@.keys[0] == self.keys@[0]@);
            Some(KeySalt { salt: self.keys[0].salt.clone() })
        }
    }
}

/// Every row follows the next one in a table where each adjacent pair is in order.
pub proof fn lemma_adjacent_sorted<T>(s: Seq<T>, before: spec_fn(T, T) -> bool)
    requires
        transitive(before),
        forall|k: int| 0 <= k && k + 1 < s.len() ==> before(#[trigger] s[k], s[k + 1]),
    ensures
        sorted_by(s, before),
{
    assert forall|i: int, j: int| 0 <= i < j < s.len() implies before(#[trigger] s[i], #[trigger] s[j]) by {
        lemma_chain(s, before, i, j);
    }
}

proof fn lemma_chain<T>(s: Seq<T>, before: spec_fn(T, T) -> bool, i: int, j: int)
    requires
        transitive(before),
        forall|k: int| 0 <= k && k + 1 < s.len() ==> before(#[trigger] s[k], s[k + 1]),
        0 <= i < j < s.len(),
    ensures
        before(s[i], s[j]),
    decreases j - i,
{
    if j > i + 1 {
        lemma_chain(s, before, i, j - 1);
        assert(before(s[j - 1], s[j]));
    }
}

/// The database that stored rows and sequences make, before any insert.
pub open spec fn restored_view(
    files: Seq<ProtectedFile>,
    file_seq: i64,
    logs: Seq<AccessLog>,
    log_seq: i64,
    policies: Seq<Policy>,
    policy_seq: i64,
    keys: Seq<KeyMetadata>,
    key_seq: i64,
) -> DbView {
    DbView {
        files: file_rows(files),
        file_seq: file_seq as int,
        logs: log_rows(logs),
        log_seq: log_seq as int,
        policies: policy_rows(policies),
        policy_seq: policy_seq as int,
        keys: key_rows(keys),
        key_seq: key_seq as int,
        last_rowid: 0,
    }
}

impl Database {
    /// A database holding stored rows, each table given in its presentation
    /// order with the largest id it has handed out, when they keep the
    /// tables' rules.
    pub fn restore(
        files: Vec<ProtectedFile>,
        file_seq: i64,
        logs: Vec<AccessLog>,
        log_seq: i64,
        policies: Vec<Policy>,
        policy_seq: i64,
        keys: Vec<KeyMetadata>,
        key_seq: i64,
    ) -> (r: Result<Database, DbError>)
        ensures
            r is Ok <==> restored_view(files@, file_seq, logs@, log_seq, policies@, policy_seq, keys@, key_seq).wf(),
            r matches Ok(d) ==> d@ == restored_view(files@, file_seq, logs@, log_seq, policies@, policy_seq, keys@, key_seq),
            r matches Err(e) ==> e == DbError::InvalidRows,
    {
        let d = Database { files, file_seq, logs, log_seq, policies, policy_seq, keys, key_seq, last_rowid: 0 };
        if file_seq < 0 || log_seq < 0 || policy_seq < 0 || key_seq < 0 {
            return Err(DbError::InvalidRows);
        }
        if !d.files_ok() || !d.logs_ok() || !d.policies_ok() || !d.keys_ok() {
            return Err(DbError::InvalidRows);
        }
        Ok(d)
    }

    fn files_ok(&self) -> (r: bool)
        ensures
            r == (files_sorted(self@.files) && forall|i: int|
                0 <= i < self@.files.len() ==> 1 <= #[trigger] self@.files[i].id <= self@.file_seq),
    {
        let n = self.files.len();
        let mut i: usize = 0;
        while i < n
            invariant
                n == self.files.len(),
                i <= n,
                forall|k: int| 0 <= k < i ==> 1 <= #[trigger] self@.files[k].id <= self@.file_seq,
                forall|k: int| 0 <= k && k + 1 < n && k < i ==> file_before(#[trigger] self@.files[k], self@.files[k + 1]),
            decreases n - i,
        {
            assert(self@.files[i as int] == self.files@[i as int]@);
            if self.files[i].id < 1 || self.files[i].id > self.file_seq {
                assert(!(1 <= self@.files[i as int].id <= self@.file_seq));
                return false;
            }
            if i + 1 < n {
                assert(self@.files[i + 1] == self.files@[i + 1]@);
                if !text_less(self.files[i].path.as_str(), self.files[i + 1].path.as_str()) {
                    assert(!file_before(self@.files[i as int], self@.files[i + 1]));
                    return false;
                }
            }
            i += 1;
        }
        proof {
            lemma_file_order();
            lemma_adjacent_sorted(self@.files, |a: FileRow, b: FileRow| file_before(a, b));
        }
        true
    }

    fn logs_ok(&self) -> (r: bool)
        ensures
            r == (logs_sorted(self@.logs) && forall|i: int|
                0 <= i < self@.logs.len() ==> 1 <= #[trigger] self@.logs[i].id <= self@.log_seq),
    {
        let n = self.logs.len();
        let mut i: usize = 0;
        while i < n
            invariant
                n == self.logs.len(),
                i <= n,
                forall|k: int| 0 <= k < i ==> 1 <= #[trigger] self@.logs[k].id <= self@.log_seq,
                forall|k: int| 0 <= k && k + 1 < n && k < i ==> log_before(#[trigger] self@.logs[k], self@.logs[k + 1]),
            decreases n - i,
        {
            assert(self@.logs[i as int] == self.logs@[i as int]@);
            if self.logs[i].id < 1 || self.logs[i].id > self.log_seq {
                assert(!(1 <= self@.logs[i as int].id <= self@.log_seq));
                return false;
            }
            if i + 1 < n {
                assert(self@.logs[i + 1] == self.logs@[i + 1]@);
                let a = &self.logs[i];
                let b = &self.logs[i + 1];
                let ordered = text_less(b.timestamp.as_str(), a.timestamp.as_str()) || (a.timestamp
                    == b.timestamp && a.id > b.id);
                if !ordered {
                    assert(!log_before(self@.logs[i as int], self@.logs[i + 1]));
                    return false;
                }
            }
            i += 1;
        }
        proof {
            lemma_log_order();
            lemma_adjacent_sorted(self@.logs, |a: LogRow, b: LogRow| log_before(a, b));
        }
        true
    }

    fn policies_ok(&self) -> (r: bool)
        ensures
            r == (policies_sorted(self@.policies) && (forall|i: int|
                0 <= i < self@.policies.len() ==> 1 <= #[trigger] self@.policies[i].id <= self@.policy_seq)
                && (forall|i: int| 0 <= i < self@.policies.len() ==> is_policy_action(#[trigger] self@.policies[i].action))
                && (forall|i: int, j: int|
                0 <= i < self@.policies.len() && 0 <= j < self@.policies.len() && i != j ==> #[trigger] self@.policies[i].id
                    != #[trigger] self@.policies[j].id)),
    {
        let n = self.policies.len();
        let mut i: usize = 0;
        while i < n
            invariant
                n == self.policies.len(),
                i <= n,
                forall|k: int| 0 <= k < i ==> 1 <= #[trigger] self@.policies[k].id <= self@.policy_seq,
                forall|k: int| 0 <= k < i ==> is_policy_action(#[trigger] self@.policies[k].action),
                forall|k: int| 0 <= k && k + 1 < n && k < i ==> policy_before(#[trigger] self@.policies[k], self@.policies[k + 1]),
            decreases n - i,
        {
            assert(self@.policies[i as int] == self.policies@[i as int]@);
            let p = &self.policies[i];
            if p.id < 1 || p.id > self.policy_seq || !policy_action_text(p.action.as_str()) {
                assert(!(1 <= self@.policies[i as int].id <= self@.policy_seq) || !is_policy_action(
                    self@.policies[i as int].action,
                ));
                return false;
            }
            if i + 1 < n {
                assert(self@.policies[i + 1] == self.policies@[i + 1]@);
                let q = &self.policies[i + 1];
                if !(p.priority > q.priority || (p.priority == q.priority && p.id < q.id)) {
                    assert(!policy_before(self@.policies[i as int], self@.policies[i + 1]));
                    return false;
                }
            }
            i += 1;
        }
        proof {
            lemma_policy_order();
            lemma_adjacent_sorted(self@.policies, |a: PolicyRow, b: PolicyRow| policy_before(a, b));
        }
        let mut a: usize = 0;
        while a < n
            invariant
                n == self.policies.len(),
                a <= n,
                forall|x: int, y: int|
                    0 <= x < a && 0 <= y < n && x != y ==> #[trigger] self@.policies[x].id
                        != #[trigger] self@.policies[y].id,
            decreases n - a,
        {
            let mut b: usize = 0;
            while b < n
                invariant
                    n == self.policies.len(),
                    a < n,
                    b <= n,
                    forall|x: int, y: int|
                        0 <= x < a && 0 <= y < n && x != y ==> #[trigger] self@.policies[x].id
                            != #[trigger] self@.policies[y].id,
                    forall|y: int| 0 <= y < b && y != a ==> self@.policies[a as int].id != #[trigger] self@.policies[y].id,
                decreases n - b,
            {
                assert(self@.policies[a as int] == self.policies@[a as int]@);
                assert(self@.policies[b as int] == self.policies@[b as int]@);
                if b != a && self.policies[a].id == self.policies[b].id {
                    assert(self@.policies[a as int].id == self@.policies[b as int].id);
                    return false;
                }
                b += 1;
            }
            a += 1;
        }
        true
    }

    fn keys_ok(&self) -> (r: bool)
        ensures
            r == (self@.keys.len() <= 1 && forall|i: int|
                0 <= i < self@.keys.len() ==> 1 <= #[trigger] self@.keys[i].id <= self@.key_seq),
    {
        if self.keys.len() > 1 {
            return false;
        }
        if self.keys.len() == 1 {
            assert(self@.keys[0] == self.keys@[0]@);
            if self.keys[0].id < 1 || self.keys[0].id > self.key_seq {
                assert(!(1 <= self@.keys[0].id <= self@.key_seq));
                return false;
            }
        }
        true
    }

    /// The key metadata rows.
    pub fn key_metadata(&self) -> (r: Vec<KeyMetadata>)
        ensures
            key_rows(r@) == self@.keys,
    {
        let mut r: Vec<KeyMetadata> = Vec::new();
        let mut i: usize = 0;
        while i < self.keys.len()
            invariant
                i <= self.keys.len(),
                key_rows(r@) == key_rows(self.keys@).take(i as int),
            decreases self.keys.len() - i,
        {
            r.push(self.keys[i].duplicate());
            assert(key_rows(self.keys@).take(i + 1) == key_rows(self.keys@).take(i as int).push(
                self.keys@[i as int]@,
            ));
            assert(key_rows(r@) == key_rows(self.keys@).take(i + 1));
            i += 1;
        }
        assert(key_rows(self.keys@).take(self.keys.len() as int) == key_rows(self.keys@));
        r
    }

    /// The largest id each table has handed out: files, logs, policies, keys.
    pub fn sequences(&self) -> (r: (i64, i64, i64, i64))
        ensures
            r.0 == self@.file_seq,
            r.1 == self@.log_seq,
            r.2 == self@.policy_seq,
            r.3 == self@.key_seq,
    {
        (self.file_seq, self.log_seq, self.policy_seq, self.key_seq)
    }
}

/// Whether a text is exactly "*".
fn is_star(t: &str) -> (r: bool)
    ensures
        r == (t@ == seq!['*']),
{
    let c = chars_of(t);
    if c.len() == 1 && c[0] == '*' {
        assert(c@ == seq!['*']);
        true
    } else {
        false
    }
}

/// Whether a text is one of the policy actions.
fn policy_action_text(t: &str) -> (r: bool)
    ensures
        r == is_policy_action(t@),
{
    let c = chars_of(t);
    let n = c.len();
    if n == 5 && c[0] == 'a' && c[1] == 'l' && c[2] == 'l' && c[3] == 'o' && c[4] == 'w' {
        assert(c@ == allow_text());
        return true;
    }
    if n == 4 && c[0] == 'd' && c[1] == 'e' && c[2] == 'n' && c[3] == 'y' {
        assert(c@ == deny_text());
        return true;
    }
    if n == 3 && c[0] == 'l' && c[1] == 'o' && c[2] == 'g' {
        assert(c@ == log_text());
        return true;
    }
    assert(c@ != allow_text()) by {
        if c@ == allow_text() {
            assert(c@[0] == 'a' && c@[1] == 'l' && c@[2] == 'l' && c@[3] == 'o' && c@[4] == 'w');
        }
    }
    assert(c@ != deny_text()) by {
        if c@ == deny_text() {
            assert(c@[0] == 'd' && c@[1] == 'e' && c@[2] == 'n' && c@[3] == 'y');
        }
    }
    assert(c@ != log_text()) by {
        if c@ == log_text() {
            assert(c@[0] == 'l' && c@[1] == 'o' && c@[2] == 'g');
        }
    }
    false
}

/// A policy taken by its view.
pub open spec fn opt_policy_row(r: Option<Policy>) -> Option<PolicyRow> {
    match r {
        Some(p) => Some(p@),
        None => None,
    }
}

/// Whether a policy covers `process` touching `path`.
pub open spec fn policy_applies(p: PolicyRow, path: Seq<char>, process: Seq<char>) -> bool {
    spec_glob(p.path_pattern, path) && (spec_glob(p.process_pattern, process) || p.process_pattern
        == seq!['*'])
}

/// The first policy, in presentation order, that covers `process` touching `path`.
pub open spec fn first_applicable(s: Seq<PolicyRow>, path: Seq<char>, process: Seq<char>) -> Option<
    PolicyRow,
>
    decreases s.len(),
{
    if s.len() == 0 {
        None
    } else if policy_applies(s[0], path, process) {
        Some(s[0])
    } else {
        first_applicable(s.drop_first(), path, process)
    }
}

/// Whether some policy has this id.
pub open spec fn has_policy_id(s: Seq<PolicyRow>, id: int) -> bool {
    exists|i: int| 0 <= i < s.len() && #[trigger] s[i].id == id
}

/// The position of the policy with this id.
pub open spec fn policy_id_index(s: Seq<PolicyRow>, id: int) -> int {
    choose|i: int| 0 <= i < s.len() && #[trigger] s[i].id == id
}

/// Policy order is transitive.
pub proof fn lemma_policy_order()
    ensures
        transitive(|a: PolicyRow, b: PolicyRow| policy_before(a, b)),
{
}

/// A file added under a new path is found under that path, with what was
/// written.
pub proof fn law_added_file_is_found(before: Seq<FileRow>, after: Seq<FileRow>, row: FileRow)
    requires
        files_sorted(after),
        rows_plus(before, after, row),
    ensures
        has_path(after, row.path),
        after[path_index(after, row.path)] == row,
{
    assert(after.contains(row));
    let k = choose|k: int| 0 <= k < after.len() && after[k] == row;
    lemma_path_index(after, k);
}

/// A file rewritten under its path is found under that path, with what was
/// written, where it stood before.
pub proof fn law_rewritten_file_is_found(files: Seq<FileRow>, path: Seq<char>, row: FileRow)
    requires
        files_sorted(files),
        has_path(files, path),
        row.path == path,
        files_sorted(files.update(path_index(files, path), row)),
    ensures
        has_path(files.update(path_index(files, path), row), path),
        path_index(files.update(path_index(files, path), row), path) == path_index(files, path),
        files.update(path_index(files, path), row)[path_index(files, path)] == row,
{
    let i = path_index(files, path);
    lemma_path_index(files.update(i, row), i);
}

/// A removed file is no longer found, and every other file stays.
pub proof fn law_removed_file_is_gone(files: Seq<FileRow>, path: Seq<char>)
    requires
        files_sorted(files),
        has_path(files, path),
    ensures
        !has_path(files.remove(path_index(files, path)), path),
        forall|q: Seq<char>| q != path ==> (has_path(files, q) <==> has_path(files.remove(path_index(files, path)), q)),
{
    let i = path_index(files, path);
    let rest = files.remove(i);
    if has_path(rest, path) {
        let k = choose|k: int| 0 <= k < rest.len() && #[trigger] rest[k].path == path;
        let k2 = if k < i { k } else { k + 1 };
        assert(files[k2].path == path);
        lemma_path_index(files, k2);
    }
    assert forall|q: Seq<char>| q != path implies (has_path(files, q) <==> has_path(rest, q)) by {
        if has_path(files, q) {
            let k = choose|k: int| 0 <= k < files.len() && #[trigger] files[k].path == q;
            assert(k != i);
            if k < i {
                assert(rest[k].path == q);
            } else {
                assert(rest[k - 1].path == q);
            }
        }
        if has_path(rest, q) {
            let k = choose|k: int| 0 <= k < rest.len() && #[trigger] rest[k].path == q;
            if k < i {
                assert(files[k].path == q);
            } else {
                assert(files[k + 1].path == q);
            }
        }
    }
}

/// The policy chosen for a path and a process is one that covers them, of
/// the highest priority among those that do, and of the smallest id among
/// those of that priority; when none covers them, none is chosen.
pub proof fn law_policy_choice(policies: Seq<PolicyRow>, path: Seq<char>, process: Seq<char>)
    requires
        policies_sorted(policies),
    ensures
        match first_applicable(policies, path, process) {
            Some(p) => {
                &&& policies.contains(p)
                &&& policy_applies(p, path, process)
                &&& forall|q: PolicyRow|
                    policies.contains(q) && policy_applies(q, path, process) ==> q.priority
                        < p.priority || (q.priority == p.priority && q.id >= p.id)
            },
            None => forall|q: PolicyRow| policies.contains(q) ==> !policy_applies(q, path, process),
        },
    decreases policies.len(),
{
    if policies.len() > 0 {
        let rest = policies.drop_first();
        assert forall|i: int, j: int| 0 <= i < j < rest.len() implies policy_before(#[trigger] rest[i], #[trigger] rest[j]) by {
            assert(policy_before(policies[i + 1], policies[j + 1]));
        }
        law_policy_choice(rest, path, process);
        if policy_applies(policies[0], path, process) {
            assert(policies.contains(policies[0]));
            assert forall|q: PolicyRow| policies.contains(q) && policy_applies(q, path, process) implies q.priority
                < policies[0].priority || (q.priority == policies[0].priority && q.id >= policies[0].id) by {
                let k = choose|k: int| 0 <= k < policies.len() && policies[k] == q;
                if k > 0 {
                    assert(policy_before(policies[0], policies[k]));
                }
            }
        } else {
            match first_applicable(rest, path, process) {
                Some(p) => {
                    let k = choose|k: int| 0 <= k < rest.len() && rest[k] == p;
                    assert(policies[k + 1] == p);
                    assert forall|q: PolicyRow| policies.contains(q) && policy_applies(q, path, process) implies q.priority
                        < p.priority || (q.priority == p.priority && q.id >= p.id) by {
                        let m = choose|m: int| 0 <= m < policies.len() && policies[m] == q;
                        if m == 0 {
                            assert(!policy_applies(policies[0], path, process));
                        }
                        assert(m > 0);
                        assert(rest[m - 1] == q);
                        assert(rest.contains(q));
                    }
                },
                None => {
                    assert forall|q: PolicyRow| policies.contains(q) implies !policy_applies(q, path, process) by {
                        let m = choose|m: int| 0 <= m < policies.len() && policies[m] == q;
                        if m > 0 {
                            assert(rest[m - 1] == q);
                            assert(rest.contains(q));
                        }
                    }
                },
            }
        }
    }
}

} // verus!
