//! The decisions of the file interceptor: which watched events it handles,
//! where a protected file's sealed copy lives, how a file is sealed and
//! registered, and how a sealed file is opened again.
//!
//! The interceptor's reading, writing and removing of files stays with its
//! caller; each step here takes what was read and gives what is to be
//! written.
use vstd::prelude::*;
use vstd::string::*;
use vstd::utf8::encode_utf8;
use crate::config::Config;
use crate::crypto::{
    self, decrypt_file, encrypt_file_with_nonce, file_decryption, generate_file_key, sealed_file,
    sha256, sha256_hash, spec_encrypted_size, wrap_file_key_with_nonce, CryptoError,
    EncryptedFileKey, MasterKey, MAX_PLAINTEXT,
};
use crate::db::{Database, DbError, DbView, FileRow, LogRow, ProtectedFile, has_path, path_index, rows_plus};
use crate::hex::{self, hex_encoding};
use crate::path::{
    extension, is_same_path, same_path, spec_extension, spec_starts_with, spec_with_extension,
    starts_with, with_extension,
};
use crate::text::{chars_of, push_char};

verus! {

/// What happened to a file.
#[derive(Debug, Clone, Copy, PartialEq, Eq)]
pub enum FileEventKind {
    Created,
    Modified,
    Deleted,
}

impl FileEventKind {
    /// The name of the kind.
    pub fn as_str(&self) -> (r: &'static str)
        ensures
            r@ == kind_name(*self),
    {
        proof {
            reveal_strlit("Created");
            reveal_strlit("Modified");
            reveal_strlit("Deleted");
        }
        match self {
            FileEventKind::Created => "Created",
            FileEventKind::Modified => "Modified",
            FileEventKind::Deleted => "Deleted",
        }
    }
}

/// The name of an event kind.
pub open spec fn kind_name(k: FileEventKind) -> Seq<char> {
    match k {
        FileEventKind::Created => seq!['C', 'r', 'e', 'a', 't', 'e', 'd'],
        FileEventKind::Modified => seq!['M', 'o', 'd', 'i', 'f', 'i', 'e', 'd'],
        FileEventKind::Deleted => seq!['D', 'e', 'l', 'e', 't', 'e', 'd'],
    }
}

/// A file event detected by the watcher.
pub struct FileEvent {
    pub path: String,
    pub kind: FileEventKind,
}

/// The kinds of event that the file watcher reports.
#[derive(Debug, Clone, Copy, PartialEq, Eq)]
pub enum WatchEventKind {
    Create,
    Modify,
    Remove,
    /// Access and everything else.
    Other,
}

/// Turns a watcher event into the interceptor's own: creations,
/// modifications and removals, of the event's first path.
pub fn convert_event(kind: WatchEventKind, paths: &Vec<String>) -> (r: Option<FileEvent>)
    ensures
        r is Some <==> (kind != WatchEventKind::Other && paths.len() > 0),
        r matches Some(e) ==> e.path@ == paths@[0]@ && e.kind == (match kind {
            WatchEventKind::Create => FileEventKind::Created,
            WatchEventKind::Modify => FileEventKind::Modified,
            _ => FileEventKind::Deleted,
        }),
{
    let k = match kind {
        WatchEventKind::Create => FileEventKind::Created,
        WatchEventKind::Modify => FileEventKind::Modified,
        WatchEventKind::Remove => FileEventKind::Deleted,
        WatchEventKind::Other => {
            return None;
        },
    };
    if paths.len() == 0 {
        return None;
    }
    Some(FileEvent { path: paths[0].clone(), kind: k })
}

/// The extension of sealed copies.
pub open spec fn secapp_text() -> Seq<char> {
    seq!['s', 'e', 'c', 'a', 'p', 'p']
}

/// Where the sealed copy of a file lives: the file's extension (or
/// nothing) followed by ".secapp" becomes its extension.
pub open spec fn spec_encrypted_path(p: Seq<char>) -> Seq<char> {
    let ext = match spec_extension(p) {
        Some(e) => e,
        None => Seq::empty(),
    };
    spec_with_extension(p, ext + seq!['.'] + secapp_text())
}

/// The sealed copy of a file whose name has an extension is the file's own
/// path followed by ".secapp": every earlier part of the name, earlier
/// extensions included, stays.
pub proof fn law_sealed_copy_path(dir: Seq<char>, stem: Seq<char>, x: Seq<char>)
    requires
        dir.len() == 0 || dir.last() == '/',
        stem.len() > 0,
        crate::path::slash_free(stem),
        x.len() > 0,
        crate::path::slash_free(x),
        forall|i: int| 0 <= i < x.len() ==> #[trigger] x[i] != '.',
    ensures
        spec_encrypted_path(dir + stem + seq!['.'] + x) == dir + stem + seq!['.'] + x + seq!['.'] + secapp_text(),
{
    let y = x + seq!['.'] + secapp_text();
    crate::path::law_last_extension(dir, stem, x, y);
    assert(dir + stem + seq!['.'] + y == dir + stem + seq!['.'] + x + seq!['.'] + secapp_text());
}

/// Where the sealed copy of a file lives.
pub fn encrypted_path_for(path: &str) -> (r: String)
    ensures
        r@ == spec_encrypted_path(path@),
{
    proof {
        reveal_strlit(".secapp");
        assert(".secapp"@ == seq!['.'] + secapp_text());
    }
    let mut ext = match extension(path) {
        Some(e) => e,
        None => String::new(),
    };
    ext.append(".secapp");
    with_extension(path, ext.as_str())
}

/// Whether a path is itself a sealed copy (its extension is "secapp").
pub fn is_sealed_copy(path: &str) -> (r: bool)
    ensures
        r == (spec_extension(path@) == Some(secapp_text())),
{
    match extension(path) {
        Some(e) => {
            let c = chars_of(e.as_str());
            if c.len() == 6 && c[0] == 's' && c[1] == 'e' && c[2] == 'c' && c[3] == 'a' && c[4]
                == 'p' && c[5] == 'p' {
                assert(c@ == secapp_text());
                true
            } else {
                proof {
                    if c@ == secapp_text() {
                        assert(c@[0] == 's' && c@[1] == 'e' && c@[2] == 'c' && c@[3] == 'a' && c@[4]
                            == 'p' && c@[5] == 'p');
                    }
                }
                false
            }
        },
        None => false,
    }
}

/// What the interceptor does with an event it takes up.
#[derive(Debug, Clone, Copy, PartialEq, Eq)]
pub enum EventStep {
    /// Nothing: the file is being handled already, or is not protected.
    Skip,
    /// Seal the file (it was created or modified).
    Encrypt,
    /// Forget the file (it was deleted).
    Delete,
}

/// File interceptor state: the protected directories, and the files being
/// handled, so that its own writes do not trigger it again.
pub struct Interceptor {
    protected_paths: Vec<String>,
    processing: Vec<String>,
}

/// The texts of a list of paths.
pub open spec fn texts(v: Seq<String>) -> Seq<Seq<char>> {
    v.map_values(|s: String| s@)
}

/// Whether a path is (as the same path) in a list.
pub open spec fn listed(list: Seq<Seq<char>>, p: Seq<char>) -> bool {
    exists|i: int| 0 <= i < list.len() && same_path(#[trigger] list[i], p)
}

/// Whether a path falls under any protected directory.
pub open spec fn spec_is_protected(protected: Seq<Seq<char>>, p: Seq<char>) -> bool {
    exists|i: int| 0 <= i < protected.len() && spec_starts_with(p, #[trigger] protected[i])
}

/// A path is protected exactly when its components begin with those of
/// some directory of the protected list, whichever place that directory
/// has in the list; in particular every protected directory is itself
/// protected.
pub proof fn law_protection(protected: Seq<Seq<char>>, p: Seq<char>, i: int)
    requires
        0 <= i < protected.len(),
    ensures
        spec_starts_with(p, protected[i]) ==> spec_is_protected(protected, p),
        spec_is_protected(protected, protected[i]),
        spec_is_protected(protected, p) ==> exists|j: int| 0 <= j < protected.len() && spec_starts_with(p, #[trigger] protected[j]),
        !spec_is_protected(protected, p) ==> forall|j: int| 0 <= j < protected.len() ==> !spec_starts_with(p, #[trigger] protected[j]),
{
    assert(crate::path::components(protected[i]).take(crate::path::components(protected[i]).len() as int)
        == crate::path::components(protected[i]));
    assert(spec_starts_with(protected[i], protected[i]));
}

/// A file named directly in any protected (absolute) directory is
/// protected, whichever place the directory has in the list.
pub proof fn law_file_in_protected_directory(protected: Seq<Seq<char>>, i: int, name: Seq<char>)
    requires
        0 <= i < protected.len(),
        crate::path::spec_is_absolute(protected[i]),
        crate::path::slash_free(name),
        crate::path::kept(name),
    ensures
        spec_is_protected(protected, protected[i] + seq!['/'] + name),
{
    crate::path::law_name_under_directory(protected[i], name);
    law_protection(protected, protected[i] + seq!['/'] + name, i);
}

impl Interceptor {
    /// The protected directories.
    pub closed spec fn protected_view(&self) -> Seq<Seq<char>> {
        texts(self.protected_paths@)
    }

    /// The files being handled.
    pub closed spec fn processing_view(&self) -> Seq<Seq<char>> {
        texts(self.processing@)
    }

    /// An interceptor for the directories a configuration protects.
    pub fn new(config: &Config) -> (r: Interceptor)
        ensures
            r.protected_view() == crate::config::paths_view(config.protected_paths@),
            r.processing_view().len() == 0,
    {
        let mut paths: Vec<String> = Vec::new();
        let mut i: usize = 0;
        while i < config.protected_paths.len()
            invariant
                i <= config.protected_paths.len(),
                texts(paths@) == crate::config::paths_view(config.protected_paths@).take(i as int),
            decreases config.protected_paths.len() - i,
        {
            paths.push(config.protected_paths[i].clone());
            assert(crate::config::paths_view(config.protected_paths@).take(i + 1)
                == crate::config::paths_view(config.protected_paths@).take(i as int).push(
                config.protected_paths@[i as int]@,
            ));
            assert(texts(paths@) == crate::config::paths_view(config.protected_paths@).take(i + 1));
            i += 1;
        }
        assert(crate::config::paths_view(config.protected_paths@).take(
            config.protected_paths.len() as int,
        ) == crate::config::paths_view(config.protected_paths@));
        let r = Interceptor { protected_paths: paths, processing: Vec::new() };
        assert(r.processing_view().len() == 0);
        r
    }

    /// Check if a path falls under any protected directory.
    pub fn is_protected(&self, path: &str) -> (r: bool)
        ensures
            r == spec_is_protected(self.protected_view(), path@),
    {
        let mut i: usize = 0;
        while i < self.protected_paths.len()
            invariant
                i <= self.protected_paths.len(),
                forall|k: int| 0 <= k < i ==> !spec_starts_with(path@, #[trigger] self.protected_view()[k]),
            decreases self.protected_paths.len() - i,
        {
            assert(self.protected_view()[i as int] == self.protected_paths@[i as int]@);
            if starts_with(path, self.protected_paths[i].as_str()) {
                return true;
            }
            i += 1;
        }
        false
    }

    /// Whether a file is being handled.
    pub fn is_processing(&self, path: &str) -> (r: bool)
        ensures
            r == listed(self.processing_view(), path@),
    {
        let mut i: usize = 0;
        while i < self.processing.len()
            invariant
                i <= self.processing.len(),
                forall|k: int| 0 <= k < i ==> !same_path(#[trigger] self.processing_view()[k], path@),
            decreases self.processing.len() - i,
        {
            assert(self.processing_view()[i as int] == self.processing@[i as int]@);
            if is_same_path(self.processing[i].as_str(), path) {
                return true;
            }
            i += 1;
        }
        false
    }

    /// Takes up an event: skips a file being handled already or outside the
    /// protected directories; otherwise marks it as being handled and says
    /// what to do with it.
    pub fn begin_event(&mut self, event: &FileEvent) -> (r: EventStep)
        ensures
            final(self).protected_view() == old(self).protected_view(),
            listed(old(self).processing_view(), event.path@) ==> r == EventStep::Skip
                && final(self).processing_view() == old(self).processing_view(),
            !listed(old(self).processing_view(), event.path@) && !spec_is_protected(
                old(self).protected_view(),
                event.path@,
            ) ==> r == EventStep::Skip && final(self).processing_view() == old(
                self,
            ).processing_view(),
            !listed(old(self).processing_view(), event.path@) && spec_is_protected(
                old(self).protected_view(),
                event.path@,
            ) ==> final(self).processing_view() == old(self).processing_view().push(event.path@)
                && r == (if event.kind == FileEventKind::Deleted {
                EventStep::Delete
            } else {
                EventStep::Encrypt
            }),
    {
        if self.is_processing(event.path.as_str()) {
            return EventStep::Skip;
        }
        if !self.is_protected(event.path.as_str()) {
            return EventStep::Skip;
        }
        let ghost before = self.processing_view();
        self.processing.push(event.path.clone());
        assert(self.processing_view() == before.push(event.path@));
        match event.kind {
            FileEventKind::Deleted => EventStep::Delete,
            _ => EventStep::Encrypt,
        }
    }

    /// Marks a file as no longer being handled.
    pub fn end_event(&mut self, path: &str)
        ensures
            final(self).protected_view() == old(self).protected_view(),
            final(self).processing_view() == old(self).processing_view().filter(
                |p: Seq<char>| !same_path(p, path@),
            ),
    {
        let ghost pred = |p: Seq<char>| !same_path(p, path@);
        let ghost before = self.processing_view();
        let mut kept: Vec<String> = Vec::new();
        let mut i: usize = 0;
        while i < self.processing.len()
            invariant
                i <= self.processing.len(),
                before == texts(self.processing@),
                pred == (|p: Seq<char>| !same_path(p, path@)),
                texts(kept@) == before.take(i as int).filter(pred),
            decreases self.processing.len() - i,
        {
            proof {
                reveal_with_fuel(Seq::<_>::filter, 1);
                assert(before.take(i + 1).drop_last() == before.take(i as int));
                assert(before[i as int] == self.processing@[i as int]@);
            }
            if !is_same_path(self.processing[i].as_str(), path) {
                kept.push(self.processing[i].clone());
            }
            assert(texts(kept@) == before.take(i + 1).filter(pred));
            i += 1;
        }
        assert(before.take(self.processing.len() as int) == before);
        self.processing = kept;
    }
}

/// Taking up an event for a file that is not being handled and then
/// finishing it leaves the files being handled as they were.
pub proof fn law_event_round_trip(processing: Seq<Seq<char>>, p: Seq<char>)
    requires
        !listed(processing, p),
    ensures
        processing.push(p).filter(|q: Seq<char>| !same_path(q, p)) == processing,
{
    let pred = |q: Seq<char>| !same_path(q, p);
    assert(processing.push(p).drop_last() == processing);
    assert(processing.push(p).filter(pred) == processing.filter(pred)) by {
        reveal_with_fuel(Seq::<_>::filter, 1);
    }
    assert forall|i: int| 0 <= i < processing.len() implies pred(#[trigger] processing[i]) by {
        if !pred(processing[i]) {
            assert(same_path(processing[i], p));
        }
    }
    crate::path::lemma_filter_keeps_all(processing, pred);
}

/// Why the interceptor could not seal, register or open a file.
#[derive(Debug, Clone, Copy, PartialEq, Eq)]
pub enum InterceptError {
    /// A cryptographic operation failed.
    Crypto(CryptoError),
    /// The database refused a write.
    Db(DbError),
    /// No file is tracked under the path.
    NotTracked,
    /// The tracked file is not encrypted.
    NotEncrypted,
    /// The keystore is locked.
    NoMasterKey,
}

/// A file sealed for storage: where its sealed copy goes, the sealed bytes,
/// and what the database records of it.
pub struct SealedFile {
    pub encrypted_path: String,
    pub ciphertext: Vec<u8>,
    pub encrypted_key: EncryptedFileKey,
    pub original_hash: String,
    pub encrypted_hash: String,
    pub original_size: i64,
    pub encrypted_size: i64,
}

/// Whether `s` is the sealing of `plaintext` (from `path`) under
/// `file_key`, wrapped under `master` with `wrap_nonce`, sealed with `nonce`.
pub open spec fn sealed_as(
    s: SealedFile,
    master: Seq<u8>,
    path: Seq<char>,
    plaintext: Seq<u8>,
    file_key: Seq<u8>,
    wrap_nonce: Seq<u8>,
    nonce: Seq<u8>,
) -> bool {
    &&& s.encrypted_path@ == spec_encrypted_path(path)
    &&& s.ciphertext@ == sealed_file(file_key, nonce, plaintext)
    &&& s.ciphertext@.len() == spec_encrypted_size(plaintext.len() as int)
    &&& s.encrypted_size == s.ciphertext@.len()
    &&& s.encrypted_key.encrypted_key@ == hex_encoding(
        crypto::aes256gcm_seal(crypto::wrapping_key(master), wrap_nonce, file_key),
    )
    &&& s.encrypted_key.nonce@ == hex_encoding(wrap_nonce)
    &&& s.original_hash@ == hex_encoding(sha256(plaintext))
    &&& s.encrypted_hash@ == hex_encoding(sha256(s.ciphertext@))
    &&& s.original_size == plaintext.len()
    &&& s.encrypted_size == spec_encrypted_size(plaintext.len() as int)
    &&& file_decryption(s.ciphertext@, file_key) == Ok::<Seq<u8>, CryptoError>(plaintext)
    &&& crypto::key_unwrapping(master, encode_utf8(s.encrypted_key.encrypted_key@), encode_utf8(s.encrypted_key.nonce@))
        == Ok::<Seq<u8>, CryptoError>(file_key)
}

/// Seals a file's contents with the given key and nonces.
pub fn seal_file_with(
    master_key: &MasterKey,
    path: &str,
    plaintext: &[u8],
    file_key: &[u8; 32],
    wrap_nonce: &[u8; 12],
    nonce: &[u8; 12],
) -> (r: Result<SealedFile, InterceptError>)
    ensures
        r is Ok <==> plaintext@.len() <= MAX_PLAINTEXT,
        r matches Err(e) ==> e == InterceptError::Crypto(CryptoError::EncryptionFailed),
        r matches Ok(s) ==> sealed_as(s, master_key.key@, path@, plaintext@, file_key@, wrap_nonce@, nonce@),
{
    let encrypted_key = wrap_file_key_with_nonce(master_key, file_key, wrap_nonce);
    let original_hash = hex::encode(sha256_hash(plaintext).as_slice());
    let ciphertext = match encrypt_file_with_nonce(plaintext, file_key, nonce) {
        Ok(c) => c,
        Err(e) => return Err(InterceptError::Crypto(e)),
    };
    let encrypted_hash = hex::encode(sha256_hash(ciphertext.as_slice()).as_slice());
    let original_size = plaintext.len() as i64;
    let encrypted_size = ciphertext.len() as i64;
    Ok(SealedFile {
        encrypted_path: encrypted_path_for(path),
        ciphertext,
        encrypted_key,
        original_hash,
        encrypted_hash,
        original_size,
        encrypted_size,
    })
}

/// Whether the interceptor leaves a file's contents alone: when they are
/// empty, when the keystore is locked, or when the file is itself a sealed
/// copy (its extension is "secapp").
pub open spec fn skips_contents(unlocked: bool, path: Seq<char>, plaintext: Seq<u8>) -> bool {
    plaintext.len() == 0 || !unlocked || spec_extension(path) == Some(secapp_text())
}

/// What the interceptor does with the contents of a created or modified
/// file: nothing for an empty file, while the keystore is locked, or for a
/// sealed copy; otherwise it seals them under a fresh random key, whether
/// or not the file was sealed before (a rewritten file is sealed again).
/// Sealing fails when the contents are too long for AES-GCM, or when the
/// operating system gives no random bytes for the key and nonces.
pub fn seal_new_contents(
    master_key: Option<&MasterKey>,
    path: &str,
    plaintext: &[u8],
) -> (r: Result<Option<SealedFile>, InterceptError>)
    ensures
        skips_contents(master_key is Some, path@, plaintext@) ==> r is Ok && r->Ok_0 is None,
        !skips_contents(master_key is Some, path@, plaintext@) && plaintext@.len() > MAX_PLAINTEXT ==> r is Err,
        !skips_contents(master_key is Some, path@, plaintext@) && r is Ok ==> r->Ok_0 is Some,
        r matches Err(e) ==> !skips_contents(master_key is Some, path@, plaintext@) && (e
            == InterceptError::Crypto(CryptoError::RandomnessUnavailable) || (e == InterceptError::Crypto(
            CryptoError::EncryptionFailed) && plaintext@.len() > MAX_PLAINTEXT)),
        r matches Ok(Some(s)) ==> exists|k: Seq<u8>, wn: Seq<u8>, n: Seq<u8>|
            k.len() == 32 && wn.len() == 12 && n.len() == 12 && sealed_as(
                s,
                master_key->Some_0.key@,
                path@,
                plaintext@,
                k,
                wn,
                n,
            ),
{
    if plaintext.len() == 0 {
        return Ok(None);
    }
    let master = match master_key {
        Some(k) => k,
        None => {
            return Ok(None);
        },
    };
    if is_sealed_copy(path) {
        return Ok(None);
    }
    let file_key = match generate_file_key() {
        Ok(k) => k,
        Err(e) => return Err(InterceptError::Crypto(e)),
    };
    let wrap_nonce = match crypto::random_nonce() {
        Ok(n) => n,
        Err(e) => return Err(InterceptError::Crypto(e)),
    };
    let nonce = match crypto::random_nonce() {
        Ok(n) => n,
        Err(e) => return Err(InterceptError::Crypto(e)),
    };
    match seal_file_with(master, path, plaintext, &file_key, &wrap_nonce, &nonce) {
        Ok(s) => {
            assert(file_key@.len() == 32 && wrap_nonce@.len() == 12 && nonce@.len() == 12);
            assert(sealed_as(s, master.key@, path@, plaintext@, file_key@, wrap_nonce@, nonce@));
            assert(master_key->Some_0.key@ == master.key@);
            assert(exists|k: Seq<u8>, wn: Seq<u8>, n: Seq<u8>|
                k.len() == 32 && wn.len() == 12 && n.len() == 12 && sealed_as(
                    s,
                    master_key->Some_0.key@,
                    path@,
                    plaintext@,
                    k,
                    wn,
                    n,
                ));
            let r: Result<Option<SealedFile>, InterceptError> = Ok(Some(s));
            assert(r matches Ok(Some(t)) && t == s);
            r
        },
        Err(e) => Err(e),
    }
}

/// The name under which the daemon logs its own accesses.
pub open spec fn daemon_name() -> Seq<char> {
    seq!['s', 'e', 'c', 'a', 'p', 'p', '-', 'd', 'a', 'e', 'm', 'o', 'n']
}

/// The logged action of sealing.
pub open spec fn encrypt_text() -> Seq<char> {
    seq!['e', 'n', 'c', 'r', 'y', 'p', 't']
}

/// The logged action of opening.
pub open spec fn decrypt_text() -> Seq<char> {
    seq!['d', 'e', 'c', 'r', 'y', 'p', 't']
}

/// The row that registers a sealed file under `path`, with its id and
/// creation time, stamped `now`.
pub open spec fn sealed_row(s: &SealedFile, path: Seq<char>, id: int, created_at: Seq<char>, now: Seq<char>) -> FileRow {
    FileRow {
        id: id,
        path: path,
        encrypted_key: s.encrypted_key.encrypted_key@,
        key_nonce: s.encrypted_key.nonce@,
        original_hash: s.original_hash@,
        encrypted_hash: s.encrypted_hash@,
        original_size: s.original_size as int,
        encrypted_size: s.encrypted_size as int,
        is_encrypted: true,
        created_at: created_at,
        modified_at: now,
    }
}

/// Registers a sealed file in the database (encrypted, stamped `now`) and
/// logs the sealing as an allowed "encrypt" by the daemon (process `pid`).
pub fn record_encryption(
    db: &mut Database,
    path: &str,
    sealed: &SealedFile,
    pid: i64,
    now: &str,
) -> (r: Result<(), InterceptError>)
    requires
        old(db)@.wf(),
    ensures
        final(db)@.wf(),
        final(db)@.policies == old(db)@.policies,
        final(db)@.keys == old(db)@.keys,
        r is Ok ==> has_path(final(db)@.files, path@),
        r is Ok ==> ({
            let row = final(db)@.files[path_index(final(db)@.files, path@)];
            &&& row.encrypted_key == sealed.encrypted_key.encrypted_key@
            &&& row.key_nonce == sealed.encrypted_key.nonce@
            &&& row.original_hash == sealed.original_hash@
            &&& row.encrypted_hash == sealed.encrypted_hash@
            &&& row.original_size == sealed.original_size
            &&& row.encrypted_size == sealed.encrypted_size
            &&& row.is_encrypted
            &&& row.modified_at == now@
        }),
        r is Ok ==> rows_plus(
            old(db)@.logs,
            final(db)@.logs,
            (LogRow {
                id: old(db)@.log_seq + 1,
                file_path: path@,
                process_pid: pid as int,
                process_name: daemon_name(),
                process_cmdline: daemon_name(),
                action: encrypt_text(),
                allowed: true,
                timestamp: now@,
            }),
        ),
        r matches Err(e) ==> e == InterceptError::Db(DbError::TableFull),
        r is Err <==> ((!has_path(old(db)@.files, path@) && old(db)@.file_seq == i64::MAX)
            || old(db)@.log_seq == i64::MAX),
        r is Ok ==> (if has_path(old(db)@.files, path@) {
            let i = path_index(old(db)@.files, path@);
            &&& final(db)@.files == old(db)@.files.update(
                i,
                sealed_row(sealed, path@, old(db)@.files[i].id, old(db)@.files[i].created_at, now@),
            )
            &&& final(db)@.file_seq == old(db)@.file_seq
        } else {
            &&& final(db)@.file_seq == old(db)@.file_seq + 1
            &&& rows_plus(
                old(db)@.files,
                final(db)@.files,
                sealed_row(sealed, path@, old(db)@.file_seq + 1, now@, now@),
            )
        }),
        r is Ok ==> final(db)@.log_seq == old(db)@.log_seq + 1 && final(db)@.last_rowid == old(db)@.log_seq + 1,
        final(db)@.policy_seq == old(db)@.policy_seq,
        final(db)@.key_seq == old(db)@.key_seq,
        r is Err ==> final(db)@.logs == old(db)@.logs && final(db)@.log_seq == old(db)@.log_seq,
        !has_path(old(db)@.files, path@) && old(db)@.file_seq == i64::MAX ==> final(db)@ == old(db)@,
{
    proof {
        reveal_strlit("secapp-daemon");
        reveal_strlit("encrypt");
        assert("secapp-daemon"@ == daemon_name());
        assert("encrypt"@ == encrypt_text());
    }
    let ghost before = db@;
    match db.add_protected_file(
        path,
        &sealed.encrypted_key,
        sealed.original_hash.as_str(),
        sealed.encrypted_hash.as_str(),
        sealed.original_size,
        sealed.encrypted_size,
        true,
        now,
    ) {
        Ok(_) => {},
        Err(e) => return Err(InterceptError::Db(e)),
    }
    proof {
        if has_path(before.files, path@) {
            crate::db::law_rewritten_file_is_found(before.files, path@, db@.files[path_index(before.files, path@)]);
        } else {
            let row = FileRow {
                id: db@.file_seq,
                path: path@,
                encrypted_key: sealed.encrypted_key.encrypted_key@,
                key_nonce: sealed.encrypted_key.nonce@,
                original_hash: sealed.original_hash@,
                encrypted_hash: sealed.encrypted_hash@,
                original_size: sealed.original_size as int,
                encrypted_size: sealed.encrypted_size as int,
                is_encrypted: true,
                created_at: now@,
                modified_at: now@,
            };
            crate::db::law_added_file_is_found(before.files, db@.files, row);
        }
    }
    let ghost middle = db@;
    match db.log_access(path, pid, "secapp-daemon", "secapp-daemon", "encrypt", true, now) {
        Ok(_) => {},
        Err(e) => return Err(InterceptError::Db(e)),
    }
    Ok(())
}

/// Stops tracking a deleted file.
pub fn record_deletion(db: &mut Database, path: &str) -> (r: bool)
    requires
        old(db)@.wf(),
    ensures
        final(db)@.wf(),
        r == has_path(old(db)@.files, path@),
        !has_path(final(db)@.files, path@),
        final(db)@.files == (if r {
            old(db)@.files.remove(path_index(old(db)@.files, path@))
        } else {
            old(db)@.files
        }),
        final(db)@ == (DbView { files: final(db)@.files, ..old(db)@ }),
{
    let r = db.remove_protected_file(path);
    proof {
        if r {
            crate::db::law_removed_file_is_gone(old(db)@.files, path@);
        }
    }
    r
}

/// What opening a protected file takes: its record, its unwrapped key and
/// where its sealed copy lives.
pub struct OpenPlan {
    pub record: ProtectedFile,
    pub file_key: [u8; 32],
    pub encrypted_path: String,
}

/// What opening the file tracked under `path` starts from: its record and
/// its unwrapped key, or why it cannot be opened.
pub open spec fn decryption_plan(db: DbView, master: Option<Seq<u8>>, path: Seq<char>) -> Result<
    (FileRow, Seq<u8>),
    InterceptError,
> {
    if !has_path(db.files, path) {
        Err(InterceptError::NotTracked)
    } else if !db.files[path_index(db.files, path)].is_encrypted {
        Err(InterceptError::NotEncrypted)
    } else {
        match master {
            None => Err(InterceptError::NoMasterKey),
            Some(m) => {
                let row = db.files[path_index(db.files, path)];
                match crypto::checked_key_unwrapping(m, encode_utf8(row.encrypted_key), encode_utf8(row.key_nonce)) {
                    Ok(k) => Ok((row, k)),
                    Err(e) => Err(InterceptError::Crypto(e)),
                }
            },
        }
    }
}

/// A plan taken by its plain values.
pub open spec fn plan_view(r: Result<OpenPlan, InterceptError>) -> Result<(FileRow, Seq<u8>), InterceptError> {
    match r {
        Ok(p) => Ok((p.record@, p.file_key@)),
        Err(e) => Err(e),
    }
}

/// Looks up what opening the file tracked under `path` takes. A stored key
/// whose nonce or key has the wrong length is refused rather than panicked on.
pub fn prepare_decryption(db: &Database, master_key: Option<&MasterKey>, path: &str) -> (r: Result<OpenPlan, InterceptError>)
    requires
        db@.wf(),
    ensures
        plan_view(r) == decryption_plan(
            db@,
            match master_key {
                Some(k) => Some(k.key@),
                None => None,
            },
            path@,
        ),
        r matches Ok(p) ==> p.encrypted_path@ == spec_encrypted_path(path@),
{
    let record = match db.get_protected_file(path) {
        Some(f) => f,
        None => return Err(InterceptError::NotTracked),
    };
    if !record.is_encrypted {
        return Err(InterceptError::NotEncrypted);
    }
    let master = match master_key {
        Some(k) => k,
        None => return Err(InterceptError::NoMasterKey),
    };
    let wrapped = EncryptedFileKey {
        encrypted_key: record.encrypted_key.clone(),
        nonce: record.key_nonce.clone(),
    };
    let file_key = match crypto::unwrap_file_key_checked(master, &wrapped) {
        Ok(k) => k,
        Err(e) => return Err(InterceptError::Crypto(e)),
    };
    Ok(OpenPlan { record, file_key, encrypted_path: encrypted_path_for(path) })
}

/// An opened file: its contents, and whether they hash to what was
/// recorded when it was sealed.
pub struct Opened {
    pub plaintext: Vec<u8>,
    pub hash_matches: bool,
}

/// Opens the sealed copy of the file tracked under `path` and logs the
/// opening as an allowed "decrypt" by the daemon (process `pid`).
pub fn open_sealed_file(
    db: &mut Database,
    path: &str,
    plan: &OpenPlan,
    ciphertext: &[u8],
    pid: i64,
    now: &str,
) -> (r: Result<Opened, InterceptError>)
    requires
        old(db)@.wf(),
    ensures
        final(db)@.wf(),
        match file_decryption(ciphertext@, plan.file_key@) {
            Err(e) => r == Err::<Opened, InterceptError>(InterceptError::Crypto(e)) && final(db)@ == old(db)@,
            Ok(p) => if old(db)@.log_seq == i64::MAX {
                r == Err::<Opened, InterceptError>(InterceptError::Db(DbError::TableFull)) && final(db)@ == old(db)@
            } else {
                &&& r is Ok
                &&& r->Ok_0.plaintext@ == p
                &&& r->Ok_0.hash_matches == (hex_encoding(sha256(p)) == plan.record.original_hash@)
                &&& rows_plus(
                    old(db)@.logs,
                    final(db)@.logs,
                    (LogRow {
                        id: old(db)@.log_seq + 1,
                        file_path: path@,
                        process_pid: pid as int,
                        process_name: daemon_name(),
                        process_cmdline: daemon_name(),
                        action: decrypt_text(),
                        allowed: true,
                        timestamp: now@,
                    }),
                )
                &&& final(db)@ == (DbView {
                    logs: final(db)@.logs,
                    log_seq: old(db)@.log_seq + 1,
                    last_rowid: old(db)@.log_seq + 1,
                    ..old(db)@
                })
            },
        },
{
    proof {
        reveal_strlit("secapp-daemon");
        reveal_strlit("decrypt");
        assert("secapp-daemon"@ == daemon_name());
        assert("decrypt"@ == decrypt_text());
    }
    let plaintext = match decrypt_file(ciphertext, &plan.file_key) {
        Ok(p) => p,
        Err(e) => return Err(InterceptError::Crypto(e)),
    };
    let current_hash = hex::encode(sha256_hash(plaintext.as_slice()).as_slice());
    let hash_matches = current_hash == plan.record.original_hash;
    match db.log_access(path, pid, "secapp-daemon", "secapp-daemon", "decrypt", true, now) {
        Ok(_) => {},
        Err(e) => return Err(InterceptError::Db(e)),
    }
    Ok(Opened { plaintext, hash_matches })
}

/// What is sealed opens again: a file registered with what sealing gave
/// has a plan that unwraps to the sealing key, and its sealed copy opens
/// under that key to the original contents, whose hash is the one recorded.
pub proof fn law_sealed_file_opens(
    s: SealedFile,
    db: DbView,
    master: Seq<u8>,
    path: Seq<char>,
    plaintext: Seq<u8>,
    file_key: Seq<u8>,
    wrap_nonce: Seq<u8>,
    nonce: Seq<u8>,
)
    requires
        sealed_as(s, master, path, plaintext, file_key, wrap_nonce, nonce),
        file_key.len() == 32,
        wrap_nonce.len() == 12,
        has_path(db.files, path),
        db.files[path_index(db.files, path)].is_encrypted,
        db.files[path_index(db.files, path)].encrypted_key == s.encrypted_key.encrypted_key@,
        db.files[path_index(db.files, path)].key_nonce == s.encrypted_key.nonce@,
        db.files[path_index(db.files, path)].original_hash == s.original_hash@,
    ensures
        decryption_plan(db, Some(master), path) == Ok::<(FileRow, Seq<u8>), InterceptError>(
            (db.files[path_index(db.files, path)], file_key),
        ),
        file_decryption(s.ciphertext@, file_key) == Ok::<Seq<u8>, CryptoError>(plaintext),
        hex_encoding(sha256(plaintext)) == db.files[path_index(db.files, path)].original_hash,
{
    hex::lemma_hex_roundtrip(wrap_nonce);
}

} // verus!
