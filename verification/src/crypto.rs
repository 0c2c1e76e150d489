//! The cryptographic envelope of the keystore.
//!
//! The master key comes from the user's password by Argon2id. Each file is
//! sealed with AES-256-GCM under a key of its own, and the sealed form is
//! `nonce || ciphertext || tag`. Per-file keys are kept wrapped: sealed with
//! AES-256-GCM under a subkey that HKDF-SHA256 derives from the master key,
//! and stored as lower-case hex. SHA-256 hashes serve integrity checks.
//!
//! The primitives themselves come from the `argon2`, `aes-gcm`, `hkdf`,
//! `sha2` and `rand` crates; what they compute is named below, and the few
//! facts the library relies on are stated on the items that call them.
use vstd::prelude::*;
use vstd::string::*;
use crate::hex::{self, bytes_result, hex_decode_result, hex_encoding, HexError};
use vstd::utf8::encode_utf8;
use aes_gcm::aead::{Aead, KeyInit, OsRng};
use aes_gcm::{Aes256Gcm, Nonce};
use argon2::{Algorithm, Argon2, Params, Version};
use hkdf::Hkdf;
use rand::RngCore;
use sha2::{Digest, Sha256};

verus! {

/// Size of the AES-256 key in bytes.
pub const KEY_SIZE: usize = 32;

/// Size of the AES-GCM nonce in bytes.
pub const NONCE_SIZE: usize = 12;

/// Size of the Argon2id salt in bytes.
pub const SALT_SIZE: usize = 32;

/// Size of the AES-GCM authentication tag in bytes.
pub const TAG_SIZE: usize = 16;

/// The longest plaintext AES-GCM seals, in bytes (2^36).
pub const MAX_PLAINTEXT: u64 = 0x10_0000_0000;

/// Master key derived from the user's password.
#[derive(Debug)]
pub struct MasterKey {
    pub key: [u8; 32],
}

/// Per-file encryption key, encrypted under the master key.
pub struct EncryptedFileKey {
    /// Hex-encoded encrypted key (AES-256-GCM wrapped).
    pub encrypted_key: String,
    /// Hex-encoded nonce used to encrypt the key.
    pub nonce: String,
}

/// Salt for Argon2id key derivation, stored alongside the key.
pub struct KeySalt {
    /// Hex-encoded salt bytes.
    pub salt: String,
}

/// Why a cryptographic operation failed.
#[derive(Debug, Clone, Copy, PartialEq, Eq)]
pub enum CryptoError {
    /// The Argon2id cost parameters are out of range.
    InvalidParameters,
    /// Argon2id refused the password or the salt (a salt under 8 bytes, for one).
    KeyDerivationFailed,
    /// The plaintext is too long for AES-GCM.
    EncryptionFailed,
    /// A sealed file is shorter than a nonce and a tag.
    CiphertextTooShort { expected: usize, got: usize },
    /// Authentication of a sealed file failed (wrong key or altered data).
    DecryptionFailed,
    /// The wrapped key's nonce is not hexadecimal.
    InvalidNonceHex(HexError),
    /// The wrapped key is not hexadecimal.
    InvalidKeyHex(HexError),
    /// Authentication of a wrapped key failed (wrong master key or altered data).
    KeyUnwrapFailed,
    /// The wrapped key's nonce does not have the nonce's length.
    InvalidNonceLength,
    /// The wrapped key does not open to a key of the key's length.
    InvalidKeyLength,
    /// The operating system gave no random bytes.
    RandomnessUnavailable,
}

// ---------------------------------------------------------------------------
// What the primitives compute.

/// The 32-byte Argon2id (version 0x13) output for a password, salt and costs.
pub uninterp spec fn argon2id_key(
    password: Seq<u8>,
    salt: Seq<u8>,
    memory_cost: u32,
    time_cost: u32,
    parallelism: u32,
) -> Seq<u8>;

/// AES-256-GCM sealing with no associated data: ciphertext followed by the tag.
pub uninterp spec fn aes256gcm_seal(key: Seq<u8>, nonce: Seq<u8>, plaintext: Seq<u8>) -> Seq<u8>;

/// AES-256-GCM opening with no associated data; `None` when authentication fails.
pub uninterp spec fn aes256gcm_open(key: Seq<u8>, nonce: Seq<u8>, ciphertext: Seq<u8>) -> Option<Seq<u8>>;

/// The SHA-256 digest.
pub uninterp spec fn sha256(data: Seq<u8>) -> Seq<u8>;

/// 32 bytes of HKDF-SHA256 output with no salt, for input key material and info.
pub uninterp spec fn hkdf_sha256_expand(ikm: Seq<u8>, info: Seq<u8>) -> Seq<u8>;

/// The Argon2id cost parameters that `argon2::Params::new` accepts.
pub open spec fn argon2_params_valid(memory_cost: u32, time_cost: u32, parallelism: u32) -> bool {
    &&& memory_cost >= 8
    &&& memory_cost >= 8 * parallelism
    &&& time_cost >= 1
    &&& 1 <= parallelism <= 0xFF_FFFF
}

/// The password and salt that `Argon2::hash_password_into` accepts.
pub open spec fn argon2_inputs_valid(password: Seq<u8>, salt: Seq<u8>) -> bool {
    &&& password.len() <= 0xFFFF_FFFF
    &&& 8 <= salt.len() <= 0xFFFF_FFFF
}

/// Whether Argon2id derives a key for these inputs and costs.
pub open spec fn argon2_accepts(
    password: Seq<u8>,
    salt: Seq<u8>,
    memory_cost: u32,
    time_cost: u32,
    parallelism: u32,
) -> bool {
    argon2_params_valid(memory_cost, time_cost, parallelism) && argon2_inputs_valid(password, salt)
}

// ---------------------------------------------------------------------------
// Calls into the primitives.

/// Argon2id (version 0x13) through `Params::new`, `Argon2::new` and
/// `Argon2::hash_password_into` with a 32-byte output: it succeeds exactly
/// when the costs and the inputs are in the ranges that the `argon2` source
/// checks, and then gives the named output. (The costs size a memory
/// allocation; nothing here says what happens when that allocation fails.)
#[verifier::external_body]
fn argon2id_hash(password: &[u8], salt: &[u8], memory_cost: u32, time_cost: u32, parallelism: u32) -> (r: Option<[u8; 32]>)
    requires
        memory_cost >= 8 ==> 8 * parallelism <= u32::MAX,
    ensures
        r is Some <==> argon2_accepts(password@, salt@, memory_cost, time_cost, parallelism),
        r matches Some(k) ==> k@ == argon2id_key(password@, salt@, memory_cost, time_cost, parallelism),
{
    let params = match Params::new(memory_cost, time_cost, parallelism, Some(32)) {
        Ok(p) => p,
        Err(_) => return None,
    };
    let mut key = [0u8; 32];
    match Argon2::new(Algorithm::Argon2id, Version::V0x13, params).hash_password_into(password, salt, &mut key) {
        Ok(()) => Some(key),
        Err(_) => None,
    }
}

/// AES-256-GCM encryption (`Aead::encrypt` of `Aes256Gcm`, no associated
/// data). It refuses plaintexts longer than 2^36 bytes; otherwise the result
/// is the named sealing, 16 bytes longer than the plaintext, and opening it
/// with the same key and nonce gives the plaintext back.
#[verifier::external_body]
fn aes256gcm_encrypt(key: &[u8; 32], nonce: &[u8; 12], plaintext: &[u8]) -> (r: Option<Vec<u8>>)
    ensures
        r is Some <==> plaintext@.len() <= MAX_PLAINTEXT,
        r matches Some(c) ==> c@ == aes256gcm_seal(key@, nonce@, plaintext@),
        r matches Some(c) ==> c@.len() == plaintext@.len() + 16,
        r matches Some(c) ==> aes256gcm_open(key@, nonce@, c@) == Some(plaintext@),
{
    let cipher = Aes256Gcm::new(key.into());
    cipher.encrypt(Nonce::from_slice(nonce), plaintext).ok()
}

/// AES-256-GCM decryption (`Aead::decrypt` of `Aes256Gcm`, no associated
/// data): the named opening; a plaintext comes back 16 bytes shorter than
/// the ciphertext.
#[verifier::external_body]
fn aes256gcm_decrypt(key: &[u8; 32], nonce: &[u8; 12], ciphertext: &[u8]) -> (r: Option<Vec<u8>>)
    ensures
        opt_bytes(r) == aes256gcm_open(key@, nonce@, ciphertext@),
        r matches Some(p) ==> p@.len() + 16 == ciphertext@.len(),
{
    let cipher = Aes256Gcm::new(key.into());
    cipher.decrypt(Nonce::from_slice(nonce), ciphertext).ok()
}

/// The SHA-256 digest (`Sha256::new`, `update`, `finalize`).
#[verifier::external_body]
fn sha256_digest(data: &[u8]) -> (r: [u8; 32])
    ensures
        r@ == sha256(data@),
{
    let mut hasher = Sha256::new();
    hasher.update(data);
    hasher.finalize().into()
}

/// HKDF-SHA256 with no salt (`Hkdf::<Sha256>::new(None, ikm)`) expanded to
/// 32 bytes (`Hkdf::expand`), which is within the 255 * 32 bytes it allows.
#[verifier::external_body]
fn hkdf_sha256_32(ikm: &[u8], info: &[u8]) -> (r: Option<[u8; 32]>)
    ensures
        r is Some,
        r matches Some(k) ==> k@ == hkdf_sha256_expand(ikm@, info@),
{
    let mut okm = [0u8; 32];
    match Hkdf::<Sha256>::new(None, ikm).expand(info, &mut okm) {
        Ok(()) => Some(okm),
        Err(_) => None,
    }
}

/// Fills `buf` from the operating system's random source
/// (`OsRng::try_fill_bytes`, through `getrandom`); tells whether the
/// operating system gave the bytes. Nothing is promised of them but their
/// number, nor of when the operating system refuses.
#[verifier::external_body]
fn try_fill_random(buf: &mut [u8]) -> (r: bool)
    ensures
        final(buf)@.len() == old(buf)@.len(),
{
    OsRng.try_fill_bytes(buf).is_ok()
}

// ---------------------------------------------------------------------------
// Views of results.

/// Optional bytes taken by their view.
pub open spec fn opt_bytes(r: Option<Vec<u8>>) -> Option<Seq<u8>> {
    match r {
        Some(v) => Some(v@),
        None => None,
    }
}

/// A result of bytes taken by its view.
pub open spec fn crypto_bytes(r: Result<Vec<u8>, CryptoError>) -> Result<Seq<u8>, CryptoError> {
    match r {
        Ok(v) => Ok(v@),
        Err(e) => Err(e),
    }
}

// ---------------------------------------------------------------------------
// What the keystore's operations give.

/// The outcome of deriving a master key.
pub open spec fn master_key_derivation(
    password: Seq<u8>,
    salt: Seq<u8>,
    memory_cost: u32,
    time_cost: u32,
    parallelism: u32,
) -> Result<Seq<u8>, CryptoError> {
    if !argon2_params_valid(memory_cost, time_cost, parallelism) {
        Err(CryptoError::InvalidParameters)
    } else if !argon2_inputs_valid(password, salt) {
        Err(CryptoError::KeyDerivationFailed)
    } else {
        Ok(argon2id_key(password, salt, memory_cost, time_cost, parallelism))
    }
}

/// A derived master key taken by its bytes.
pub open spec fn master_key_bytes(r: Result<MasterKey, CryptoError>) -> Result<Seq<u8>, CryptoError> {
    match r {
        Ok(k) => Ok(k.key@),
        Err(e) => Err(e),
    }
}

/// A sealed file: the nonce, then the AES-256-GCM ciphertext and tag.
pub open spec fn sealed_file(key: Seq<u8>, nonce: Seq<u8>, plaintext: Seq<u8>) -> Seq<u8> {
    nonce + aes256gcm_seal(key, nonce, plaintext)
}

/// The size of a sealed file for a plaintext size.
pub open spec fn spec_encrypted_size(plaintext_len: int) -> int {
    plaintext_len + NONCE_SIZE + TAG_SIZE
}

/// The outcome of opening a sealed file.
pub open spec fn file_decryption(sealed: Seq<u8>, key: Seq<u8>) -> Result<Seq<u8>, CryptoError> {
    if sealed.len() < NONCE_SIZE + TAG_SIZE {
        Err(
            CryptoError::CiphertextTooShort {
                expected: (NONCE_SIZE + TAG_SIZE) as usize,
                got: sealed.len() as usize,
            },
        )
    } else {
        match aes256gcm_open(key, sealed.take(NONCE_SIZE as int), sealed.skip(NONCE_SIZE as int)) {
            Some(p) => Ok(p),
            None => Err(CryptoError::DecryptionFailed),
        }
    }
}

/// The info string of the key-wrapping subkey, "secapp-key-wrapping-v1".
pub open spec fn wrapping_info() -> Seq<u8> {
    seq![
        115u8, 101, 99, 97, 112, 112, 45, 107, 101, 121, 45, 119, 114, 97, 112, 112, 105, 110,
        103, 45, 118, 49,
    ]
}

/// The subkey under which per-file keys are wrapped.
pub open spec fn wrapping_key(master: Seq<u8>) -> Seq<u8> {
    hkdf_sha256_expand(master, wrapping_info())
}

/// The outcome of unwrapping a key kept as hex text (given by the UTF-8 bytes
/// of its two texts), when nothing panics.
pub open spec fn key_unwrapping(master: Seq<u8>, encrypted_key: Seq<u8>, nonce: Seq<u8>) -> Result<
    Seq<u8>,
    CryptoError,
> {
    match hex_decode_result(nonce) {
        Err(e) => Err(CryptoError::InvalidNonceHex(e)),
        Ok(n) => match hex_decode_result(encrypted_key) {
            Err(e) => Err(CryptoError::InvalidKeyHex(e)),
            Ok(c) => match aes256gcm_open(wrapping_key(master), n, c) {
                Some(k) => Ok(k),
                None => Err(CryptoError::KeyUnwrapFailed),
            },
        },
    }
}

/// The wrapped keys that unwrapping takes without a panic: a nonce that
/// decodes is a nonce's length, and a key that opens is a key's length.
pub open spec fn unwrappable(master: Seq<u8>, encrypted_key: Seq<u8>, nonce: Seq<u8>) -> bool {
    &&& hex_decode_result(nonce) matches Ok(n) ==> n.len() == NONCE_SIZE
    &&& key_unwrapping(master, encrypted_key, nonce) matches Ok(k) ==> k.len() == KEY_SIZE
}

/// The outcome of unwrapping with the two length checks made first.
pub open spec fn checked_key_unwrapping(master: Seq<u8>, encrypted_key: Seq<u8>, nonce: Seq<u8>) -> Result<
    Seq<u8>,
    CryptoError,
> {
    if hex_decode_result(nonce) matches Ok(n) && n.len() != NONCE_SIZE {
        Err(CryptoError::InvalidNonceLength)
    } else if key_unwrapping(master, encrypted_key, nonce) matches Ok(k) && k.len() != KEY_SIZE {
        Err(CryptoError::InvalidKeyLength)
    } else {
        key_unwrapping(master, encrypted_key, nonce)
    }
}

/// A key result taken by its bytes.
pub open spec fn key_bytes(r: Result<[u8; 32], CryptoError>) -> Result<Seq<u8>, CryptoError> {
    match r {
        Ok(k) => Ok(k@),
        Err(e) => Err(e),
    }
}

// ---------------------------------------------------------------------------
// The operations.

/// Derive a master key from a password using Argon2id.
pub fn derive_master_key(
    password: &str,
    salt: &[u8],
    memory_cost: u32,
    time_cost: u32,
    parallelism: u32,
) -> (r: Result<MasterKey, CryptoError>)
    ensures
        master_key_bytes(r) == master_key_derivation(
            password.spec_bytes(),
            salt@,
            memory_cost,
            time_cost,
            parallelism,
        ),
{
    if parallelism > 0xFF_FFFF {
        return Err(CryptoError::InvalidParameters);
    }
    let pwd = password.as_bytes();
    match argon2id_hash(pwd, salt, memory_cost, time_cost, parallelism) {
        Some(key) => Ok(MasterKey { key }),
        None => {
            let params_ok = memory_cost >= 8 && (memory_cost as u64) >= 8 * (parallelism as u64)
                && time_cost >= 1 && parallelism >= 1 && parallelism <= 0xFF_FFFF;
            if params_ok {
                Err(CryptoError::KeyDerivationFailed)
            } else {
                Err(CryptoError::InvalidParameters)
            }
        },
    }
}

/// Generate a random salt for key derivation; fails only when the
/// operating system gives no random bytes.
pub fn generate_salt() -> (r: Result<[u8; 32], CryptoError>)
    ensures
        r matches Err(e) ==> e == CryptoError::RandomnessUnavailable,
{
    let mut salt = [0u8; 32];
    if try_fill_random(&mut salt) {
        Ok(salt)
    } else {
        Err(CryptoError::RandomnessUnavailable)
    }
}

/// Generate a random per-file key; fails only when the operating system
/// gives no random bytes.
pub fn generate_file_key() -> (r: Result<[u8; 32], CryptoError>)
    ensures
        r matches Err(e) ==> e == CryptoError::RandomnessUnavailable,
{
    let mut key = [0u8; 32];
    if try_fill_random(&mut key) {
        Ok(key)
    } else {
        Err(CryptoError::RandomnessUnavailable)
    }
}

/// A random nonce; fails only when the operating system gives no random
/// bytes.
pub fn random_nonce() -> (r: Result<[u8; 12], CryptoError>)
    ensures
        r matches Err(e) ==> e == CryptoError::RandomnessUnavailable,
{
    let mut nonce = [0u8; 12];
    if try_fill_random(&mut nonce) {
        Ok(nonce)
    } else {
        Err(CryptoError::RandomnessUnavailable)
    }
}

/// Seals a file under its key with the given nonce: `nonce || ciphertext || tag`.
pub fn encrypt_file_with_nonce(plaintext: &[u8], file_key: &[u8; 32], nonce: &[u8; 12]) -> (r: Result<
    Vec<u8>,
    CryptoError,
>)
    ensures
        crypto_bytes(r) == (if plaintext@.len() <= MAX_PLAINTEXT {
            Ok::<Seq<u8>, CryptoError>(sealed_file(file_key@, nonce@, plaintext@))
        } else {
            Err::<Seq<u8>, CryptoError>(CryptoError::EncryptionFailed)
        }),
        r matches Ok(c) ==> c@.len() == spec_encrypted_size(plaintext@.len() as int),
        r matches Ok(c) ==> file_decryption(c@, file_key@) == Ok::<Seq<u8>, CryptoError>(plaintext@),
{
    match aes256gcm_encrypt(file_key, nonce, plaintext) {
        Some(sealed) => {
            let mut out: Vec<u8> = Vec::new();
            let mut i: usize = 0;
            while i < NONCE_SIZE
                invariant
                    i <= NONCE_SIZE,
                    out@ == nonce@.take(i as int),
                decreases NONCE_SIZE - i,
            {
                out.push(nonce[i]);
                assert(nonce@.take(i + 1) == nonce@.take(i as int).push(nonce@[i as int]));
                i += 1;
            }
            assert(nonce@.take(12) == nonce@);
            let mut j: usize = 0;
            while j < sealed.len()
                invariant
                    j <= sealed.len(),
                    out@ == nonce@ + sealed@.take(j as int),
                decreases sealed.len() - j,
            {
                out.push(sealed[j]);
                assert(sealed@.take(j + 1) == sealed@.take(j as int).push(sealed@[j as int]));
                j += 1;
            }
            assert(sealed@.take(sealed.len() as int) == sealed@);
            proof {
                assert(out@.take(12) == nonce@);
                assert(out@.skip(12) == sealed@);
            }
            Ok(out)
        },
        None => Err(CryptoError::EncryptionFailed),
    }
}

/// Encrypt data using AES-256-GCM with a per-file key and a fresh random
/// nonce. Returns the ciphertext (nonce || ciphertext || tag).
pub fn encrypt_file(plaintext: &[u8], file_key: &[u8; 32]) -> (r: Result<Vec<u8>, CryptoError>)
    ensures
        plaintext@.len() > MAX_PLAINTEXT ==> r is Err,
        r matches Err(e) ==> e == CryptoError::RandomnessUnavailable || (e == CryptoError::EncryptionFailed
            && plaintext@.len() > MAX_PLAINTEXT),
        r matches Ok(c) ==> c@ == sealed_file(file_key@, c@.take(NONCE_SIZE as int), plaintext@),
        r matches Ok(c) ==> c@.len() == spec_encrypted_size(plaintext@.len() as int),
        r matches Ok(c) ==> file_decryption(c@, file_key@) == Ok::<Seq<u8>, CryptoError>(plaintext@),
{
    let nonce = match random_nonce() {
        Ok(n) => n,
        Err(e) => return Err(e),
    };
    let r = encrypt_file_with_nonce(plaintext, file_key, &nonce);
    proof {
        if r is Ok {
            assert(r->Ok_0@.take(12) == nonce@);
        }
    }
    r
}

/// Decrypt data encrypted by `encrypt_file`.
/// Expects input format: nonce || ciphertext || tag.
pub fn decrypt_file(ciphertext: &[u8], file_key: &[u8; 32]) -> (r: Result<Vec<u8>, CryptoError>)
    ensures
        crypto_bytes(r) == file_decryption(ciphertext@, file_key@),
{
    if ciphertext.len() < NONCE_SIZE + TAG_SIZE {
        return Err(
            CryptoError::CiphertextTooShort { expected: NONCE_SIZE + TAG_SIZE, got: ciphertext.len() },
        );
    }
    let mut nonce = [0u8; 12];
    let mut i: usize = 0;
    while i < NONCE_SIZE
        invariant
            i <= NONCE_SIZE,
            ciphertext@.len() >= 28,
            forall|k: int| 0 <= k < i ==> nonce@[k] == ciphertext@[k],
        decreases NONCE_SIZE - i,
    {
        nonce[i] = ciphertext[i];
        i += 1;
    }
    assert(nonce@ == ciphertext@.take(12));
    let mut body: Vec<u8> = Vec::new();
    let mut j: usize = NONCE_SIZE;
    while j < ciphertext.len()
        invariant
            NONCE_SIZE <= j <= ciphertext.len(),
            body@ == ciphertext@.subrange(12, j as int),
        decreases ciphertext.len() - j,
    {
        body.push(ciphertext[j]);
        assert(ciphertext@.subrange(12, j + 1) == ciphertext@.subrange(12, j as int).push(ciphertext@[j as int]));
        j += 1;
    }
    assert(body@ == ciphertext@.skip(12));
    match aes256gcm_decrypt(file_key, &nonce, body.as_slice()) {
        Some(p) => Ok(p),
        None => Err(CryptoError::DecryptionFailed),
    }
}

/// Derive a key-wrapping subkey from the master key using HKDF-SHA256.
fn derive_wrapping_key(master_key: &MasterKey) -> (r: Result<[u8; 32], CryptoError>)
    ensures
        r is Ok,
        r matches Ok(k) ==> k@ == wrapping_key(master_key.key@),
{
    let info: [u8; 22] = [
        115u8, 101, 99, 97, 112, 112, 45, 107, 101, 121, 45, 119, 114, 97, 112, 112, 105, 110,
        103, 45, 118, 49,
    ];
    assert(info@ == wrapping_info());
    match hkdf_sha256_32(master_key.key.as_slice(), info.as_slice()) {
        Some(k) => Ok(k),
        None => Err(CryptoError::InvalidParameters),
    }
}

/// Wraps a per-file key under the master key with the given nonce.
pub fn wrap_file_key_with_nonce(master_key: &MasterKey, file_key: &[u8; 32], nonce: &[u8; 12]) -> (r:
    EncryptedFileKey)
    ensures
        r.encrypted_key@ == hex_encoding(
            aes256gcm_seal(wrapping_key(master_key.key@), nonce@, file_key@),
        ),
        r.nonce@ == hex_encoding(nonce@),
        r.encrypted_key@.len() == 2 * (KEY_SIZE + TAG_SIZE),
        r.nonce@.len() == 2 * NONCE_SIZE,
        unwrappable(master_key.key@, encode_utf8(r.encrypted_key@), encode_utf8(r.nonce@)),
        key_unwrapping(master_key.key@, encode_utf8(r.encrypted_key@), encode_utf8(r.nonce@))
            == Ok::<Seq<u8>, CryptoError>(file_key@),
{
    let subkey = match derive_wrapping_key(master_key) {
        Ok(k) => k,
        Err(_) => [0u8; 32],
    };
    let sealed = match aes256gcm_encrypt(&subkey, nonce, file_key.as_slice()) {
        Some(c) => c,
        None => Vec::new(),
    };
    let r = EncryptedFileKey { encrypted_key: hex::encode(sealed.as_slice()), nonce: hex::encode(nonce.as_slice()) };
    proof {
        hex::lemma_hex_roundtrip(sealed@);
        hex::lemma_hex_roundtrip(nonce@);
        hex::lemma_hex_encoding_shape(sealed@);
        hex::lemma_hex_encoding_shape(nonce@);
    }
    r
}

/// Wrap (encrypt) a per-file key under the master key.
/// The file key is encrypted with AES-256-GCM using a derived subkey
/// from the master key. This avoids reusing the master key directly.
pub fn wrap_file_key(master_key: &MasterKey, file_key: &[u8; 32]) -> (r: Result<EncryptedFileKey, CryptoError>)
    ensures
        r matches Err(e) ==> e == CryptoError::RandomnessUnavailable,
        r matches Ok(w) ==> w.encrypted_key@.len() == 2 * (KEY_SIZE + TAG_SIZE) && w.nonce@.len() == 2
            * NONCE_SIZE,
        r matches Ok(w) ==> w.encrypted_key@ == hex_encoding(
            aes256gcm_seal(wrapping_key(master_key.key@), hex::hex_decoding(encode_utf8(w.nonce@)), file_key@),
        ),
        r matches Ok(w) ==> unwrappable(master_key.key@, encode_utf8(w.encrypted_key@), encode_utf8(w.nonce@)),
        r matches Ok(w) ==> key_unwrapping(master_key.key@, encode_utf8(w.encrypted_key@), encode_utf8(w.nonce@))
            == Ok::<Seq<u8>, CryptoError>(file_key@),
{
    let nonce = match random_nonce() {
        Ok(n) => n,
        Err(e) => return Err(e),
    };
    let w = wrap_file_key_with_nonce(master_key, file_key, &nonce);
    proof {
        hex::lemma_hex_roundtrip(nonce@);
        assert(hex_decode_result(encode_utf8(w.nonce@)) == Ok::<Seq<u8>, HexError>(nonce@));
        assert(hex::hex_decoding(encode_utf8(w.nonce@)) == nonce@);
    }
    Ok(w)
}

/// Unwrap (decrypt) a per-file key from its encrypted form.
pub fn unwrap_file_key(master_key: &MasterKey, encrypted: &EncryptedFileKey) -> (r: Result<[u8; 32], CryptoError>)
    requires
        unwrappable(master_key.key@, encode_utf8(encrypted.encrypted_key@), encode_utf8(encrypted.nonce@)),
    ensures
        key_bytes(r) == key_unwrapping(
            master_key.key@,
            encode_utf8(encrypted.encrypted_key@),
            encode_utf8(encrypted.nonce@),
        ),
{
    let subkey = match derive_wrapping_key(master_key) {
        Ok(k) => k,
        Err(e) => return Err(e),
    };
    let nonce_bytes = match hex::decode(encrypted.nonce.as_str()) {
        Ok(n) => n,
        Err(e) => return Err(CryptoError::InvalidNonceHex(e)),
    };
    let mut nonce = [0u8; 12];
    let mut i: usize = 0;
    while i < NONCE_SIZE
        invariant
            i <= NONCE_SIZE,
            nonce_bytes@.len() == 12,
            forall|k: int| 0 <= k < i ==> nonce@[k] == nonce_bytes@[k],
        decreases NONCE_SIZE - i,
    {
        nonce[i] = nonce_bytes[i];
        i += 1;
    }
    assert(nonce@ == nonce_bytes@);
    let key_bytes = match hex::decode(encrypted.encrypted_key.as_str()) {
        Ok(c) => c,
        Err(e) => return Err(CryptoError::InvalidKeyHex(e)),
    };
    let opened = match aes256gcm_decrypt(&subkey, &nonce, key_bytes.as_slice()) {
        Some(k) => k,
        None => return Err(CryptoError::KeyUnwrapFailed),
    };
    let mut key = [0u8; 32];
    let mut j: usize = 0;
    while j < KEY_SIZE
        invariant
            j <= KEY_SIZE,
            opened@.len() == 32,
            forall|k: int| 0 <= k < j ==> key@[k] == opened@[k],
        decreases KEY_SIZE - j,
    {
        key[j] = opened[j];
        j += 1;
    }
    assert(key@ == opened@);
    Ok(key)
}

/// Unwraps a per-file key, refusing (rather than panicking on) a nonce that
/// does not decode to a nonce's length or a wrapped key that does not open
/// to a key's length.
pub fn unwrap_file_key_checked(master_key: &MasterKey, encrypted: &EncryptedFileKey) -> (r: Result<
    [u8; 32],
    CryptoError,
>)
    ensures
        key_bytes(r) == checked_key_unwrapping(
            master_key.key@,
            encode_utf8(encrypted.encrypted_key@),
            encode_utf8(encrypted.nonce@),
        ),
{
    let nonce_bytes = match hex::decode(encrypted.nonce.as_str()) {
        Ok(n) => n,
        Err(e) => return Err(CryptoError::InvalidNonceHex(e)),
    };
    if nonce_bytes.len() != NONCE_SIZE {
        return Err(CryptoError::InvalidNonceLength);
    }
    let key_text = match hex::decode(encrypted.encrypted_key.as_str()) {
        Ok(c) => c,
        Err(e) => return Err(CryptoError::InvalidKeyHex(e)),
    };
    let subkey = match derive_wrapping_key(master_key) {
        Ok(k) => k,
        Err(e) => return Err(e),
    };
    let mut nonce = [0u8; 12];
    let mut i: usize = 0;
    while i < NONCE_SIZE
        invariant
            i <= NONCE_SIZE,
            nonce_bytes@.len() == 12,
            forall|k: int| 0 <= k < i ==> nonce@[k] == nonce_bytes@[k],
        decreases NONCE_SIZE - i,
    {
        nonce[i] = nonce_bytes[i];
        i += 1;
    }
    assert(nonce@ == nonce_bytes@);
    match aes256gcm_decrypt(&subkey, &nonce, key_text.as_slice()) {
        Some(k) => {
            if k.len() != KEY_SIZE {
                return Err(CryptoError::InvalidKeyLength);
            }
        },
        None => {},
    }
    unwrap_file_key(master_key, encrypted)
}

/// Compute the SHA-256 hash of data (for integrity checking).
pub fn sha256_hash(data: &[u8]) -> (r: [u8; 32])
    ensures
        r@ == sha256(data@),
{
    sha256_digest(data)
}

/// Compute the encrypted file size from the plaintext size.
/// Encrypted = nonce (12) + plaintext + tag (16).
pub fn encrypted_size(plaintext_len: usize) -> (r: usize)
    requires
        plaintext_len + NONCE_SIZE + TAG_SIZE <= usize::MAX,
    ensures
        r == spec_encrypted_size(plaintext_len as int),
{
    plaintext_len + NONCE_SIZE + TAG_SIZE
}

/// Compute the plaintext size from an encrypted blob size.
/// Returns None if the encrypted size is too small.
pub fn decrypted_size(encrypted_len: usize) -> (r: Option<usize>)
    ensures
        r == (if encrypted_len >= NONCE_SIZE + TAG_SIZE {
            Some((encrypted_len - NONCE_SIZE - TAG_SIZE) as usize)
        } else {
            None::<usize>
        }),
{
    encrypted_len.checked_sub(NONCE_SIZE + TAG_SIZE)
}

/// Sizes undo each other: the plaintext size of a sealed file's size is the
/// plaintext's size.
pub proof fn law_sizes_round_trip(plaintext_len: int)
    requires
        0 <= plaintext_len,
    ensures
        spec_encrypted_size(plaintext_len) >= NONCE_SIZE + TAG_SIZE,
        spec_encrypted_size(plaintext_len) - NONCE_SIZE - TAG_SIZE == plaintext_len,
{
}

impl MasterKey {
    /// The master key made of raw key bytes (as kept in a keyring), when
    /// they are exactly a key's length.
    pub fn from_bytes(bytes: &[u8]) -> (r: Option<MasterKey>)
        ensures
            r is Some <==> bytes@.len() == KEY_SIZE,
            r matches Some(k) ==> k.key@ == bytes@,
    {
        if bytes.len() != KEY_SIZE {
            return None;
        }
        let mut key = [0u8; 32];
        let mut i: usize = 0;
        while i < KEY_SIZE
            invariant
                i <= KEY_SIZE,
                bytes@.len() == 32,
                forall|k: int| 0 <= k < i ==> key@[k] == bytes@[k],
            decreases KEY_SIZE - i,
        {
            key[i] = bytes[i];
            i += 1;
        }
        assert(key@ == bytes@);
        Some(MasterKey { key })
    }
}

} // verus!
