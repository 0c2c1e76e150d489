use secapp::crypto::{
    decrypt_file, decrypted_size, derive_master_key, encrypt_file, encrypt_file_with_nonce,
    encrypted_size, generate_file_key, generate_salt, sha256_hash, unwrap_file_key,
    unwrap_file_key_checked, wrap_file_key, wrap_file_key_with_nonce, CryptoError,
    EncryptedFileKey, MasterKey, NONCE_SIZE,
};
use secapp::hex::{self, decode, encode, HexError};

#[test]
fn encrypt_decrypt_roundtrip() {
    let key = generate_file_key().unwrap();
    let plaintext = b"Hello, secapp! This is a test file with some content.";
    let encrypted = encrypt_file(plaintext, &key).unwrap();
    let decrypted = decrypt_file(&encrypted, &key).unwrap();
    assert_eq!(plaintext.as_slice(), decrypted.as_slice());
}

#[test]
fn encrypt_decrypt_empty_file() {
    let key = generate_file_key().unwrap();
    let plaintext = b"";
    let encrypted = encrypt_file(plaintext, &key).unwrap();
    let decrypted = decrypt_file(&encrypted, &key).unwrap();
    assert_eq!(plaintext.as_slice(), decrypted.as_slice());
}

#[test]
fn encrypt_decrypt_large_file() {
    let key = generate_file_key().unwrap();
    let plaintext: Vec<u8> = (0..1_000_000).map(|i| (i % 256) as u8).collect();
    let encrypted = encrypt_file(&plaintext, &key).unwrap();
    let decrypted = decrypt_file(&encrypted, &key).unwrap();
    assert_eq!(plaintext, decrypted);
}

#[test]
fn wrong_key_fails() {
    let key1 = generate_file_key().unwrap();
    let key2 = generate_file_key().unwrap();
    let plaintext = b"secret data";
    let encrypted = encrypt_file(plaintext, &key1).unwrap();
    let result = decrypt_file(&encrypted, &key2);
    assert!(result.is_err(), "decryption with wrong key should fail");
}

#[test]
fn tampered_ciphertext_fails() {
    let key = generate_file_key().unwrap();
    let plaintext = b"secret data";
    let mut encrypted = encrypt_file(plaintext, &key).unwrap();
    let last = encrypted.len() - 1;
    encrypted[last] ^= 0xFF;
    let result = decrypt_file(&encrypted, &key);
    assert!(result.is_err(), "decryption of tampered data should fail");
}

#[test]
fn key_wrapping_roundtrip() {
    let salt = generate_salt().unwrap();
    let master_key = derive_master_key("test-password", &salt, 1024, 1, 1).unwrap();
    let file_key = generate_file_key().unwrap();
    let wrapped = wrap_file_key(&master_key, &file_key).unwrap();
    let unwrapped = unwrap_file_key(&master_key, &wrapped).unwrap();
    assert_eq!(file_key, unwrapped);
}

#[test]
fn key_wrapping_wrong_master_fails() {
    let salt1 = generate_salt().unwrap();
    let salt2 = generate_salt().unwrap();
    let master1 = derive_master_key("password-1", &salt1, 1024, 1, 1).unwrap();
    let master2 = derive_master_key("password-2", &salt2, 1024, 1, 1).unwrap();
    let file_key = generate_file_key().unwrap();
    let wrapped = wrap_file_key(&master1, &file_key).unwrap();
    let result = unwrap_file_key(&master2, &wrapped);
    assert!(result.is_err(), "unwrapping with wrong master key should fail");
}

#[test]
fn master_key_derivation_consistent() {
    let salt = generate_salt().unwrap();
    let key1 = derive_master_key("password", &salt, 1024, 1, 1).unwrap();
    let key2 = derive_master_key("password", &salt, 1024, 1, 1).unwrap();
    assert_eq!(key1.key, key2.key);
}

#[test]
fn master_key_derivation_different_password() {
    let salt = generate_salt().unwrap();
    let key1 = derive_master_key("password-1", &salt, 1024, 1, 1).unwrap();
    let key2 = derive_master_key("password-2", &salt, 1024, 1, 1).unwrap();
    assert_ne!(key1.key, key2.key);
}

#[test]
fn sha256_deterministic() {
    let data = b"test data";
    let hash1 = sha256_hash(data);
    let hash2 = sha256_hash(data);
    assert_eq!(hash1, hash2);
}

#[test]
fn encrypted_size_calculation() {
    assert_eq!(encrypted_size(0), NONCE_SIZE + 16);
    assert_eq!(encrypted_size(100), 100 + NONCE_SIZE + 16);
    assert_eq!(decrypted_size(encrypted_size(100)), Some(100));
    assert_eq!(decrypted_size(10), None);
}

// ---------------------------------------------------------------------------

#[test]
fn sha256_known_digest() {
    let digest = sha256_hash(b"abc");
    assert_eq!(
        encode(&digest),
        "ba7816bf8f01cfea414140de5dae2223b00361a396177a9cb410ff61f20015ad"
    );
    assert_eq!(
        encode(&sha256_hash(b"")),
        "e3b0c44298fc1c149afbf4c8996fb92427ae41e4649b934ca495991b7852b855"
    );
}

#[test]
fn sealed_file_layout() {
    let key = [7u8; 32];
    let nonce = [1u8, 2, 3, 4, 5, 6, 7, 8, 9, 10, 11, 12];
    let sealed = encrypt_file_with_nonce(b"hello", &key, &nonce).unwrap();
    assert_eq!(sealed.len(), encrypted_size(5));
    assert_eq!(&sealed[..12], &nonce);
    // The body is not the plaintext.
    assert_ne!(&sealed[12..17], b"hello");
    // Same key, nonce and contents: the same sealed bytes.
    let again = encrypt_file_with_nonce(b"hello", &key, &nonce).unwrap();
    assert_eq!(sealed, again);
    assert_eq!(decrypt_file(&sealed, &key).unwrap(), b"hello".to_vec());
}

#[test]
fn fresh_nonces_differ() {
    let key = [9u8; 32];
    let a = encrypt_file(b"same", &key).unwrap();
    let b = encrypt_file(b"same", &key).unwrap();
    assert_ne!(a, b);
}

#[test]
fn short_ciphertext_is_refused() {
    let key = [0u8; 32];
    assert_eq!(
        decrypt_file(&[0u8; 10], &key),
        Err(CryptoError::CiphertextTooShort { expected: 28, got: 10 })
    );
    // A nonce and a tag alone do not authenticate as an empty file.
    assert_eq!(decrypt_file(&[0u8; 28], &key), Err(CryptoError::DecryptionFailed));
}

#[test]
fn key_derivation_errors() {
    let salt = [5u8; 16];
    assert_eq!(
        derive_master_key("pw", &salt, 0, 1, 1).unwrap_err(),
        CryptoError::InvalidParameters
    );
    assert_eq!(
        derive_master_key("pw", &salt, 1024, 0, 1).unwrap_err(),
        CryptoError::InvalidParameters
    );
    assert_eq!(
        derive_master_key("pw", &[1u8, 2, 3], 1024, 1, 1).unwrap_err(),
        CryptoError::KeyDerivationFailed
    );
    let salt_a = [1u8; 32];
    let salt_b = [2u8; 32];
    let a = derive_master_key("pw", &salt_a, 1024, 1, 1).unwrap();
    let b = derive_master_key("pw", &salt_b, 1024, 1, 1).unwrap();
    assert_ne!(a.key, b.key);
}

#[test]
fn wrapped_key_with_given_nonce() {
    let master = MasterKey { key: [3u8; 32] };
    let file_key = [4u8; 32];
    let nonce = [0xabu8; 12];
    let wrapped = wrap_file_key_with_nonce(&master, &file_key, &nonce);
    assert_eq!(wrapped.nonce, "abababababababababababab");
    // A key and its tag, in hex.
    assert_eq!(wrapped.encrypted_key.len(), 2 * (32 + 16));
    assert_eq!(unwrap_file_key(&master, &wrapped).unwrap(), file_key);
    assert_eq!(unwrap_file_key_checked(&master, &wrapped).unwrap(), file_key);
}

#[test]
fn checked_unwrap_refuses_bad_records() {
    let master = MasterKey { key: [3u8; 32] };
    let good = wrap_file_key(&master, &[4u8; 32]).unwrap();
    let bad_hex = EncryptedFileKey { encrypted_key: good.encrypted_key.clone(), nonce: "zz".to_string() };
    assert_eq!(
        unwrap_file_key_checked(&master, &bad_hex),
        Err(CryptoError::InvalidNonceHex(HexError::InvalidHexCharacter { c: 'z', index: 0 }))
    );
    let short_nonce = EncryptedFileKey { encrypted_key: good.encrypted_key.clone(), nonce: "abcd".to_string() };
    assert_eq!(unwrap_file_key_checked(&master, &short_nonce), Err(CryptoError::InvalidNonceLength));
    let odd_key = EncryptedFileKey { encrypted_key: "abc".to_string(), nonce: good.nonce.clone() };
    assert_eq!(
        unwrap_file_key_checked(&master, &odd_key),
        Err(CryptoError::InvalidKeyHex(HexError::OddLength))
    );
    let other = MasterKey { key: [5u8; 32] };
    assert_eq!(unwrap_file_key_checked(&other, &good), Err(CryptoError::KeyUnwrapFailed));
}

#[test]
fn master_key_from_bytes() {
    assert!(MasterKey::from_bytes(&[1u8; 31]).is_none());
    assert!(MasterKey::from_bytes(&[1u8; 33]).is_none());
    assert_eq!(MasterKey::from_bytes(&[1u8; 32]).unwrap().key, [1u8; 32]);
}

#[test]
fn sizes_round_trip() {
    for n in [0usize, 1, 27, 28, 1000] {
        assert_eq!(decrypted_size(encrypted_size(n)), Some(n));
    }
    assert_eq!(decrypted_size(28), Some(0));
    assert_eq!(decrypted_size(27), None);
}

#[test]
fn hex_encoding_examples() {
    assert_eq!(encode(&[0xde, 0xad, 0xbe, 0xef]), "deadbeef");
    assert_eq!(encode(&[]), "");
    assert_eq!(encode(&[0x00, 0x0f, 0xf0]), "000ff0");
    assert_eq!(decode("DEADbeef").unwrap(), vec![0xde, 0xad, 0xbe, 0xef]);
    assert_eq!(decode("").unwrap(), Vec::<u8>::new());
    assert_eq!(decode("abc"), Err(HexError::OddLength));
    assert_eq!(decode("0g"), Err(HexError::InvalidHexCharacter { c: 'g', index: 1 }));
}

#[test]
fn hex_round_trip() {
    let bytes: Vec<u8> = (0..=255u8).collect();
    assert_eq!(decode(&encode(&bytes)).unwrap(), bytes);
}

#[test]
fn keys_are_wrapped_under_a_derived_subkey() {
    let master = MasterKey { key: [8u8; 32] };
    let nonce = [1u8; 12];
    let wrapped = wrap_file_key_with_nonce(&master, &[2u8; 32], &nonce);
    // The wrapped key does not open under the master key itself.
    let mut sealed = nonce.to_vec();
    sealed.extend(decode(&wrapped.encrypted_key).unwrap());
    assert_eq!(decrypt_file(&sealed, &master.key), Err(CryptoError::DecryptionFailed));
}

#[test]
fn random_values_differ() {
    assert_ne!(generate_salt().unwrap(), generate_salt().unwrap());
    assert_ne!(generate_file_key().unwrap(), generate_file_key().unwrap());
    assert_ne!(secapp::crypto::random_nonce().unwrap(), secapp::crypto::random_nonce().unwrap());
}

#[test]
fn wrapped_keys_have_fixed_lengths() {
    let master = MasterKey { key: [1u8; 32] };
    let w = wrap_file_key(&master, &[2u8; 32]).unwrap();
    assert_eq!(w.encrypted_key.len(), 96);
    assert_eq!(w.nonce.len(), 24);
    assert_eq!(hex::decode(&w.encrypted_key).unwrap().len(), 48);
}

#[test]
fn too_many_lanes_are_refused() {
    assert_eq!(
        derive_master_key("pw", &[0u8; 16], 1024, 1, 0x100_0000).unwrap_err(),
        CryptoError::InvalidParameters
    );
    assert_eq!(
        derive_master_key("pw", &[0u8; 16], u32::MAX, 1, u32::MAX).unwrap_err(),
        CryptoError::InvalidParameters
    );
}
