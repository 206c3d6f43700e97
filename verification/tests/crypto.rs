use pivss::crypto::{
    decrypt, derive_key, encrypt, encrypt_with, is_envelope, CryptoError, CIPHER_FORMAT, HEADER_LEN,
    MAGIC,
};

#[test]
fn roundtrip() {
    let (env, _, _) = encrypt("correct horse", b"lightning channel state").unwrap();
    assert!(is_envelope(&env));
    assert_ne!(&env[..], b"lightning channel state");
    let out = decrypt("correct horse", &env).unwrap();
    assert_eq!(out, b"lightning channel state");
}

#[test]
fn wrong_passphrase_fails() {
    let (env, _, _) = encrypt("right", b"secret rgb stash").unwrap();
    assert!(matches!(decrypt("wrong", &env), Err(CryptoError::Decrypt)));
}

#[test]
fn reproduction_is_deterministic() {
    let (env, salt, nonce) = encrypt("pw", b"backup bytes").unwrap();
    let reproduced = encrypt_with("pw", &salt, &nonce, b"backup bytes").unwrap();
    assert_eq!(
        env, reproduced,
        "same pw+salt+nonce+plaintext must reproduce the exact envelope"
    );
    // ...but different plaintext under the same salt+nonce diverges.
    let other = encrypt_with("pw", &salt, &nonce, b"tampered bytes").unwrap();
    assert_ne!(env, other);
}

#[test]
fn fresh_salt_nonce_each_time() {
    let (a, _, _) = encrypt("pw", b"x").unwrap();
    let (b, _, _) = encrypt("pw", b"x").unwrap();
    assert_ne!(a, b, "random salt+nonce should make envelopes differ");
}

#[test]
fn rejects_non_envelope() {
    // Long enough to pass the length check, so we hit the magic check.
    let junk = vec![0xabu8; 64];
    assert!(matches!(decrypt("pw", &junk), Err(CryptoError::BadMagic)));
    // Too short: caught by the length check first.
    assert!(matches!(
        decrypt("pw", b"short"),
        Err(CryptoError::Truncated)
    ));
    assert!(!is_envelope(b"nope"));
}

#[test]
fn envelope_has_header_salt_and_nonce() {
    let (env, salt, nonce) = encrypt("pw", b"abc").unwrap();
    assert_eq!(env.len(), HEADER_LEN + 3 + 16);
    assert_eq!(&env[..6], b"PIVSS1");
    assert_eq!(&env[..6], &MAGIC);
    assert_eq!(hex::encode(&env[6..22]), salt);
    assert_eq!(hex::encode(&env[22..34]), nonce);
    assert_eq!(CIPHER_FORMAT, "AES-256-GCM/Argon2id");
}

#[test]
fn key_depends_on_passphrase_and_salt() {
    let key = derive_key("pw", &[1u8; 16]).unwrap();
    assert_eq!(key, derive_key("pw", &[1u8; 16]).unwrap());
    assert_ne!(key, derive_key("pw", &[2u8; 16]).unwrap());
    assert_ne!(key, derive_key("pv", &[1u8; 16]).unwrap());
}

#[test]
fn bad_salt_or_nonce_is_truncated() {
    let salt = "00".repeat(16);
    let nonce = "00".repeat(12);
    assert!(encrypt_with("pw", &salt, &nonce, b"x").is_ok());
    assert!(matches!(
        encrypt_with("pw", "zz", &nonce, b"x"),
        Err(CryptoError::Truncated)
    ));
    assert!(matches!(
        encrypt_with("pw", &salt, &salt, b"x"),
        Err(CryptoError::Truncated)
    ));
    assert!(matches!(
        encrypt_with("pw", "0", &nonce, b"x"),
        Err(CryptoError::Truncated)
    ));
}

#[test]
fn corrupt_ciphertext_fails() {
    let (mut env, _, _) = encrypt("pw", b"channel state").unwrap();
    let last = env.len() - 1;
    env[last] ^= 1;
    assert!(matches!(decrypt("pw", &env), Err(CryptoError::Decrypt)));
    // A header without a tag behind it decrypts to nothing.
    let bare = env[..HEADER_LEN].to_vec();
    assert!(matches!(decrypt("pw", &bare), Err(CryptoError::Decrypt)));
}

#[test]
fn empty_plaintext_roundtrips() {
    let (env, _, _) = encrypt("", b"").unwrap();
    assert_eq!(env.len(), HEADER_LEN + 16);
    assert_eq!(decrypt("", &env).unwrap(), b"");
}

#[test]
fn crypto_errors_in_words() {
    assert_eq!(
        CryptoError::Kdf("password is too long".to_string()).to_string(),
        "key derivation failed: password is too long"
    );
    assert_eq!(CryptoError::Encrypt.to_string(), "encryption failed");
    assert_eq!(
        CryptoError::Decrypt.to_string(),
        "decryption failed (wrong passphrase or corrupt data)"
    );
    assert_eq!(CryptoError::BadMagic.to_string(), "not a PIVSS envelope");
    assert_eq!(CryptoError::Truncated.to_string(), "truncated envelope");
}
