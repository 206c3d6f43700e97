//! Optional client-side encryption. Backups are opaque to a provider, and are
//! taken to be encrypted already; this module is for clients that do not encrypt
//! themselves. The key never leaves the client.
//!
//! The envelope that is uploaded:
//!
//! ```text
//! magic "PIVSS1" (6) | salt (16) | nonce (12) | AES-256-GCM ciphertext and tag
//! ```
//!
//! The key is Argon2id of the passphrase and the salt. Salt and nonce are fresh
//! for every encryption; given the same salt and nonce again, [`encrypt_with`]
//! makes the same envelope again, which is how a client answers for what it
//! uploaded without a second copy on disk.
use vstd::prelude::*;
use vstd::string::*;
use vstd::utf8::*;
use crate::outside::{
    aes256gcm_open, aes256gcm_seal, aes_decrypt, aes_encrypt, argon2_hash, argon2id, drawn,
    hex_decode, hex_encode, random_bytes, ARGON2_MAX_PASSWORD, GCM_MAX_PLAINTEXT, GCM_TAG,
};
use crate::text::{from_hex, law_hex_roundtrip, to_hex};

verus! {

/// What every envelope starts with: `PIVSS1`.
pub const MAGIC: [u8; 6] = [80, 73, 86, 83, 83, 49];

/// The length of a salt in bytes.
pub const SALT_LEN: usize = 16;

/// The length of a nonce in bytes.
pub const NONCE_LEN: usize = 12;

/// The length of what stands in front of the ciphertext.
pub const HEADER_LEN: usize = 34;

/// The name of the scheme.
pub const CIPHER_FORMAT: &'static str = "AES-256-GCM/Argon2id";

/// Why encryption or decryption failed.
#[derive(Debug)]
pub enum CryptoError {
    /// The key could not be derived.
    Kdf(String),
    /// The plaintext could not be encrypted.
    Encrypt,
    /// The passphrase is wrong or the data is corrupt.
    Decrypt,
    /// The data is no envelope.
    BadMagic,
    /// The data is too short, or a salt or nonce is no hexadecimal text of the
    /// right length.
    Truncated,
}

/// What is known of a [`CryptoError`] in contracts.
pub enum CryptoErrorView {
    /// See [`CryptoError::Kdf`].
    Kdf(Seq<char>),
    /// See [`CryptoError::Encrypt`].
    Encrypt,
    /// See [`CryptoError::Decrypt`].
    Decrypt,
    /// See [`CryptoError::BadMagic`].
    BadMagic,
    /// See [`CryptoError::Truncated`].
    Truncated,
}

impl View for CryptoError {
    type V = CryptoErrorView;

    open spec fn view(&self) -> CryptoErrorView {
        match self {
            CryptoError::Kdf(text) => CryptoErrorView::Kdf(text@),
            CryptoError::Encrypt => CryptoErrorView::Encrypt,
            CryptoError::Decrypt => CryptoErrorView::Decrypt,
            CryptoError::BadMagic => CryptoErrorView::BadMagic,
            CryptoError::Truncated => CryptoErrorView::Truncated,
        }
    }
}

/// A [`CryptoError`] in words.
pub open spec fn crypto_error_text(e: CryptoErrorView) -> Seq<char> {
    match e {
        CryptoErrorView::Kdf(text) => "key derivation failed: "@ + text,
        CryptoErrorView::Encrypt => "encryption failed"@,
        CryptoErrorView::Decrypt => "decryption failed (wrong passphrase or corrupt data)"@,
        CryptoErrorView::BadMagic => "not a PIVSS envelope"@,
        CryptoErrorView::Truncated => "truncated envelope"@,
    }
}

impl CryptoError {
    /// The error in words.
    pub fn to_string(&self) -> (s: String)
        ensures
            s@ == crypto_error_text(self@),
    {
        match self {
            CryptoError::Kdf(text) => {
                let mut s = "key derivation failed: ".to_owned();
                s.append(text.as_str());
                s
            },
            CryptoError::Encrypt => "encryption failed".to_owned(),
            CryptoError::Decrypt => "decryption failed (wrong passphrase or corrupt data)".to_owned(),
            CryptoError::BadMagic => "not a PIVSS envelope".to_owned(),
            CryptoError::Truncated => "truncated envelope".to_owned(),
        }
    }
}

/// A derived key with its salt, so that a caller can keep the salt.
pub struct DerivedKey {
    /// The key.
    pub key: [u8; 32],
    /// The salt.
    pub salt: [u8; SALT_LEN],
}

/// The key of a passphrase and a salt.
pub open spec fn key_of(passphrase: Seq<char>, salt: Seq<u8>) -> Result<Seq<u8>, CryptoErrorView> {
    if encode_utf8(passphrase).len() <= ARGON2_MAX_PASSWORD {
        Ok(argon2id(encode_utf8(passphrase), salt)@)
    } else {
        Err(CryptoErrorView::Kdf("password is too long"@))
    }
}

/// The envelope of a ciphertext.
pub open spec fn envelope(salt: Seq<u8>, nonce: Seq<u8>, sealed: Seq<u8>) -> Seq<u8> {
    MAGIC@ + salt + nonce + sealed
}

/// What encryption under a passphrase, a salt and a nonce comes to.
pub open spec fn encryption(
    passphrase: Seq<char>,
    salt: Seq<u8>,
    nonce: Seq<u8>,
    plaintext: Seq<u8>,
) -> Result<Seq<u8>, CryptoErrorView> {
    match key_of(passphrase, salt) {
        Err(e) => Err(e),
        Ok(key) => if plaintext.len() <= GCM_MAX_PLAINTEXT {
            Ok(envelope(salt, nonce, aes256gcm_seal(key, nonce, plaintext)))
        } else {
            Err(CryptoErrorView::Encrypt)
        },
    }
}

/// The bytes of a hexadecimal text that stands for `n` of them.
pub open spec fn fixed_hex(s: Seq<char>, n: nat) -> Option<Seq<u8>> {
    match from_hex(s) {
        Some(bytes) => if bytes.len() == n {
            Some(bytes)
        } else {
            None
        },
        None => None,
    }
}

/// What encryption with a salt and a nonce in hexadecimal comes to.
pub open spec fn reproduction(
    passphrase: Seq<char>,
    salt_hex: Seq<char>,
    nonce_hex: Seq<char>,
    plaintext: Seq<u8>,
) -> Result<Seq<u8>, CryptoErrorView> {
    match (fixed_hex(salt_hex, SALT_LEN as nat), fixed_hex(nonce_hex, NONCE_LEN as nat)) {
        (Some(salt), Some(nonce)) => encryption(passphrase, salt, nonce, plaintext),
        _ => Err(CryptoErrorView::Truncated),
    }
}

/// Whether data starts as an envelope does.
pub open spec fn has_magic(data: Seq<u8>) -> bool {
    data.len() >= MAGIC@.len() && data.take(MAGIC@.len() as int) == MAGIC@
}

/// What decryption of an envelope comes to.
pub open spec fn decryption(passphrase: Seq<char>, data: Seq<u8>) -> Result<
    Seq<u8>,
    CryptoErrorView,
> {
    if data.len() < HEADER_LEN {
        Err(CryptoErrorView::Truncated)
    } else if !has_magic(data) {
        Err(CryptoErrorView::BadMagic)
    } else {
        match key_of(passphrase, data.subrange(6, 22)) {
            Err(e) => Err(e),
            Ok(key) => match aes256gcm_open(
                key,
                data.subrange(22, 34),
                data.subrange(34, data.len() as int),
            ) {
                Some(plaintext) => Ok(plaintext),
                None => Err(CryptoErrorView::Decrypt),
            },
        }
    }
}

/// A result in views.
pub open spec fn outcome(res: Result<Vec<u8>, CryptoError>) -> Result<Seq<u8>, CryptoErrorView> {
    match res {
        Ok(v) => Ok(v@),
        Err(e) => Err(e@),
    }
}

/// The array that holds what a slice of its length holds.
fn array_of<const N: usize>(s: &[u8]) -> (a: [u8; N])
    requires
        s@.len() == N,
    ensures
        a@ == s@,
{
    let mut a: [u8; N] = [0u8; N];
    let mut i: usize = 0;
    while i < N
        invariant
            i <= N,
            s@.len() == N,
            forall|j: int| 0 <= j < i ==> a@[j] == s@[j],
        decreases N - i,
    {
        a[i] = s[i];
        i = i + 1;
    }
    assert(a@ =~= s@);
    a
}

/// Derives the key of a passphrase and a salt.
pub fn derive_key(passphrase: &str, salt: &[u8; SALT_LEN]) -> (res: Result<[u8; 32], CryptoError>)
    ensures
        match res {
            Ok(key) => key_of(passphrase@, salt@) == Ok::<Seq<u8>, CryptoErrorView>(key@),
            Err(e) => key_of(passphrase@, salt@) == Err::<Seq<u8>, CryptoErrorView>(e@),
        },
{
    match argon2_hash(passphrase.as_bytes(), salt) {
        Ok(key) => Ok(key),
        Err(text) => Err(CryptoError::Kdf(text)),
    }
}

/// Encrypts under a derived key and frames the envelope.
fn seal(
    key: &[u8; 32],
    nonce: &[u8; NONCE_LEN],
    salt: &[u8; SALT_LEN],
    plaintext: &[u8],
) -> (res: Result<Vec<u8>, CryptoError>)
    ensures
        match res {
            Ok(env) => {
                &&& plaintext@.len() <= GCM_MAX_PLAINTEXT
                &&& env@ == envelope(salt@, nonce@, aes256gcm_seal(key@, nonce@, plaintext@))
                &&& aes256gcm_open(key@, nonce@, env@.subrange(34, env@.len() as int)) == Some(
                    plaintext@,
                )
                &&& env@.len() == HEADER_LEN + plaintext@.len() + GCM_TAG
            },
            Err(e) => plaintext@.len() > GCM_MAX_PLAINTEXT && e@ == CryptoErrorView::Encrypt,
        },
{
    let sealed = match aes_encrypt(key, nonce, plaintext) {
        Ok(sealed) => sealed,
        Err(_) => return Err(CryptoError::Encrypt),
    };
    let mut out: Vec<u8> = Vec::new();
    out.extend_from_slice(&MAGIC);
    out.extend_from_slice(salt);
    out.extend_from_slice(nonce);
    out.extend_from_slice(&sealed);
    assert(out@ =~= envelope(salt@, nonce@, sealed@));
    assert(out@.subrange(34, out@.len() as int) =~= sealed@);
    Ok(out)
}

/// What decryption makes of an envelope whose ciphertext opens.
proof fn lemma_envelope_opens(
    passphrase: Seq<char>,
    salt: Seq<u8>,
    nonce: Seq<u8>,
    sealed: Seq<u8>,
    plaintext: Seq<u8>,
)
    requires
        salt.len() == SALT_LEN,
        nonce.len() == NONCE_LEN,
        key_of(passphrase, salt) matches Ok(key) && aes256gcm_open(key, nonce, sealed) == Some(
            plaintext,
        ),
    ensures
        decryption(passphrase, envelope(salt, nonce, sealed)) == Ok::<Seq<u8>, CryptoErrorView>(
            plaintext,
        ),
        has_magic(envelope(salt, nonce, sealed)),
{
    let data = envelope(salt, nonce, sealed);
    assert(data.take(6) =~= MAGIC@);
    assert(data.subrange(6, 22) =~= salt);
    assert(data.subrange(22, 34) =~= nonce);
    assert(data.subrange(34, data.len() as int) =~= sealed);
}

/// Whether a salt and a nonce in hexadecimal are of bytes that were drawn.
pub open spec fn is_fresh_hex(salt_hex: Seq<char>, nonce_hex: Seq<char>) -> bool {
    &&& exists|salt: [u8; 16]| #[trigger] drawn(salt) && salt_hex == to_hex(salt@)
    &&& exists|nonce: [u8; 12]| #[trigger] drawn(nonce) && nonce_hex == to_hex(nonce@)
}

/// Encrypts with a fresh salt and nonce. Returns the envelope, and the salt and
/// the nonce in hexadecimal, from which [`encrypt_with`] makes the envelope
/// again.
///
/// Whether it succeeds does not depend on the salt and the nonce, and what it
/// returns decrypts to the plaintext under the same passphrase.
pub fn encrypt(passphrase: &str, plaintext: &[u8]) -> (res: Result<
    (Vec<u8>, String, String),
    CryptoError,
>)
    ensures
        match res {
            Ok((env, salt_hex, nonce_hex)) => {
                &&& encode_utf8(passphrase@).len() <= ARGON2_MAX_PASSWORD
                &&& plaintext@.len() <= GCM_MAX_PLAINTEXT
                &&& salt_hex@ == to_hex(env@.subrange(6, 22))
                &&& nonce_hex@ == to_hex(env@.subrange(22, 34))
                &&& is_fresh_hex(salt_hex@, nonce_hex@)
                &&& fixed_hex(salt_hex@, SALT_LEN as nat) is Some
                &&& fixed_hex(nonce_hex@, NONCE_LEN as nat) is Some
                &&& reproduction(passphrase@, salt_hex@, nonce_hex@, plaintext@) == Ok::<
                    Seq<u8>,
                    CryptoErrorView,
                >(env@)
                &&& decryption(passphrase@, env@) == Ok::<Seq<u8>, CryptoErrorView>(plaintext@)
                &&& has_magic(env@)
                &&& env@.len() == HEADER_LEN + plaintext@.len() + GCM_TAG
            },
            Err(e) => if encode_utf8(passphrase@).len() > ARGON2_MAX_PASSWORD {
                e@ == CryptoErrorView::Kdf("password is too long"@)
            } else {
                plaintext@.len() > GCM_MAX_PLAINTEXT && e@ == CryptoErrorView::Encrypt
            },
        },
{
    let salt: [u8; SALT_LEN] = random_bytes();
    let nonce: [u8; NONCE_LEN] = random_bytes();
    let key = match derive_key(passphrase, &salt) {
        Ok(key) => key,
        Err(e) => return Err(e),
    };
    let env = match seal(&key, &nonce, &salt, plaintext) {
        Ok(env) => env,
        Err(e) => return Err(e),
    };
    proof {
        law_hex_roundtrip(salt@);
        law_hex_roundtrip(nonce@);
        assert(drawn(salt) && drawn(nonce));
        let sealed = aes256gcm_seal(key@, nonce@, plaintext@);
        assert(env@.subrange(34, env@.len() as int) =~= sealed);
        assert(env@.subrange(6, 22) =~= salt@);
        assert(env@.subrange(22, 34) =~= nonce@);
        lemma_envelope_opens(passphrase@, salt@, nonce@, sealed, plaintext@);
    }
    Ok((env, hex_encode(&salt), hex_encode(&nonce)))
}

/// The array that a hexadecimal text of the right length stands for.
fn array_from_hex<const N: usize>(s: &str) -> (res: Result<[u8; N], CryptoError>)
    ensures
        match res {
            Ok(a) => fixed_hex(s@, N as nat) == Some(a@),
            Err(e) => fixed_hex(s@, N as nat) is None && e@ == CryptoErrorView::Truncated,
        },
{
    match hex_decode(s) {
        Ok(bytes) => if bytes.len() == N {
            Ok(array_of(&bytes))
        } else {
            Err(CryptoError::Truncated)
        },
        Err(_) => Err(CryptoError::Truncated),
    }
}

/// Makes an envelope again from the plaintext and the salt and the nonce that
/// were kept. What it returns decrypts to the plaintext under the same
/// passphrase.
pub fn encrypt_with(
    passphrase: &str,
    salt_hex: &str,
    nonce_hex: &str,
    plaintext: &[u8],
) -> (res: Result<Vec<u8>, CryptoError>)
    ensures
        outcome(res) == reproduction(passphrase@, salt_hex@, nonce_hex@, plaintext@),
        match res {
            Ok(env) => {
                &&& decryption(passphrase@, env@) == Ok::<Seq<u8>, CryptoErrorView>(plaintext@)
                &&& has_magic(env@)
                &&& env@.len() == HEADER_LEN + plaintext@.len() + GCM_TAG
            },
            Err(_) => true,
        },
{
    let salt: [u8; SALT_LEN] = match array_from_hex(salt_hex) {
        Ok(salt) => salt,
        Err(e) => return Err(e),
    };
    let nonce: [u8; NONCE_LEN] = match array_from_hex(nonce_hex) {
        Ok(nonce) => nonce,
        Err(e) => return Err(e),
    };
    let key = match derive_key(passphrase, &salt) {
        Ok(key) => key,
        Err(e) => return Err(e),
    };
    match seal(&key, &nonce, &salt, plaintext) {
        Ok(env) => {
            proof {
                let sealed = aes256gcm_seal(key@, nonce@, plaintext@);
                assert(env@.subrange(34, env@.len() as int) =~= sealed);
                lemma_envelope_opens(passphrase@, salt@, nonce@, sealed, plaintext@);
            }
            Ok(env)
        },
        Err(e) => Err(e),
    }
}

/// Decrypts an envelope made by [`encrypt`] or [`encrypt_with`].
pub fn decrypt(passphrase: &str, envelope: &[u8]) -> (res: Result<Vec<u8>, CryptoError>)
    ensures
        outcome(res) == decryption(passphrase@, envelope@),
        res matches Ok(plaintext) ==> plaintext@.len() + HEADER_LEN + GCM_TAG == envelope@.len(),
{
    if envelope.len() < HEADER_LEN {
        return Err(CryptoError::Truncated);
    }
    if !is_envelope(envelope) {
        return Err(CryptoError::BadMagic);
    }
    let salt: [u8; SALT_LEN] = array_of(&envelope[6..22]);
    let nonce: [u8; NONCE_LEN] = array_of(&envelope[22..34]);
    let sealed: &[u8] = &envelope[34..envelope.len()];
    let key = match derive_key(passphrase, &salt) {
        Ok(key) => key,
        Err(e) => return Err(e),
    };
    match aes_decrypt(&key, &nonce, sealed) {
        Ok(plaintext) => Ok(plaintext),
        Err(_) => Err(CryptoError::Decrypt),
    }
}

/// Envelopes of one plaintext under one passphrase differ where their salts or their
/// nonces do.
pub proof fn law_other_salt_or_nonce_other_envelope(
    passphrase: Seq<char>,
    plaintext: Seq<u8>,
    first: (Seq<char>, Seq<char>, Seq<u8>),
    second: (Seq<char>, Seq<char>, Seq<u8>),
)
    requires
        reproduction(passphrase, first.0, first.1, plaintext) == Ok::<Seq<u8>, CryptoErrorView>(
            first.2,
        ),
        reproduction(passphrase, second.0, second.1, plaintext) == Ok::<Seq<u8>, CryptoErrorView>(
            second.2,
        ),
        from_hex(first.0) != from_hex(second.0) || from_hex(first.1) != from_hex(second.1),
    ensures
        first.2 != second.2,
{
    lemma_envelope_parts(passphrase, first.0, first.1, plaintext, first.2);
    lemma_envelope_parts(passphrase, second.0, second.1, plaintext, second.2);
}

/// Where the salt and the nonce stand in an envelope.
proof fn lemma_envelope_parts(
    passphrase: Seq<char>,
    salt_hex: Seq<char>,
    nonce_hex: Seq<char>,
    plaintext: Seq<u8>,
    env: Seq<u8>,
)
    requires
        reproduction(passphrase, salt_hex, nonce_hex, plaintext) == Ok::<Seq<u8>, CryptoErrorView>(
            env,
        ),
    ensures
        from_hex(salt_hex) == Some(env.subrange(6, 22)),
        from_hex(nonce_hex) == Some(env.subrange(22, 34)),
{
    let salt = from_hex(salt_hex)->0;
    let nonce = from_hex(nonce_hex)->0;
    assert(env.subrange(6, 22) =~= salt);
    assert(env.subrange(22, 34) =~= nonce);
}

/// Envelopes that decrypt to different plaintexts under one passphrase differ: with the
/// salt and the nonce that were kept, [`encrypt_with`] makes the uploaded envelope of the
/// uploaded plaintext and of no other.
pub proof fn law_other_plaintext_other_envelope(
    passphrase: Seq<char>,
    first: (Seq<u8>, Seq<u8>),
    second: (Seq<u8>, Seq<u8>),
)
    requires
        decryption(passphrase, first.1) == Ok::<Seq<u8>, CryptoErrorView>(first.0),
        decryption(passphrase, second.1) == Ok::<Seq<u8>, CryptoErrorView>(second.0),
        first.0 != second.0,
    ensures
        first.1 != second.1,
{
}

/// Whether `data` looks like an envelope: what a restore goes by.
pub fn is_envelope(data: &[u8]) -> (b: bool)
    ensures
        b == has_magic(data@),
{
    if data.len() < 6 {
        return false;
    }
    let mut i: usize = 0;
    while i < 6
        invariant
            i <= 6 <= data@.len(),
            forall|j: int| 0 <= j < i ==> data@[j] == MAGIC@[j],
        decreases 6 - i,
    {
        if data[i] != MAGIC[i] {
            assert(data@.take(6)[i as int] != MAGIC@[i as int]);
            return false;
        }
        i = i + 1;
    }
    assert(data@.take(6) =~= MAGIC@);
    true
}

/// An envelope is the six bytes `PIVSS1`, the salt, the nonce and the plaintext as AES-256-GCM
/// seals it, under the key that Argon2id derives from the passphrase and that salt.
pub proof fn law_envelope_is_sealed_plaintext(
    passphrase: Seq<char>,
    salt: Seq<u8>,
    nonce: Seq<u8>,
    plaintext: Seq<u8>,
)
    requires
        salt.len() == 16,
        nonce.len() == 12,
        encode_utf8(passphrase).len() <= 0xFFFF_FFFF,
        plaintext.len() <= 68_719_476_736,
    ensures
        reproduction(passphrase, to_hex(salt), to_hex(nonce), plaintext) == Ok::<
            Seq<u8>,
            CryptoErrorView,
        >(
            seq![80u8, 73, 86, 83, 83, 49] + salt + nonce + aes256gcm_seal(
                argon2id(encode_utf8(passphrase), salt)@,
                nonce,
                plaintext,
            ),
        ),
{
    law_hex_roundtrip(salt);
    law_hex_roundtrip(nonce);
    assert(MAGIC@ =~= seq![80u8, 73, 86, 83, 83, 49]);
}

/// Decryption reads an envelope the same way: what stands behind `PIVSS1`, a salt of sixteen
/// bytes and a nonce of twelve is opened, under the key of the passphrase and that salt.
pub proof fn law_decryption_opens_envelope(
    passphrase: Seq<char>,
    salt: Seq<u8>,
    nonce: Seq<u8>,
    sealed: Seq<u8>,
)
    requires
        salt.len() == 16,
        nonce.len() == 12,
        encode_utf8(passphrase).len() <= 0xFFFF_FFFF,
    ensures
        decryption(passphrase, seq![80u8, 73, 86, 83, 83, 49] + salt + nonce + sealed) == (
        match aes256gcm_open(argon2id(encode_utf8(passphrase), salt)@, nonce, sealed) {
            Some(plaintext) => Ok::<Seq<u8>, CryptoErrorView>(plaintext),
            None => Err::<Seq<u8>, CryptoErrorView>(CryptoErrorView::Decrypt),
        }),
        has_magic(seq![80u8, 73, 86, 83, 83, 49] + salt + nonce + sealed),
{
    let data = seq![80u8, 73, 86, 83, 83, 49] + salt + nonce + sealed;
    assert(data.take(6) =~= MAGIC@);
    assert(data.subrange(6, 22) =~= salt);
    assert(data.subrange(22, 34) =~= nonce);
    assert(data.subrange(34, data.len() as int) =~= sealed);
}

/// What is no envelope is refused: what is shorter than `PIVSS1`, a salt and a nonce as
/// truncated, and what starts otherwise as something else.
pub proof fn law_decryption_refuses_other_data(passphrase: Seq<char>, data: Seq<u8>)
    ensures
        data.len() < 34 ==> decryption(passphrase, data) == Err::<Seq<u8>, CryptoErrorView>(
            CryptoErrorView::Truncated,
        ),
        data.len() >= 34 && data.take(6) != seq![80u8, 73, 86, 83, 83, 49] ==> decryption(
            passphrase,
            data,
        ) == Err::<Seq<u8>, CryptoErrorView>(CryptoErrorView::BadMagic),
        has_magic(data) <==> data.len() >= 6 && data.take(6) == seq![80u8, 73, 86, 83, 83, 49],
{
    assert(MAGIC@ =~= seq![80u8, 73, 86, 83, 83, 49]);
}

/// A salt or a nonce that is no hexadecimal text of its length makes no envelope again.
pub proof fn law_wrong_salt_or_nonce_refused(
    passphrase: Seq<char>,
    salt_hex: Seq<char>,
    nonce_hex: Seq<char>,
    plaintext: Seq<u8>,
)
    requires
        !(from_hex(salt_hex) matches Some(salt) && salt.len() == 16) || !(from_hex(
            nonce_hex,
        ) matches Some(nonce) && nonce.len() == 12),
    ensures
        reproduction(passphrase, salt_hex, nonce_hex, plaintext) == Err::<
            Seq<u8>,
            CryptoErrorView,
        >(CryptoErrorView::Truncated),
{
}

/// The errors in words.
pub proof fn law_crypto_errors_in_words(text: Seq<char>)
    ensures
        crypto_error_text(CryptoErrorView::Kdf(text)) == "key derivation failed: "@ + text,
        crypto_error_text(CryptoErrorView::Encrypt) == "encryption failed"@,
        crypto_error_text(CryptoErrorView::Decrypt)
            == "decryption failed (wrong passphrase or corrupt data)"@,
        crypto_error_text(CryptoErrorView::BadMagic) == "not a PIVSS envelope"@,
        crypto_error_text(CryptoErrorView::Truncated) == "truncated envelope"@,
{
}

} // verus!
