//! Calls into other crates, each with the contract that the library relies on.
//!
//! Nothing in this file is proved: a contract here states what the source or the
//! documentation of the called function shows, and every proof in the other
//! modules that goes through one of these calls rests on it.
use vstd::prelude::*;
use vstd::utf8::*;
use crate::text::{begins_with, from_hex, hex_digit, to_hex, trimmed};

verus! {

// ---------------------------------------------------------------------------
// Digests
// ---------------------------------------------------------------------------

/// The SHA-256 digest of a byte string.
pub uninterp spec fn sha256(data: Seq<u8>) -> [u8; 32];

/// The SHA-1 digest of a byte string.
pub uninterp spec fn sha1(data: Seq<u8>) -> [u8; 20];

/// `sha2::Sha256::digest`: the SHA-256 digest of `data`.
#[verifier::external_body]
pub(crate) fn sha256_digest(data: &[u8]) -> (digest: [u8; 32])
    ensures
        digest == sha256(data@),
{
    <sha2::Sha256 as sha2::Digest>::digest(data).into()
}

/// `sha2::Sha256` fed in two steps (`chain_update` twice, then `finalize`): the
/// SHA-256 digest of the two inputs, one behind the other.
#[verifier::external_body]
pub(crate) fn sha256_digest_of_two(first: &[u8], second: &[u8]) -> (digest: [u8; 32])
    ensures
        digest == sha256(first@ + second@),
{
    let hasher = <sha2::Sha256 as sha2::Digest>::new();
    let hasher = sha2::Digest::chain_update(hasher, first);
    sha2::Digest::finalize(sha2::Digest::chain_update(hasher, second)).into()
}

/// `sha1::Sha1::digest`: the SHA-1 digest of `data`.
#[verifier::external_body]
pub(crate) fn sha1_digest(data: &[u8]) -> (digest: [u8; 20])
    ensures
        digest == sha1(data@),
{
    <sha1::Sha1 as sha1::Digest>::digest(data).into()
}

// ---------------------------------------------------------------------------
// Hexadecimal
// ---------------------------------------------------------------------------

/// What `hex::decode` tells of a text that it refuses.
pub uninterp spec fn hex_refusal(s: Seq<char>) -> Seq<char>;

/// `hex::encode`: two lower-case hexadecimal digits for each byte.
#[verifier::external_body]
pub(crate) fn hex_encode(data: &[u8]) -> (s: String)
    ensures
        s@ == to_hex(data@),
{
    hex::encode(data)
}

/// `hex::decode`: the bytes that an even number of hexadecimal digits, of
/// either case, stand for; an error for every other text. The error is returned as its
/// text, which says of an odd number of bytes that it is one.
#[verifier::external_body]
pub(crate) fn hex_decode(s: &str) -> (res: Result<Vec<u8>, String>)
    ensures
        match res {
            Ok(bytes) => from_hex(s@) == Some(bytes@),
            Err(e) => {
                &&& from_hex(s@) is None
                &&& e@ == hex_refusal(s@)
                &&& encode_utf8(s@).len() % 2 == 1 ==> e@ == "Odd number of digits"@
            },
        },
{
    match hex::decode(s) {
        Ok(bytes) => Ok(bytes),
        Err(e) => Err(e.to_string()),
    }
}

// ---------------------------------------------------------------------------
// Random numbers
// ---------------------------------------------------------------------------

/// `RngCore::fill_bytes` of `rand::thread_rng()`: `N` bytes, of which nothing
/// is known.
#[verifier::external_body]
pub(crate) fn random_bytes<const N: usize>() -> (bytes: [u8; N]) {
    let mut bytes = [0u8; N];
    rand::RngCore::fill_bytes(&mut rand::thread_rng(), &mut bytes);
    bytes
}

/// `RngCore::next_u64` of `rand::thread_rng()`: a number of which nothing is
/// known.
#[verifier::external_body]
pub(crate) fn random_u64() -> (n: u64) {
    rand::RngCore::next_u64(&mut rand::thread_rng())
}

/// Whether bytes are what a call of [`random_bytes`] has given.
pub open(crate) spec fn drawn<const N: usize>(bytes: [u8; N]) -> bool {
    call_ensures(random_bytes::<N>, (), bytes)
}

/// Whether a number is what a call of [`random_u64`] has given.
pub open(crate) spec fn drawn_number(n: u64) -> bool {
    call_ensures(random_u64, (), n)
}

// ---------------------------------------------------------------------------
// Encryption
// ---------------------------------------------------------------------------

/// The 32-byte key that Argon2id, with the default parameters of the `argon2`
/// crate, derives from a password and a salt.
pub uninterp spec fn argon2id(password: Seq<u8>, salt: Seq<u8>) -> [u8; 32];

/// The longest password that Argon2 takes, in bytes.
pub const ARGON2_MAX_PASSWORD: u64 = 0xFFFF_FFFF;

/// `Argon2::default().hash_password_into`, with an output of 32 bytes: the
/// derived key. With a salt of 16 bytes the only error is that of a password
/// over the longest one; the error is returned as its text.
#[verifier::external_body]
pub(crate) fn argon2_hash(password: &[u8], salt: &[u8; 16]) -> (res: Result<[u8; 32], String>)
    ensures
        match res {
            Ok(key) => password@.len() <= ARGON2_MAX_PASSWORD && key == argon2id(
                password@,
                salt@,
            ),
            Err(text) => password@.len() > ARGON2_MAX_PASSWORD && text@ == "password is too long"@,
        },
{
    let mut key = [0u8; 32];
    match argon2::Argon2::default().hash_password_into(password, salt, &mut key) {
        Ok(()) => Ok(key),
        Err(e) => Err(e.to_string()),
    }
}

/// The error of an `aes_gcm` cipher.
#[verifier::external_type_specification]
#[verifier::external_body]
pub struct ExAeadError(aes_gcm::Error);

/// AES-256-GCM encryption under a key and a 12-byte nonce, without associated
/// data: the ciphertext with the tag behind it.
pub uninterp spec fn aes256gcm_seal(key: Seq<u8>, nonce: Seq<u8>, plaintext: Seq<u8>) -> Seq<u8>;

/// AES-256-GCM decryption: the plaintext, where the tag is right.
pub uninterp spec fn aes256gcm_open(key: Seq<u8>, nonce: Seq<u8>, sealed: Seq<u8>) -> Option<
    Seq<u8>,
>;

/// The length over which `aes_gcm` refuses a plaintext.
pub const GCM_MAX_PLAINTEXT: u64 = 68_719_476_736;

/// The length of an AES-GCM tag.
pub const GCM_TAG: u64 = 16;

/// `Aes256Gcm::encrypt`. It refuses a plaintext over its maximum and nothing
/// else; what it returns is 16 bytes longer than the plaintext, and decrypts to
/// it.
#[verifier::external_body]
pub(crate) fn aes_encrypt(key: &[u8; 32], nonce: &[u8; 12], plaintext: &[u8]) -> (res: Result<
    Vec<u8>,
    aes_gcm::Error,
>)
    ensures
        res is Ok <==> plaintext@.len() <= GCM_MAX_PLAINTEXT,
        match res {
            Ok(sealed) => {
                &&& sealed@ == aes256gcm_seal(key@, nonce@, plaintext@)
                &&& sealed@.len() == plaintext@.len() + GCM_TAG
                &&& aes256gcm_open(key@, nonce@, sealed@) == Some(plaintext@)
            },
            Err(_) => true,
        },
{
    let cipher = <aes_gcm::Aes256Gcm as aes_gcm::KeyInit>::new(key.into());
    aes_gcm::aead::Aead::encrypt(&cipher, nonce.into(), plaintext)
}

/// `Aes256Gcm::decrypt`: the plaintext, 16 bytes shorter than the input, or an
/// error.
#[verifier::external_body]
pub(crate) fn aes_decrypt(key: &[u8; 32], nonce: &[u8; 12], sealed: &[u8]) -> (res: Result<
    Vec<u8>,
    aes_gcm::Error,
>)
    ensures
        match res {
            Ok(plaintext) => {
                &&& aes256gcm_open(key@, nonce@, sealed@) == Some(plaintext@)
                &&& sealed@.len() == plaintext@.len() + GCM_TAG
            },
            Err(_) => aes256gcm_open(key@, nonce@, sealed@) is None,
        },
{
    let cipher = <aes_gcm::Aes256Gcm as aes_gcm::KeyInit>::new(key.into());
    aes_gcm::aead::Aead::decrypt(&cipher, nonce.into(), sealed)
}

// ---------------------------------------------------------------------------
// Keys and signatures
// ---------------------------------------------------------------------------

/// The number that bytes stand for, the most significant first.
pub open spec fn big_endian(bytes: Seq<u8>) -> nat
    decreases bytes.len(),
{
    if bytes.len() == 0 {
        0
    } else {
        big_endian(bytes.drop_last()) * 256 + bytes.last() as nat
    }
}

/// The order of the secp256k1 group.
pub open spec fn curve_order() -> nat {
    0xfffffffffffffffffffffffffffffffebaaedce6af48a03bbfd25e8cd0364141nat
}

/// Whether bytes are a secp256k1 secret key: 32 bytes that stand for a number
/// other than zero and below the order of the group.
pub open spec fn is_secret_key(bytes: Seq<u8>) -> bool {
    bytes.len() == 32 && 0 < big_endian(bytes) < curve_order()
}

/// The x-only public key of a secret key.
pub uninterp spec fn schnorr_public(secret: Seq<u8>) -> [u8; 32];

/// Whether a BIP-340 signature of a digest is right for an x-only public key.
pub uninterp spec fn schnorr_valid(sig: Seq<u8>, digest: Seq<u8>, pubkey: Seq<u8>) -> bool;

/// The compressed public key of a secret key.
pub uninterp spec fn ecdsa_public(secret: Seq<u8>) -> [u8; 33];

/// The compact ECDSA signature of a digest, with the nonce of RFC 6979.
pub uninterp spec fn ecdsa_signature(secret: Seq<u8>, digest: Seq<u8>) -> [u8; 64];

/// The error of the `secp256k1` crate.
#[verifier::external_type_specification]
#[verifier::external_body]
pub struct ExSecpError(secp256k1::Error);

/// `Keypair::new` with `rand::thread_rng()`: the secret half of a random key
/// pair, of which it is known only that it is a secret key.
#[verifier::external_body]
pub(crate) fn random_secret_key() -> (secret: [u8; 32])
    ensures
        is_secret_key(secret@),
{
    secp256k1::Keypair::new(&secp256k1::Secp256k1::new(), &mut rand::thread_rng()).secret_bytes()
}

/// Whether a secret key is what a call of [`random_secret_key`] has given.
pub open(crate) spec fn drawn_secret_key(secret: [u8; 32]) -> bool {
    call_ensures(random_secret_key, (), secret)
}

/// `Keypair::from_seckey_slice`: the secret half of the key pair, which is the
/// input; an error for bytes that are no secret key.
#[verifier::external_body]
pub(crate) fn secret_key_from_slice(bytes: &[u8]) -> (res: Result<[u8; 32], secp256k1::Error>)
    ensures
        match res {
            Ok(secret) => is_secret_key(bytes@) && secret@ == bytes@,
            Err(_) => !is_secret_key(bytes@),
        },
{
    match secp256k1::Keypair::from_seckey_slice(&secp256k1::Secp256k1::new(), bytes) {
        Ok(keypair) => Ok(keypair.secret_bytes()),
        Err(e) => Err(e),
    }
}

/// `XOnlyPublicKey::from_keypair`, serialized.
#[verifier::external_body]
pub(crate) fn xonly_public_key(secret: &[u8; 32]) -> (pubkey: [u8; 32])
    requires
        is_secret_key(secret@),
    ensures
        pubkey == schnorr_public(secret@),
{
    let secp = secp256k1::Secp256k1::new();
    let keypair = secp256k1::Keypair::from_seckey_slice(&secp, secret).unwrap();
    secp256k1::XOnlyPublicKey::from_keypair(&keypair).0.serialize()
}

/// `Secp256k1::sign_schnorr`: a signature of the digest. It draws random
/// numbers, so nothing is known of it but that it is right for the public key of
/// the secret key.
#[verifier::external_body]
pub(crate) fn schnorr_sign(secret: &[u8; 32], digest: &[u8; 32]) -> (sig: [u8; 64])
    requires
        is_secret_key(secret@),
    ensures
        schnorr_valid(sig@, digest@, schnorr_public(secret@)@),
{
    let secp = secp256k1::Secp256k1::new();
    let keypair = secp256k1::Keypair::from_seckey_slice(&secp, secret).unwrap();
    secp.sign_schnorr(&secp256k1::Message::from_digest(*digest), &keypair).serialize()
}

/// `Secp256k1::verify_schnorr` on a signature and a public key read from
/// bytes: whether both could be read and the signature is right. A signature is
/// 64 bytes long and an x-only public key 32.
#[verifier::external_body]
pub(crate) fn schnorr_verify(sig: &[u8], digest: &[u8; 32], pubkey: &[u8]) -> (ok: bool)
    ensures
        ok == schnorr_valid(sig@, digest@, pubkey@),
        ok ==> sig@.len() == 64 && pubkey@.len() == 32,
{
    match (
        secp256k1::schnorr::Signature::from_slice(sig),
        secp256k1::XOnlyPublicKey::from_slice(pubkey),
    ) {
        (Ok(s), Ok(p)) => secp256k1::Secp256k1::new()
            .verify_schnorr(&s, &secp256k1::Message::from_digest(*digest), &p)
            .is_ok(),
        _ => false,
    }
}

/// `PublicKey::from_secret_key`, serialized in compressed form.
#[verifier::external_body]
pub(crate) fn compressed_public_key(secret: &[u8; 32]) -> (pubkey: [u8; 33])
    requires
        is_secret_key(secret@),
    ensures
        pubkey == ecdsa_public(secret@),
{
    let key = secp256k1::SecretKey::from_slice(secret).unwrap();
    secp256k1::PublicKey::from_secret_key(&secp256k1::Secp256k1::new(), &key).serialize()
}

/// `Secp256k1::sign_ecdsa`, whose nonce is that of RFC 6979, serialized in
/// compact form.
#[verifier::external_body]
pub(crate) fn ecdsa_sign(secret: &[u8; 32], digest: &[u8; 32]) -> (sig: [u8; 64])
    requires
        is_secret_key(secret@),
    ensures
        sig == ecdsa_signature(secret@, digest@),
{
    let key = secp256k1::SecretKey::from_slice(secret).unwrap();
    secp256k1::Secp256k1::signing_only()
        .sign_ecdsa(&secp256k1::Message::from_digest(*digest), &key)
        .serialize_compact()
}

/// The number of spaces in a text.
pub open spec fn spaces(s: Seq<char>) -> nat
    decreases s.len(),
{
    if s.len() == 0 {
        0
    } else {
        spaces(s.drop_last()) + (if s.last() == ' ' {
            1nat
        } else {
            0nat
        })
    }
}

/// The English words of the BIP39 mnemonic of some entropy, with a space between every two.
pub uninterp spec fn bip39_words(entropy: Seq<u8>) -> Seq<char>;

/// `bip39::Mnemonic::from_entropy_in` for English words and sixteen bytes, as text: the
/// twelve words of the entropy and its checksum, with a space between every two and none
/// around them. The only error is that of a wrong number of bytes, so there is none.
#[verifier::external_body]
pub(crate) fn mnemonic_of(entropy: &[u8; 16]) -> (words: String)
    ensures
        words@ == bip39_words(entropy@),
        spaces(words@) == 11,
        trimmed(words@) == words@,
{
    bip39::Mnemonic::from_entropy_in(bip39::Language::English, entropy).unwrap().to_string()
}

/// The error of `bech32::encode`.
#[verifier::external_type_specification]
#[verifier::external_body]
pub struct ExBech32EncodeError(bech32::EncodeError);

/// The bech32 text of bytes under the human-readable part `npub`.
pub uninterp spec fn bech32_npub(data: Seq<u8>) -> Seq<char>;

/// The length of the bech32 text of `n` bytes under a human-readable part of
/// four characters: that part, a separator, a character for every five bits and
/// six characters of checksum.
pub open spec fn bech32_npub_len(n: nat) -> nat {
    4 + 1 + (8 * n + 4) / 5 + 6
}

/// `bech32::encode::<Bech32>` under the human-readable part `npub`. It refuses
/// what would be longer than the 1023 characters of the code.
#[verifier::external_body]
pub(crate) fn npub_encode(data: &[u8]) -> (res: Result<String, bech32::EncodeError>)
    ensures
        res is Ok <==> bech32_npub_len(data@.len()) <= 1023,
        match res {
            Ok(s) => {
                &&& s@ == bech32_npub(data@)
                &&& s@.len() == bech32_npub_len(data@.len())
                &&& begins_with(s@, "npub1"@)
            },
            Err(_) => true,
        },
{
    bech32::encode::<bech32::Bech32>(bech32::Hrp::parse("npub").unwrap(), data)
}

// ---------------------------------------------------------------------------
// JSON
// ---------------------------------------------------------------------------

/// One character inside a JSON string.
pub open spec fn json_char(c: char) -> Seq<char> {
    if c == '"' {
        seq!['\\', '"']
    } else if c == '\\' {
        seq!['\\', '\\']
    } else if c == '\u{08}' {
        seq!['\\', 'b']
    } else if c == '\u{09}' {
        seq!['\\', 't']
    } else if c == '\u{0A}' {
        seq!['\\', 'n']
    } else if c == '\u{0C}' {
        seq!['\\', 'f']
    } else if c == '\u{0D}' {
        seq!['\\', 'r']
    } else if (c as int) < 32 {
        seq!['\\', 'u', '0', '0', hex_digit(c as int / 16), hex_digit(c as int % 16)]
    } else {
        seq![c]
    }
}

/// The characters between the quotation marks of a JSON string.
pub open spec fn json_chars(s: Seq<char>) -> Seq<char>
    decreases s.len(),
{
    if s.len() == 0 {
        seq![]
    } else {
        json_char(s[0]) + json_chars(s.drop_first())
    }
}

/// A JSON string.
pub open spec fn json_string(s: Seq<char>) -> Seq<char> {
    seq!['"'] + json_chars(s) + seq!['"']
}

/// `serde_json::to_string` of a string: the text in quotation marks, with the
/// quotation mark, the backslash and the control characters escaped.
#[verifier::external_body]
pub(crate) fn json_quote(s: &str) -> (quoted: String)
    ensures
        quoted@ == json_string(s@),
{
    serde_json::to_string(s).unwrap()
}

/// What a JSON text holds at three places of a list: a string, a truth value and a
/// string, each where it is there. What is told of the text where it is no JSON.
pub uninterp spec fn json_read(text: Seq<char>, first: nat, second: nat, third: nat) -> Result<
    (Option<Seq<char>>, Option<bool>, Option<Seq<char>>),
    Seq<char>,
>;

/// What a JSON text holds at three places of a list. Nothing where the text is no JSON.
pub open spec fn json_parts(text: Seq<char>, first: nat, second: nat, third: nat) -> Option<
    (Option<Seq<char>>, Option<bool>, Option<Seq<char>>),
> {
    match json_read(text, first, second, third) {
        Ok(parts) => Some(parts),
        Err(_) => None,
    }
}

/// `serde_json::from_str` to a `serde_json::Value`, `Value::get` of three places of
/// it, and `as_str` or `as_bool` of what is there; the text of the error where the
/// text is no JSON.
#[verifier::external_body]
pub(crate) fn read_json_parts(text: &str, first: usize, second: usize, third: usize) -> (res:
    Result<(Option<String>, Option<bool>, Option<String>), String>)
    ensures
        match res {
            Ok((a, b, c)) => json_read(text@, first as nat, second as nat, third as nat) == Ok::<
                (Option<Seq<char>>, Option<bool>, Option<Seq<char>>),
                Seq<char>,
            >(
                (
                    (match a {
                        Some(s) => Some(s@),
                        None => None,
                    }),
                    b,
                    (match c {
                        Some(s) => Some(s@),
                        None => None,
                    }),
                ),
            ),
            Err(e) => json_read(text@, first as nat, second as nat, third as nat) == Err::<
                (Option<Seq<char>>, Option<bool>, Option<Seq<char>>),
                Seq<char>,
            >(e@),
        },
{
    match serde_json::from_str::<serde_json::Value>(text) {
        Ok(v) => Ok(
            (
                v.get(first).and_then(|s| s.as_str()).map(str::to_owned),
                v.get(second).and_then(|b| b.as_bool()),
                v.get(third).and_then(|s| s.as_str()).map(str::to_owned),
            ),
        ),
        Err(e) => Err(e.to_string()),
    }
}

/// The string that a JSON text holds in a member of a member of an object, where it is
/// there. What is told of the text where it is no JSON.
pub uninterp spec fn json_member(text: Seq<char>, outer: Seq<char>, inner: Seq<char>) -> Result<
    Option<Seq<char>>,
    Seq<char>,
>;

/// `serde_json::from_str` to a `serde_json::Value`, indexed by the names of a member and
/// of a member of it, and `as_str` of what is there; the text of the error where the text
/// is no JSON.
#[verifier::external_body]
pub(crate) fn read_json_member(text: &str, outer: &str, inner: &str) -> (res: Result<
    Option<String>,
    String,
>)
    ensures
        match res {
            Ok(s) => json_member(text@, outer@, inner@) == Ok::<Option<Seq<char>>, Seq<char>>(
                match s {
                    Some(s) => Some(s@),
                    None => None,
                },
            ),
            Err(e) => json_member(text@, outer@, inner@) == Err::<Option<Seq<char>>, Seq<char>>(
                e@,
            ),
        },
{
    match serde_json::from_str::<serde_json::Value>(text) {
        Ok(v) => Ok(v[outer][inner].as_str().map(str::to_owned)),
        Err(e) => Err(e.to_string()),
    }
}

// ---------------------------------------------------------------------------
// Protobuf
// ---------------------------------------------------------------------------

/// A number in the variable-length form of protobuf: seven bits in a byte, the
/// lowest first, and the top bit of every byte but the last set.
pub open spec fn varint(n: nat) -> Seq<u8>
    decreases n,
{
    if n < 128 {
        seq![n as u8]
    } else {
        seq![(n % 128 + 128) as u8] + varint(n / 128)
    }
}

/// The number that variable-length bytes start with, behind `count` bytes of it,
/// and the bytes that it has from there on. It has at most ten, and the tenth is
/// at most one.
pub open spec fn varint_from(bytes: Seq<u8>, count: nat) -> Option<(nat, nat)>
    decreases bytes.len(),
{
    if bytes.len() == 0 || count >= 10 || (count == 9 && bytes[0] >= 2) {
        None
    } else if bytes[0] < 128 {
        Some((bytes[0] as nat, 1))
    } else {
        match varint_from(bytes.drop_first(), count + 1) {
            Some((high, len)) => Some(((bytes[0] - 128 + 128 * high) as nat, len + 1)),
            None => None,
        }
    }
}

/// The error of `prost` decoding.
#[verifier::external_type_specification]
#[verifier::external_body]
pub struct ExProstDecodeError(prost::DecodeError);

/// `prost::encoding::encode_varint`: appends a number in variable-length form.
#[verifier::external_body]
pub(crate) fn encode_varint(n: u64, out: &mut Vec<u8>)
    ensures
        final(out)@ == old(out)@ + varint(n as nat),
{
    prost::encoding::encode_varint(n, out)
}

/// `prost::encoding::decode_varint`: the number that the bytes start with, and
/// the bytes behind it.
#[verifier::external_body]
pub(crate) fn decode_varint(bytes: &[u8]) -> (res: Result<(u64, &[u8]), prost::DecodeError>)
    ensures
        match res {
            Ok((n, rest)) => varint_from(bytes@, 0) matches Some((m, len)) && m == n && len
                <= bytes@.len() && rest@ == bytes@.skip(len as int),
            Err(_) => varint_from(bytes@, 0) is None,
        },
{
    let mut rest = bytes;
    match prost::encoding::decode_varint(&mut rest) {
        Ok(n) => Ok((n, rest)),
        Err(e) => Err(e),
    }
}

/// What is left of the bytes behind a field key when the field, of a wire type
/// and a tag, has been skipped; what is told of it where it cannot be.
pub uninterp spec fn skipped_field(wire_type: u8, tag: u32, bytes: Seq<u8>) -> Result<
    Seq<u8>,
    Seq<char>,
>;

/// `prost::encoding::skip_field`: what is left behind a field of a message at the
/// top level. It is the end of the bytes. An error is returned as its text, which begins as
/// that of every `prost::DecodeError`.
#[verifier::external_body]
pub(crate) fn skip_field(wire_type: u8, tag: u32, bytes: &[u8]) -> (res: Result<&[u8], String>)
    ensures
        match res {
            Ok(rest) => {
                &&& skipped_field(wire_type, tag, bytes@) == Ok::<Seq<u8>, Seq<char>>(rest@)
                &&& rest@.len() <= bytes@.len()
                &&& rest@ == bytes@.skip(bytes@.len() - rest@.len())
            },
            Err(e) => {
                &&& skipped_field(wire_type, tag, bytes@) == Err::<Seq<u8>, Seq<char>>(e@)
                &&& begins_with(e@, "failed to decode Protobuf message: "@)
            },
        },
{
    let mut rest = bytes;
    match prost::encoding::WireType::try_from(u64::from(wire_type)) {
        Ok(w) => match prost::encoding::skip_field(w, tag, &mut rest, Default::default()) {
            Ok(()) => Ok(rest),
            Err(e) => Err(e.to_string()),
        },
        Err(e) => Err(e.to_string()),
    }
}

// ---------------------------------------------------------------------------
// Text from bytes
// ---------------------------------------------------------------------------

/// `std::str::from_utf8`: the text that valid UTF-8 encodes.
#[verifier::external_body]
pub(crate) fn text_from_utf8(bytes: &[u8]) -> (res: Option<String>)
    ensures
        match res {
            Some(s) => valid_utf8(bytes@) && s@ == decode_utf8(bytes@),
            None => !valid_utf8(bytes@),
        },
{
    match std::str::from_utf8(bytes) {
        Ok(s) => Some(s.to_owned()),
        Err(_) => None,
    }
}

// ---------------------------------------------------------------------------
// The clock
// ---------------------------------------------------------------------------

/// `std::time::SystemTime::now`, as seconds since the Unix epoch: a number of
/// which nothing is known.
#[verifier::external_body]
pub fn now_secs() -> (secs: u64) {
    std::time::SystemTime::now()
        .duration_since(std::time::UNIX_EPOCH)
        .unwrap_or_default()
        .as_secs()
}

/// Whether a time is what a call of [`now_secs`] has given: a reading of the clock.
pub open spec fn clock_reading(secs: u64) -> bool {
    call_ensures(now_secs, (), secs)
}

} // verus!
