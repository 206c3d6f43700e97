//! The client: the addresses of the API, the ledger of what was uploaded, and the
//! decisions of a client, such as that it pays only where storage was proved.
use vstd::prelude::*;
use vstd::string::*;
use vstd::utf8::*;
use crate::crypto::{
    crypto_error_text, decrypt, decryption, encrypt, encrypt_with, has_magic, is_envelope,
    is_fresh_hex, law_decryption_refuses_other_data, reproduction, CryptoError, CryptoErrorView,
};
use crate::manifest::{
    optional_text, BackupKind, BackupManifest, BackupVersion, ManifestView,
};
use crate::outside::{
    hex_encode, json_member, read_json_member, sha256, sha256_digest, ARGON2_MAX_PASSWORD,
    GCM_MAX_PLAINTEXT,
};
use crate::state::manifest_views;
use crate::storage_proof::{
    accepts, is_drawn_nonce, is_drawn_range, law_tampered_data_rejected, make_challenge,
    nonce_bytes, proof_of, range_in, verify_proof, StorageChallenge, StorageProof,
};
use crate::text::{
    decimal, decimal_text, from_hex, law_hex_roundtrip, same_text, to_hex, trim_trailing,
    without_trailing,
};

verus! {

/// SHA-256 in hexadecimal.
pub fn sha256_hex(data: &[u8]) -> (s: String)
    ensures
        s@ == to_hex(sha256(data@)@),
{
    hex_encode(&sha256_digest(data))
}

// ---------------------------------------------------------------------------
// The API
// ---------------------------------------------------------------------------

/// What a server answers to an upload.
#[derive(Debug, Clone)]
pub struct UploadResponse {
    /// The manifest of the backup.
    pub manifest: BackupManifest,
    /// The version that was stored.
    pub stored_version: BackupVersion,
    /// The price for a billing period, in thousandths of a sat.
    pub quote_msat: u64,
    /// The offer of the server.
    pub bolt12_offer: String,
}

/// What a server answers to a challenge.
#[derive(Debug, Clone)]
pub struct ChallengeResponse {
    /// The proof.
    pub proof: StorageProof,
    /// The version that it is of.
    pub version: u64,
}

/// What came of asking a server for a proof.
#[derive(Debug, Clone)]
pub struct VerifyOutcome {
    /// Whether the proof is right.
    pub ok: bool,
    /// The version that it is of.
    pub version: u64,
    /// The challenge.
    pub challenge: StorageChallenge,
    /// The proof.
    pub proof: StorageProof,
}

/// How many ranges a client asks for.
pub const CHALLENGE_RANGES: usize = 3;

/// A client of a server.
pub struct ApiClient {
    base: String,
}

impl ApiClient {
    /// The address of the server, without a slash at its end.
    pub closed spec fn address(&self) -> Seq<char> {
        self.base@
    }

    /// A client of the server at an address.
    pub fn new(base: &str) -> (c: ApiClient)
        ensures
            c.address() == without_trailing(base@, '/'),
    {
        ApiClient { base: trim_trailing(base, '/') }
    }

    fn url(&self, path: &str) -> (s: String)
        ensures
            s@ == self.address() + path@,
    {
        let mut s = self.base.clone();
        s.append(path);
        s
    }

    /// Where the server tells of itself.
    pub fn info_url(&self) -> (s: String)
        ensures
            s@ == self.address() + "/api/v1/info"@,
    {
        self.url("/api/v1/info")
    }

    /// Where backups are uploaded and listed.
    pub fn backups_url(&self) -> (s: String)
        ensures
            s@ == self.address() + "/api/v1/backups"@,
    {
        self.url("/api/v1/backups")
    }

    fn backup_url(&self, backup_id: &str) -> (s: String)
        ensures
            s@ == self.address() + "/api/v1/backups/"@ + backup_id@,
    {
        let mut s = self.url("/api/v1/backups/");
        s.append(backup_id);
        s
    }

    /// Where a version of a backup is downloaded.
    pub fn data_url(&self, backup_id: &str, version: u64) -> (s: String)
        ensures
            s@ == self.address() + "/api/v1/backups/"@ + backup_id@ + "/versions"@ + "/"@ + decimal(
                version as nat,
            ) + "/data"@,
    {
        let mut s = self.backup_url(backup_id);
        s.append("/versions");
        s.append("/");
        s.append(decimal_text(version).as_str());
        s.append("/data");
        s
    }

    /// Where a backup is challenged.
    pub fn challenge_url(&self, backup_id: &str) -> (s: String)
        ensures
            s@ == self.address() + "/api/v1/backups/"@ + backup_id@ + "/challenge"@,
    {
        let mut s = self.backup_url(backup_id);
        s.append("/challenge");
        s
    }

    /// Where a payment for a backup is claimed.
    pub fn payments_url(&self, backup_id: &str) -> (s: String)
        ensures
            s@ == self.address() + "/api/v1/backups/"@ + backup_id@ + "/payments"@,
    {
        let mut s = self.backup_url(backup_id);
        s.append("/payments");
        s
    }

    /// Whether the server has done what it was asked, or what is to be said of its
    /// answer: the status as it is shown, and the body.
    pub fn check(status: u16, status_text: &str, body: &str) -> (res: Result<(), String>)
        ensures
            match res {
                Ok(_) => 200 <= status <= 299,
                Err(e) => !(200 <= status <= 299) && e@ == "server returned "@ + status_text@
                    + ": "@ + body@,
            },
    {
        if 200 <= status && status <= 299 {
            Ok(())
        } else {
            let mut s = "server returned ".to_owned();
            s.append(status_text);
            s.append(": ");
            s.append(body);
            Err(s)
        }
    }

    /// Asks the server for a proof that it holds what `local_data` holds: with a
    /// fresh challenge, and a check of the answer against `local_data`. `ask`
    /// carries the challenge and brings the answer.
    pub fn verify<F: Fn(&StorageChallenge) -> Result<ChallengeResponse, String>>(
        &self,
        local_data: &[u8],
        ask: &F,
    ) -> (res: Result<VerifyOutcome, String>)
        requires
            forall|c: &StorageChallenge|
                is_fresh_challenge(*c, local_data@.len()) ==> #[trigger] ask.requires((c,)),
        ensures
            proves(*ask, local_data@, res),
    {
        let challenge = make_challenge(local_data.len() as u64, CHALLENGE_RANGES);
        proof {
            let bytes = choose|bytes: Seq<u8>|
                bytes.len() == 32 && challenge.nonce@ == #[trigger] to_hex(bytes);
            law_hex_roundtrip(bytes);
        }
        assert(is_fresh_challenge(challenge, local_data@.len()));
        let r = ask(&challenge);
        let ghost answer = r;
        assert(ask.ensures((&challenge,), answer));
        match r {
            Ok(response) => {
                let ok = verify_proof(&challenge, local_data, &response.proof);
                Ok(
                    VerifyOutcome {
                        ok,
                        version: response.version,
                        challenge,
                        proof: response.proof,
                    },
                )
            },
            Err(e) => Err(e),
        }
    }
}

/// Whether asking a server for a proof of bytes may come to a result: a fresh challenge
/// is carried, and the answer is checked against the bytes.
pub open spec fn proves<F: Fn(&StorageChallenge) -> Result<ChallengeResponse, String>>(
    ask: F,
    local_data: Seq<u8>,
    res: Result<VerifyOutcome, String>,
) -> bool {
    match res {
        Ok(o) => {
            &&& o.ok == accepts(o.challenge@, local_data, o.proof@)
            &&& is_fresh_challenge(o.challenge, local_data.len())
            &&& exists|r: Result<ChallengeResponse, String>| #[trigger]
                ask.ensures((&o.challenge,), r) && (r matches Ok(a) && a.version == o.version
                    && a.proof@ == o.proof@)
        },
        Err(e) => exists|c: StorageChallenge, r: Result<ChallengeResponse, String>|
            is_fresh_challenge(c, local_data.len()) && #[trigger] ask.ensures((&c,), r) && (
            r matches Err(f) && f@ == e@),
    }
}

/// Whether a challenge is one that a client makes for a file: a nonce of 32 bytes that were
/// drawn, in lower-case hexadecimal, and three ranges in the file that were drawn, or none where
/// it is empty.
pub open spec fn is_fresh_challenge(c: StorageChallenge, file_len: nat) -> bool {
    &&& from_hex(c.nonce@) matches Some(bytes) && bytes.len() == 32 && c.nonce@ == to_hex(bytes)
    &&& is_drawn_nonce(c.nonce@)
    &&& c.ranges@.len() == (if file_len > 0 {
        CHALLENGE_RANGES as nat
    } else {
        0
    })
    &&& forall|i: int|
        0 <= i < c.ranges@.len() ==> range_in(#[trigger] c.ranges@[i], file_len as u64)
            && is_drawn_range(c.ranges@[i], file_len as u64)
}

// ---------------------------------------------------------------------------
// Uploads
// ---------------------------------------------------------------------------

/// What is uploaded of a file.
pub struct Prepared {
    /// The bytes.
    pub bytes: Vec<u8>,
    /// Whether they are an envelope that the client made.
    pub encrypted: bool,
    /// The salt in hexadecimal; empty where there is none.
    pub salt_hex: String,
    /// The nonce in hexadecimal; empty where there is none.
    pub nonce_hex: String,
}

/// Whether something is what a client uploads of a file: the file itself, or where
/// there is a passphrase an envelope of it that can be made again and opened.
pub open spec fn prepares(payload: Seq<u8>, passphrase: Option<Seq<char>>, p: Prepared) -> bool {
    match passphrase {
        None => !p.encrypted && p.bytes@ == payload && p.salt_hex@ == ""@ && p.nonce_hex@ == ""@,
        Some(pw) => {
            &&& p.encrypted
            &&& reproduction(pw, p.salt_hex@, p.nonce_hex@, payload) == Ok::<
                Seq<u8>,
                CryptoErrorView,
            >(p.bytes@)
            &&& decryption(pw, p.bytes@) == Ok::<Seq<u8>, CryptoErrorView>(payload)
            &&& has_magic(p.bytes@)
        },
    }
}

/// A passphrase in mathematical terms.
pub open spec fn passphrase_view(p: Option<&str>) -> Option<Seq<char>> {
    match p {
        Some(p) => Some(p@),
        None => None,
    }
}

/// Makes what is uploaded of a file: the file itself, or where there is a
/// passphrase an envelope of it.
pub fn prepare_upload(payload: Vec<u8>, passphrase: Option<&str>) -> (res: Result<
    Prepared,
    CryptoError,
>)
    ensures
        match res {
            Ok(p) => {
                &&& prepares(payload@, passphrase_view(passphrase), p)
                &&& passphrase matches Some(pw) ==> encode_utf8(pw@).len() <= ARGON2_MAX_PASSWORD
                    && payload@.len() <= GCM_MAX_PLAINTEXT
                &&& passphrase is Some ==> is_fresh_hex(p.salt_hex@, p.nonce_hex@)
            },
            Err(e) => passphrase matches Some(pw) && if encode_utf8(pw@).len()
                > ARGON2_MAX_PASSWORD {
                e@ == CryptoErrorView::Kdf("password is too long"@)
            } else {
                payload@.len() > GCM_MAX_PLAINTEXT && e@ == CryptoErrorView::Encrypt
            },
        },
{
    match passphrase {
        None => Ok(
            Prepared {
                bytes: payload,
                encrypted: false,
                salt_hex: "".to_owned(),
                nonce_hex: "".to_owned(),
            },
        ),
        Some(pw) => match encrypt(pw, &payload) {
            Ok((bytes, salt_hex, nonce_hex)) => Ok(
                Prepared { bytes, encrypted: true, salt_hex, nonce_hex },
            ),
            Err(e) => Err(e),
        },
    }
}

/// What a client keeps of an upload.
#[derive(Debug, Clone)]
pub struct LedgerEntry {
    /// The backup.
    pub backup_id: String,
    /// The path of the file.
    pub file_path: String,
    /// Its name.
    pub filename: String,
    /// Its kind.
    pub kind: BackupKind,
    /// SHA-256 of what was uploaded, in hexadecimal.
    pub sha256: String,
    /// The version that was stored.
    pub latest_version: u64,
    /// The price for a billing period, in thousandths of a sat.
    pub quote_msat: u64,
    /// The offer of the server.
    pub bolt12_offer: String,
    /// Whether an envelope was uploaded.
    pub encrypted: bool,
    /// Its salt in hexadecimal.
    pub salt_hex: String,
    /// Its nonce in hexadecimal.
    pub nonce_hex: String,
}

/// What a client keeps of an upload that a server has answered.
pub fn ledger_entry(
    response: &UploadResponse,
    prepared: &Prepared,
    file_path: &str,
    filename: &str,
    kind: BackupKind,
) -> (e: LedgerEntry)
    ensures
        e.backup_id@ == response.manifest.backup_id@,
        e.file_path@ == file_path@,
        e.filename@ == filename@,
        e.kind == kind,
        e.sha256@ == to_hex(sha256(prepared.bytes@)@),
        e.latest_version == response.stored_version.version,
        e.quote_msat == response.quote_msat,
        e.bolt12_offer@ == response.bolt12_offer@,
        e.encrypted == prepared.encrypted,
        e.salt_hex@ == prepared.salt_hex@,
        e.nonce_hex@ == prepared.nonce_hex@,
{
    LedgerEntry {
        backup_id: response.manifest.backup_id.clone(),
        file_path: file_path.to_owned(),
        filename: filename.to_owned(),
        kind,
        sha256: sha256_hex(&prepared.bytes),
        latest_version: response.stored_version.version,
        quote_msat: response.quote_msat,
        bolt12_offer: response.bolt12_offer.clone(),
        encrypted: prepared.encrypted,
        salt_hex: prepared.salt_hex.clone(),
        nonce_hex: prepared.nonce_hex.clone(),
    }
}

/// Why a client could not make out bytes.
#[derive(Debug)]
pub enum ClientError {
    /// A passphrase is needed.
    NoPassphrase,
    /// Encryption or decryption failed.
    Crypto(CryptoError),
}

impl ClientError {
    /// The error in words, where `what` is encrypted.
    pub fn to_string(&self, what: &str) -> (s: String)
        ensures
            s@ == (match self {
                ClientError::NoPassphrase => what@
                    + " is encrypted — provide --passphrase (or PIVSS_PASSPHRASE)"@,
                ClientError::Crypto(e) => crypto_error_text(e@),
            }),
    {
        match self {
            ClientError::NoPassphrase => {
                let mut s = what.to_owned();
                s.append(" is encrypted — provide --passphrase (or PIVSS_PASSPHRASE)");
                s
            },
            ClientError::Crypto(e) => e.to_string(),
        }
    }
}

/// What bytes come to, in mathematical terms.
pub open spec fn bytes_view(res: Result<Vec<u8>, ClientError>) -> Result<
    Seq<u8>,
    Option<CryptoErrorView>,
> {
    match res {
        Ok(v) => Ok(v@),
        Err(ClientError::NoPassphrase) => Err(None),
        Err(ClientError::Crypto(e)) => Err(Some(e@)),
    }
}

/// What was uploaded of a file, made again from the file: an error of nothing
/// stands for a missing passphrase.
pub open spec fn stored_bytes(
    entry: LedgerEntry,
    passphrase: Option<Seq<char>>,
    file: Seq<u8>,
) -> Result<Seq<u8>, Option<CryptoErrorView>> {
    if !entry.encrypted {
        Ok(file)
    } else {
        match passphrase {
            None => Err(None),
            Some(pw) => match reproduction(pw, entry.salt_hex@, entry.nonce_hex@, file) {
                Ok(bytes) => Ok(bytes),
                Err(e) => Err(Some(e)),
            },
        }
    }
}

/// Makes what was uploaded of a file again, from the file and what the ledger keeps.
pub fn stored_bytes_of(entry: &LedgerEntry, passphrase: Option<&str>, file: Vec<u8>) -> (res:
    Result<Vec<u8>, ClientError>)
    ensures
        bytes_view(res) == stored_bytes(*entry, passphrase_view(passphrase), file@),
{
    if !entry.encrypted {
        return Ok(file);
    }
    match passphrase {
        None => Err(ClientError::NoPassphrase),
        Some(pw) => match encrypt_with(
            pw,
            entry.salt_hex.as_str(),
            entry.nonce_hex.as_str(),
            &file,
        ) {
            Ok(bytes) => Ok(bytes),
            Err(e) => Err(ClientError::Crypto(e)),
        },
    }
}

/// What a restore makes of downloaded bytes: an error of nothing stands for a
/// missing passphrase.
pub open spec fn opened(data: Seq<u8>, passphrase: Option<Seq<char>>) -> Result<
    Seq<u8>,
    Option<CryptoErrorView>,
> {
    if !has_magic(data) {
        Ok(data)
    } else {
        match passphrase {
            None => Err(None),
            Some(pw) => match decryption(pw, data) {
                Ok(plaintext) => Ok(plaintext),
                Err(e) => Err(Some(e)),
            },
        }
    }
}

/// Makes out downloaded bytes: an envelope is decrypted, anything else is taken as
/// it is.
pub fn open_restored(data: Vec<u8>, passphrase: Option<&str>) -> (res: Result<
    Vec<u8>,
    ClientError,
>)
    ensures
        bytes_view(res) == opened(data@, passphrase_view(passphrase)),
{
    if !is_envelope(&data) {
        return Ok(data);
    }
    match passphrase {
        None => Err(ClientError::NoPassphrase),
        Some(pw) => match decrypt(pw, &data) {
            Ok(plaintext) => Ok(plaintext),
            Err(e) => Err(ClientError::Crypto(e)),
        },
    }
}

/// What a restore downloads.
pub struct RestorePlan {
    /// The version.
    pub version: u64,
    /// What the file is called where no other name is given.
    pub output: String,
}

/// The first of the manifests that is of a backup.
pub open spec fn manifest_place(v: Seq<ManifestView>, backup_id: Seq<char>) -> int
    decreases v.len(),
{
    if v.len() == 0 || v[0].backup_id == backup_id {
        0
    } else {
        1 + manifest_place(v.drop_first(), backup_id)
    }
}

/// Decides what a restore downloads: the version that is asked for, or the latest.
pub fn plan_restore(manifests: &Vec<BackupManifest>, backup_id: &str, version: Option<u64>) -> (res:
    Result<RestorePlan, String>)
    ensures
        ({
            let all = manifest_views(manifests@);
            let at = manifest_place(all, backup_id@);
            match res {
                Ok(plan) => {
                    &&& 0 <= at < all.len()
                    &&& all[at].backup_id == backup_id@
                    &&& forall|i: int|
                        0 <= i < at ==> (#[trigger] all[i]).backup_id != backup_id@
                    &&& plan.version == (match version {
                        Some(v) => v,
                        None => all[at].latest_version,
                    })
                    &&& plan.output@ == all[at].filename + "-v"@ + decimal(plan.version as nat)
                },
                Err(e) => {
                    &&& forall|i: int|
                        0 <= i < all.len() ==> (#[trigger] all[i]).backup_id != backup_id@
                    &&& e@ == "backup "@ + backup_id@ + " not found on server"@
                },
            }
        }),
{
    let ghost all = manifest_views(manifests@);
    let mut at: usize = 0;
    assert(all.skip(0) =~= all);
    while at < manifests.len()
        invariant
            at <= manifests@.len(),
            all == manifest_views(manifests@),
            manifest_place(all, backup_id@) == at + manifest_place(
                all.skip(at as int),
                backup_id@,
            ),
            forall|i: int| 0 <= i < at ==> (#[trigger] all[i]).backup_id != backup_id@,
        decreases manifests.len() - at,
    {
        let m: &BackupManifest = &manifests[at];
        assert(all.skip(at as int)[0] == m@);
        assert(all[at as int] == m@);
        if same_text(m.backup_id.as_str(), backup_id) {
            let v: u64 = match version {
                Some(v) => v,
                None => m.latest_version,
            };
            let mut output = m.filename.clone();
            output.append("-v");
            output.append(decimal_text(v).as_str());
            return Ok(RestorePlan { version: v, output });
        }
        assert(all.skip(at as int).drop_first() =~= all.skip(at + 1));
        at = at + 1;
    }
    let mut s = "backup ".to_owned();
    s.append(backup_id);
    s.append(" not found on server");
    Err(s)
}

/// What was uploaded with a passphrase is restored with it, byte for byte; what was
/// uploaded without one is restored as it was, unless it looks like an envelope.
pub proof fn law_backup_then_restore(
    payload: Seq<u8>,
    passphrase: Option<Seq<char>>,
    p: Prepared,
)
    requires
        prepares(payload, passphrase, p),
        passphrase is None ==> !has_magic(payload),
    ensures
        opened(p.bytes@, passphrase) == Ok::<Seq<u8>, Option<CryptoErrorView>>(payload),
{
}

/// A client can answer for what it uploaded without a second copy: from the file and
/// the ledger it makes the uploaded bytes again.
pub proof fn law_ledger_reproduces_upload(
    payload: Seq<u8>,
    passphrase: Option<Seq<char>>,
    p: Prepared,
    entry: LedgerEntry,
)
    requires
        prepares(payload, passphrase, p),
        entry.encrypted == p.encrypted,
        entry.salt_hex@ == p.salt_hex@,
        entry.nonce_hex@ == p.nonce_hex@,
    ensures
        stored_bytes(entry, passphrase, payload) == Ok::<Seq<u8>, Option<CryptoErrorView>>(
            p.bytes@,
        ),
{
}

// ---------------------------------------------------------------------------
// The ledger
// ---------------------------------------------------------------------------

/// An entry of a ledger under its key.
#[derive(Debug, Clone)]
pub struct LedgerRow {
    /// The key: the id of the backup.
    pub key: String,
    /// The entry.
    pub entry: LedgerEntry,
}

/// What a client keeps of all its uploads: an entry for a backup.
#[derive(Debug)]
pub struct Ledger {
    /// The address of the server.
    pub server: String,
    /// The entries, no two of them under one key.
    pub entries: Vec<LedgerRow>,
}

impl Default for Ledger {
    fn default() -> (l: Ledger)
        ensures
            l.server@ == ""@,
            l.entries@.len() == 0,
            l.keys_distinct(),
    {
        Ledger { server: "".to_owned(), entries: Vec::new() }
    }
}

/// The place of a key in a ledger; the number of entries where it is not there.
pub open spec fn ledger_place(rows: Seq<LedgerRow>, key: Seq<char>) -> int
    decreases rows.len(),
{
    if rows.len() == 0 || rows[0].key@ == key {
        0
    } else {
        1 + ledger_place(rows.drop_first(), key)
    }
}

/// The entry that a ledger has for a key.
pub open spec fn ledger_lookup(rows: Seq<LedgerRow>, key: Seq<char>) -> Option<LedgerEntry> {
    let at = ledger_place(rows, key);
    if at < rows.len() {
        Some(rows[at].entry)
    } else {
        None
    }
}

proof fn lemma_ledger_place(rows: Seq<LedgerRow>, key: Seq<char>)
    ensures
        0 <= ledger_place(rows, key) <= rows.len(),
        ledger_place(rows, key) < rows.len() ==> rows[ledger_place(rows, key)].key@ == key,
        forall|i: int| 0 <= i < ledger_place(rows, key) ==> (#[trigger] rows[i]).key@ != key,
    decreases rows.len(),
{
    if rows.len() > 0 && rows[0].key@ != key {
        let t = rows.drop_first();
        lemma_ledger_place(t, key);
        assert forall|i: int| 0 <= i < ledger_place(rows, key) implies (#[trigger] rows[i]).key@
            != key by {
            if i > 0 {
                assert(t[i - 1] == rows[i]);
            }
        }
    }
}

/// A place of a key that has nothing of the key before it is its place.
proof fn lemma_ledger_place_is(rows: Seq<LedgerRow>, key: Seq<char>, at: int)
    requires
        0 <= at <= rows.len(),
        at < rows.len() ==> rows[at].key@ == key,
        forall|i: int| 0 <= i < at ==> (#[trigger] rows[i]).key@ != key,
    ensures
        ledger_place(rows, key) == at,
{
    lemma_ledger_place(rows, key);
    let p = ledger_place(rows, key);
    if p < at {
        assert(rows[p].key@ != key);
    } else if at < p {
        assert(rows[at].key@ != key);
    }
}

impl Ledger {
    /// Whether no two entries stand under one key.
    pub open spec fn keys_distinct(&self) -> bool {
        forall|i: int, j: int|
            0 <= i < j < self.entries@.len() ==> (#[trigger] self.entries@[i]).key@ != (
            #[trigger] self.entries@[j]).key@
    }

    /// The place of a key.
    fn place(&self, key: &str) -> (at: usize)
        ensures
            at == ledger_place(self.entries@, key@),
            at <= self.entries@.len(),
    {
        let mut at: usize = 0;
        while at < self.entries.len()
            invariant
                at <= self.entries@.len(),
                forall|i: int| 0 <= i < at ==> (#[trigger] self.entries@[i]).key@ != key@,
            decreases self.entries.len() - at,
        {
            if same_text(self.entries[at].key.as_str(), key) {
                proof {
                    lemma_ledger_place_is(self.entries@, key@, at as int);
                }
                return at;
            }
            at = at + 1;
        }
        proof {
            lemma_ledger_place_is(self.entries@, key@, at as int);
        }
        at
    }

    /// The entry for a backup.
    pub fn get(&self, backup_id: &str) -> (e: Option<&LedgerEntry>)
        ensures
            match e {
                Some(e) => ledger_lookup(self.entries@, backup_id@) == Some(*e),
                None => ledger_lookup(self.entries@, backup_id@) is None,
            },
    {
        let at: usize = self.place(backup_id);
        if at < self.entries.len() {
            Some(&self.entries[at].entry)
        } else {
            None
        }
    }

    /// Keeps an entry for a backup, in the place of the one before.
    pub fn insert(&mut self, backup_id: &str, entry: LedgerEntry)
        ensures
            ledger_lookup(final(self).entries@, backup_id@) == Some(entry),
            forall|other: Seq<char>|
                other != backup_id@ ==> #[trigger] ledger_lookup(final(self).entries@, other)
                    == ledger_lookup(old(self).entries@, other),
            final(self).server == old(self).server,
            old(self).keys_distinct() ==> final(self).keys_distinct(),
    {
        let at: usize = self.place(backup_id);
        let row = LedgerRow { key: backup_id.to_owned(), entry };
        let ghost before = self.entries@;
        if at < self.entries.len() {
            self.entries.set(at, row);
            assert(self.entries@ =~= before.update(at as int, row));
        } else {
            self.entries.push(row);
            assert(self.entries@ =~= before.push(row));
        }
        proof {
            let after = self.entries@;
            lemma_ledger_place(before, backup_id@);
            lemma_ledger_place_is(after, backup_id@, at as int);
            assert forall|other: Seq<char>| other != backup_id@ implies #[trigger] ledger_lookup(
                after,
                other,
            ) == ledger_lookup(before, other) by {
                lemma_ledger_place(before, other);
                let p = ledger_place(before, other);
                if p < before.len() {
                    lemma_ledger_place_is(after, other, p);
                } else {
                    lemma_ledger_place_is(after, other, after.len() as int);
                }
            }
        }
    }

    /// The entry for a backup, or what is to be said where there is none.
    pub fn require(&self, backup_id: &str) -> (res: Result<&LedgerEntry, String>)
        ensures
            match res {
                Ok(e) => ledger_lookup(self.entries@, backup_id@) == Some(*e),
                Err(text) => ledger_lookup(self.entries@, backup_id@) is None && text@
                    == "backup "@ + backup_id@ + " not in local ledger — upload it first"@,
            },
    {
        match self.get(backup_id) {
            Some(e) => Ok(e),
            None => {
                let mut s = "backup ".to_owned();
                s.append(backup_id);
                s.append(" not in local ledger — upload it first");
                Err(s)
            },
        }
    }
}

// ---------------------------------------------------------------------------
// Payments
// ---------------------------------------------------------------------------

/// What is told of a file that cannot be made out: that a passphrase is missing, or
/// what the cipher says.
pub open spec fn stored_error_text(e: Option<CryptoErrorView>) -> Seq<char> {
    match e {
        None => "backup is encrypted — provide --passphrase (or PIVSS_PASSPHRASE)"@,
        Some(e) => crypto_error_text(e),
    }
}

/// Whether asking a server for a proof of a backup in the ledger may come to a result,
/// given what reading its file came to.
pub open spec fn proves_entry<F: Fn(&StorageChallenge) -> Result<ChallengeResponse, String>>(
    ask: F,
    entry: LedgerEntry,
    passphrase: Option<Seq<char>>,
    file: Result<Vec<u8>, String>,
    res: Result<VerifyOutcome, String>,
) -> bool {
    match file {
        Err(e) => res matches Err(f) && f@ == e@,
        Ok(file) => match stored_bytes(entry, passphrase, file@) {
            Err(e) => res matches Err(f) && f@ == stored_error_text(e),
            Ok(local_data) => proves(ask, local_data, res),
        },
    }
}

impl ApiClient {
    /// Asks the server for a proof of a backup in the ledger: what was uploaded is made
    /// again from the file, and the server is challenged for it. `read` reads a file;
    /// `ask` carries the challenge and brings the answer.
    pub fn verify_from_ledger<
        R: Fn(&String) -> Result<Vec<u8>, String>,
        F: Fn(&StorageChallenge) -> Result<ChallengeResponse, String>,
    >(
        &self,
        ledger: &Ledger,
        passphrase: Option<&str>,
        backup_id: &str,
        read: &R,
        ask: &F,
    ) -> (res: Result<VerifyOutcome, String>)
        requires
            ledger_lookup(ledger.entries@, backup_id@) matches Some(entry) ==> read.requires(
                (&entry.file_path,),
            ),
            ledger_lookup(ledger.entries@, backup_id@) is Some ==> forall|c: &StorageChallenge|
                #[trigger] ask.requires((c,)),
        ensures
            match ledger_lookup(ledger.entries@, backup_id@) {
                None => res matches Err(e) && e@ == "backup "@ + backup_id@
                    + " not in local ledger — upload it first"@,
                Some(entry) => exists|file: Result<Vec<u8>, String>|
                    {
                        &&& #[trigger] read.ensures((&entry.file_path,), file)
                        &&& proves_entry(*ask, entry, passphrase_view(passphrase), file, res)
                    },
            },
    {
        match ledger.require(backup_id) {
            Err(e) => Err(e),
            Ok(entry) => {
                let file = read(&entry.file_path);
                assert(read.ensures((&entry.file_path,), file));
                match file {
                    Err(e) => Err(e),
                    Ok(bytes) => match stored_bytes_of(entry, passphrase, bytes) {
                        Ok(local_data) => self.verify(&local_data, ask),
                        Err(e) => {
                            let told = e.to_string("backup");
                            proof {
                                reveal_strlit("backup");
                                reveal_strlit(
                                    " is encrypted — provide --passphrase (or PIVSS_PASSPHRASE)",
                                );
                                reveal_strlit(
                                    "backup is encrypted — provide --passphrase (or PIVSS_PASSPHRASE)",
                                );
                                assert("backup"@
                                    + " is encrypted — provide --passphrase (or PIVSS_PASSPHRASE)"@
                                    =~= "backup is encrypted — provide --passphrase (or PIVSS_PASSPHRASE)"@);
                            }
                            Err(told)
                        },
                    },
                }
            },
        }
    }
}

/// An amount in sats, rounded up, and at least one.
pub open spec fn sats_of(msat: u64) -> int {
    if msat == 0 {
        1
    } else {
        (msat + 999) / 1000
    }
}

/// An amount in sats, rounded up, and at least one: what a wallet can pay.
pub fn amount_sat(msat: u64) -> (sat: u64)
    ensures
        sat == sats_of(msat),
        sat >= 1,
        sat * 1000 >= msat,
{
    if msat == 0 {
        1
    } else if msat % 1000 == 0 {
        msat / 1000
    } else {
        msat / 1000 + 1
    }
}

/// What a client pays: the amount that it is told, or else the price that the
/// ledger keeps.
pub fn pay_amount(amount_msat: Option<u64>, entry: Option<&LedgerEntry>) -> (res: Result<
    u64,
    String,
>)
    ensures
        match res {
            Ok(n) => match (amount_msat, entry) {
                (Some(a), _) => n == a,
                (None, Some(e)) => n == e.quote_msat,
                (None, None) => false,
            },
            Err(e) => amount_msat is None && entry is None && e@
                == "no quote known — pass --amount-msat"@,
        },
{
    match amount_msat {
        Some(a) => Ok(a),
        None => match entry {
            Some(e) => Ok(e.quote_msat),
            None => Err("no quote known — pass --amount-msat".to_owned()),
        },
    }
}

/// The offer that a server has at the moment, or what is to be said where it has
/// none.
pub fn live_offer(offer: Option<String>) -> (res: Result<String, String>)
    ensures
        match res {
            Ok(s) => optional_text(offer) == Some(s@) && s@.len() > 0,
            Err(e) => {
                &&& optional_text(offer) matches Some(s) ==> s.len() == 0
                &&& e@ == "server has no BOLT12 offer configured"@
            },
        },
{
    match offer {
        Some(s) => if s.as_str().unicode_len() > 0 {
            Ok(s)
        } else {
            Err("server has no BOLT12 offer configured".to_owned())
        },
        None => Err("server has no BOLT12 offer configured".to_owned()),
    }
}

/// The offer in what a server tells of itself, or what is to be said where there is none.
pub fn get_live_offer(info: &str) -> (res: Result<String, String>)
    ensures
        match json_member(info@, "announcement"@, "bolt12_offer"@) {
            Err(told) => res matches Err(e) && e@ == told,
            Ok(offer) => match res {
                Ok(s) => offer == Some(s@) && s@.len() > 0,
                Err(e) => {
                    &&& offer matches Some(s) ==> s.len() == 0
                    &&& e@ == "server has no BOLT12 offer configured"@
                },
            },
        },
{
    match read_json_member(info, "announcement", "bolt12_offer") {
        Ok(offer) => live_offer(offer),
        Err(e) => Err(e),
    }
}

/// What a client does after asking a server for a proof.
#[derive(Debug, Clone, Copy, PartialEq, Eq, Structural)]
pub enum RoundAction {
    /// It pays an amount, in thousandths of a sat.
    Pay(u64),
    /// It withholds the payment.
    Withhold,
}

/// What a client pays where the ledger has no price.
pub const DEFAULT_ROUND_MSAT: u64 = 1000;

/// The price that the ledger keeps.
pub open spec fn kept_price(entry: Option<&LedgerEntry>) -> u64 {
    match entry {
        Some(e) => e.quote_msat,
        None => DEFAULT_ROUND_MSAT,
    }
}

/// What a client does after asking a server for a proof: it pays where the proof was
/// right, and only there.
pub open spec fn round_action(proved: Result<VerifyOutcome, String>, price: u64) -> RoundAction {
    match proved {
        Ok(o) => if o.ok {
            RoundAction::Pay(price)
        } else {
            RoundAction::Withhold
        },
        Err(_) => RoundAction::Withhold,
    }
}

/// Decides what a client does after asking a server for a proof.
pub fn decide_round(proved: &Result<VerifyOutcome, String>, entry: Option<&LedgerEntry>) -> (action:
    RoundAction)
    ensures
        action == round_action(*proved, kept_price(entry)),
{
    match proved {
        Ok(o) => if o.ok {
            RoundAction::Pay(
                match entry {
                    Some(e) => e.quote_msat,
                    None => DEFAULT_ROUND_MSAT,
                },
            )
        } else {
            RoundAction::Withhold
        },
        Err(_) => RoundAction::Withhold,
    }
}

/// Whether the rounds are over; zero stands for no end.
pub fn rounds_over(rounds: u64, round: u64) -> (over: bool)
    ensures
        over == (rounds > 0 && round >= rounds),
{
    rounds > 0 && round >= rounds
}

/// A payment is released only for a proof of the client's own bytes.
pub proof fn law_pays_only_on_proof(outcome: VerifyOutcome, local_data: Seq<u8>, price: u64)
    requires
        outcome.ok == accepts(outcome.challenge@, local_data, outcome.proof@),
    ensures
        round_action(Ok(outcome), price) is Pay <==> accepts(
            outcome.challenge@,
            local_data,
            outcome.proof@,
        ),
{
}

/// Revenue stops where data drops: a server that answers from other bytes than the
/// client's is not paid, unless it has found two inputs with one SHA-256.
pub proof fn law_lost_data_not_paid(
    outcome: VerifyOutcome,
    local_data: Seq<u8>,
    data: Seq<u8>,
    price: u64,
)
    requires
        outcome.ok == accepts(outcome.challenge@, local_data, outcome.proof@),
        outcome.proof@ == proof_of(outcome.challenge@, data),
        data != local_data,
    ensures
        round_action(Ok(outcome), price) is Withhold || {
            let a = nonce_bytes(outcome.challenge@.nonce) + local_data;
            let b = nonce_bytes(outcome.challenge@.nonce) + data;
            a != b && sha256(a) == sha256(b)
        },
{
    law_tampered_data_rejected(outcome.challenge@, local_data, data);
}

/// A client asks anew every time: its challenge has 32 bytes in its nonce and, of a file that is
/// not empty, three ranges of 1 to 4096 bytes that lie in the file.
pub proof fn law_challenge_samples_file(c: StorageChallenge, file_len: nat)
    requires
        is_fresh_challenge(c, file_len),
        file_len <= u64::MAX,
    ensures
        c.nonce@.len() == 64,
        file_len > 0 ==> c.ranges@.len() == 3,
        file_len == 0 ==> c.ranges@.len() == 0,
        forall|i: int|
            0 <= i < c.ranges@.len() ==> 1 <= (#[trigger] c.ranges@[i]).length <= 4096
                && c.ranges@[i].offset + c.ranges@[i].length <= file_len,
{
    let bytes = from_hex(c.nonce@)->0;
    assert(to_hex(bytes).len() == 64);
}

/// A wallet pays the fewest whole sats that make up an amount, and at least one.
pub proof fn law_fewest_sats(msat: u64, sats: int)
    requires
        sats >= 1,
        sats * 1000 >= msat,
        sats == 1 || (sats - 1) * 1000 < msat,
    ensures
        sats_of(msat) == sats,
{
}

/// What is paid after a proof that is right is the whole price, and after anything else nothing:
/// the price is the one that the ledger keeps, or one sat where it keeps none.
pub proof fn law_round_pays_price(proved: Result<VerifyOutcome, String>, entry: Option<&LedgerEntry>)
    ensures
        round_action(proved, kept_price(entry)) == (if proved is Ok && proved->Ok_0.ok {
            RoundAction::Pay(
                if entry is Some {
                    entry->0.quote_msat
                } else {
                    1000
                },
            )
        } else {
            RoundAction::Withhold
        }),
{
}

/// What does not start as an envelope is restored as it is, whatever the passphrase; what does is
/// not restored without one.
pub proof fn law_plain_data_restored_as_it_is(data: Seq<u8>, passphrase: Option<Seq<char>>)
    ensures
        data.len() < 6 || data.take(6) != seq![80u8, 73, 86, 83, 83, 49] ==> opened(
            data,
            passphrase,
        ) == Ok::<Seq<u8>, Option<CryptoErrorView>>(data),
        data.len() >= 6 && data.take(6) == seq![80u8, 73, 86, 83, 83, 49] && passphrase is None
            ==> opened(data, passphrase) == Err::<Seq<u8>, Option<CryptoErrorView>>(None),
{
    law_decryption_refuses_other_data(Seq::empty(), data);
}

/// A file that was uploaded as it is stands for itself, whatever the passphrase; one that was
/// encrypted cannot be answered for without it.
pub proof fn law_plain_upload_stands_for_itself(
    entry: LedgerEntry,
    passphrase: Option<Seq<char>>,
    file: Seq<u8>,
)
    ensures
        !entry.encrypted ==> stored_bytes(entry, passphrase, file) == Ok::<
            Seq<u8>,
            Option<CryptoErrorView>,
        >(file),
        entry.encrypted && passphrase is None ==> stored_bytes(entry, passphrase, file) == Err::<
            Seq<u8>,
            Option<CryptoErrorView>,
        >(None),
{
}

/// What a client takes for proved is an answer of the server to a challenge that was made for it,
/// and it is right for the bytes of the client.
pub proof fn law_proved_means_accepted<
    F: Fn(&StorageChallenge) -> Result<ChallengeResponse, String>,
>(ask: F, local_data: Seq<u8>, outcome: VerifyOutcome)
    requires
        proves(ask, local_data, Ok(outcome)),
    ensures
        outcome.ok <==> accepts(outcome.challenge@, local_data, outcome.proof@),
        is_fresh_challenge(outcome.challenge, local_data.len()),
        exists|a: ChallengeResponse| #[trigger]
            ask.ensures((&outcome.challenge,), Ok::<ChallengeResponse, String>(a)) && a.version
                == outcome.version && a.proof@ == outcome.proof@,
{
}

/// With a passphrase nothing is uploaded in the clear: what is uploaded starts with `PIVSS1`, opens to
/// the file under the passphrase, and is made again from what is kept of it. Without one the file is
/// uploaded as it is.
pub proof fn law_passphrase_means_envelope(
    payload: Seq<u8>,
    passphrase: Option<Seq<char>>,
    p: Prepared,
)
    requires
        prepares(payload, passphrase, p),
    ensures
        p.encrypted <==> passphrase is Some,
        passphrase matches Some(pw) ==> {
            &&& p.bytes@.len() >= 34
            &&& p.bytes@.take(6) == seq![80u8, 73, 86, 83, 83, 49]
            &&& decryption(pw, p.bytes@) == Ok::<Seq<u8>, CryptoErrorView>(payload)
            &&& reproduction(pw, p.salt_hex@, p.nonce_hex@, payload) == Ok::<
                Seq<u8>,
                CryptoErrorView,
            >(p.bytes@)
        },
        passphrase is None ==> p.bytes@ == payload,
{
    if let Some(pw) = passphrase {
        law_decryption_refuses_other_data(pw, p.bytes@);
    }
}

/// What cannot be made out is not proved: where the file cannot be read, or the uploaded bytes cannot
/// be made from it, the server is not asked and there is an error; else it is asked about these bytes.
pub proof fn law_only_own_bytes_proved<F: Fn(&StorageChallenge) -> Result<ChallengeResponse, String>>(
    ask: F,
    entry: LedgerEntry,
    passphrase: Option<Seq<char>>,
    file: Result<Vec<u8>, String>,
    res: Result<VerifyOutcome, String>,
)
    requires
        proves_entry(ask, entry, passphrase, file, res),
    ensures
        file matches Err(e) ==> (res matches Err(f) && f@ == e@),
        file matches Ok(bytes) ==> match stored_bytes(entry, passphrase, bytes@) {
            Err(_) => res is Err,
            Ok(local_data) => {
                &&& proves(ask, local_data, res)
                &&& res matches Ok(o) ==> (o.ok <==> accepts(o.challenge@, local_data, o.proof@))
            },
        },
{
}

} // verus!
