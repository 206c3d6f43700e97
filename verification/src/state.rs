//! The service itself: how backups and payments are laid out in the store, and
//! what an upload, a restore, a challenge and a payment do.
//!
//! The store and the seeder are handed to each call. So are two things that only
//! the program around the library can do: reading a record back from its JSON, and
//! writing the files of a torrent.
use vstd::prelude::*;
use vstd::string::*;
use vstd::utf8::*;
use crate::config::Config;
use crate::ln::IncomingPayment;
use crate::manifest::{
    kind_name, manifest_bytes, optional_text, payment_bytes, price_msat, quote_msat,
    AnnouncementView, BackupKind, BackupManifest, BackupVersion, ManifestView, PaymentRecord,
    PaymentView, ServiceAnnouncement, VersionView,
};
use crate::nostr::NostrKeys;
use crate::order::{
    at_places, descending_order, is_descending_order, law_order_complete, places,
};
use crate::outside::{
    clock_reading, drawn, hex_encode, now_secs, random_bytes, sha256, sha256_digest,
};
use crate::proto::KeyValueView;
use crate::seeder::{SeedStatus, SeedStatusView, Seeder};
use crate::storage_proof::{
    accepts, compute_proof, proof_of, ranges_fit, ChallengeView, ProofView, StorageChallenge,
    StorageProof,
};
use crate::store::{
    got_view, is_listing, list_view, looked_up, next_version, put_view, store_error_text, views,
    written, Contents, StoreError, StoreErrorView, VersionedStore,
};
use crate::text::{
    begins_with, copy_bytes, decimal, decimal_text, ends_in, ends_with_text, is_digit,
    lemma_concat_split, lemma_decimal_digits, lemma_decimal_injective, lemma_hex_injective,
    lemma_utf8_injective, texts, to_hex,
};
use crate::torrent::{create_torrent, infohash_of, magnet_of, metainfo_of};

verus! {

/// The version of the protocol.
pub const PIVSS_VERSION: &'static str = "0.1.0";

/// Why the service refused a request.
#[derive(Debug)]
pub enum ServiceError {
    /// The store refused.
    Store(StoreError),
    /// There is no such backup, or no such version of it.
    NotFound(String),
    /// A backup has more bytes than are accepted: how many, and the most.
    TooLarge(u64, u64),
    /// The service failed.
    Internal(String),
    /// The client may not do it.
    Forbidden(String),
}

/// A [`ServiceError`] in mathematical terms.
pub enum ServiceErrorView {
    /// See [`ServiceError::Store`].
    Store(StoreErrorView),
    /// See [`ServiceError::NotFound`].
    NotFound(Seq<char>),
    /// See [`ServiceError::TooLarge`].
    TooLarge(u64, u64),
    /// See [`ServiceError::Internal`].
    Internal(Seq<char>),
    /// See [`ServiceError::Forbidden`].
    Forbidden(Seq<char>),
}

impl View for ServiceError {
    type V = ServiceErrorView;

    open spec fn view(&self) -> ServiceErrorView {
        match self {
            ServiceError::Store(e) => ServiceErrorView::Store(e@),
            ServiceError::NotFound(text) => ServiceErrorView::NotFound(text@),
            ServiceError::TooLarge(n, max) => ServiceErrorView::TooLarge(*n, *max),
            ServiceError::Internal(text) => ServiceErrorView::Internal(text@),
            ServiceError::Forbidden(text) => ServiceErrorView::Forbidden(text@),
        }
    }
}

/// A [`ServiceError`] in words.
pub open spec fn service_error_text(e: ServiceErrorView) -> Seq<char> {
    match e {
        ServiceErrorView::Store(e) => store_error_text(e),
        ServiceErrorView::NotFound(what) => "backup not found: "@ + what,
        ServiceErrorView::TooLarge(n, max) => "backup too large: "@ + decimal(n as nat)
            + " bytes (max "@ + decimal(max as nat) + ")"@,
        ServiceErrorView::Internal(text) => text,
        ServiceErrorView::Forbidden(text) => text,
    }
}

impl ServiceError {
    /// The error in words.
    pub fn to_string(&self) -> (s: String)
        ensures
            s@ == service_error_text(self@),
    {
        match self {
            ServiceError::Store(e) => e.to_string(),
            ServiceError::NotFound(what) => {
                let mut s = "backup not found: ".to_owned();
                s.append(what.as_str());
                s
            },
            ServiceError::TooLarge(n, max) => {
                let mut s = "backup too large: ".to_owned();
                s.append(decimal_text(*n).as_str());
                s.append(" bytes (max ");
                s.append(decimal_text(*max).as_str());
                s.append(")");
                s
            },
            ServiceError::Internal(text) => text.clone(),
            ServiceError::Forbidden(text) => text.clone(),
        }
    }
}

// ---------------------------------------------------------------------------
// The layout of the store
// ---------------------------------------------------------------------------

/// The key of the manifest of a backup.
pub open spec fn meta_key_of(id: Seq<char>) -> Seq<char> {
    "backups/"@ + id + "/meta"@
}

/// The key of a version of a backup.
pub open spec fn data_key_of(id: Seq<char>, version: nat) -> Seq<char> {
    "backups/"@ + id + "/v"@ + decimal(version)
}

/// The key of a payment.
pub open spec fn payment_key_of(id: Seq<char>) -> Seq<char> {
    "payments/"@ + id
}

/// The id of the backups of a file name and a kind: the same name and kind give
/// the same series.
pub open spec fn backup_id_of(filename: Seq<char>, kind: BackupKind) -> Seq<char> {
    to_hex(sha256(encode_utf8(kind_name(kind) + "|"@ + filename))@.subrange(0, 8))
}

pub fn meta_key(id: &str) -> (s: String)
    ensures
        s@ == meta_key_of(id@),
{
    let mut s = "backups/".to_owned();
    s.append(id);
    s.append("/meta");
    s
}

pub fn data_key(id: &str, version: u64) -> (s: String)
    ensures
        s@ == data_key_of(id@, version as nat),
{
    let mut s = "backups/".to_owned();
    s.append(id);
    s.append("/v");
    s.append(decimal_text(version).as_str());
    s
}

/// The id of the backups of a file name and a kind.
pub fn backup_id(filename: &str, kind: BackupKind) -> (s: String)
    ensures
        s@ == backup_id_of(filename@, kind),
{
    let mut text = kind.to_string();
    text.append("|");
    text.append(filename);
    let digest = sha256_digest(text.as_str().as_bytes());
    hex_encode(&digest[0..8])
}

// ---------------------------------------------------------------------------
// Uploads
// ---------------------------------------------------------------------------

/// The files of a torrent, as they are to be written under the seeds of the data
/// directory.
pub struct SeedFiles {
    /// The directory of the version.
    pub dir: String,
    /// The name of the payload.
    pub name: String,
    /// The name of the .torrent file.
    pub torrent_name: String,
    /// The payload.
    pub payload: Vec<u8>,
    /// The .torrent file.
    pub metainfo: Vec<u8>,
}

/// [`SeedFiles`] in mathematical terms.
pub struct SeedFilesView {
    /// See [`SeedFiles::dir`].
    pub dir: Seq<char>,
    /// See [`SeedFiles::name`].
    pub name: Seq<char>,
    /// See [`SeedFiles::torrent_name`].
    pub torrent_name: Seq<char>,
    /// See [`SeedFiles::payload`].
    pub payload: Seq<u8>,
    /// See [`SeedFiles::metainfo`].
    pub metainfo: Seq<u8>,
}

impl View for SeedFiles {
    type V = SeedFilesView;

    open spec fn view(&self) -> SeedFilesView {
        SeedFilesView {
            dir: self.dir@,
            name: self.name@,
            torrent_name: self.torrent_name@,
            payload: self.payload@,
            metainfo: self.metainfo@,
        }
    }
}

/// Where the files of a torrent were written.
pub struct SeedPaths {
    /// The path of the .torrent file.
    pub torrent_path: String,
    /// The path of the directory of the payload.
    pub data_dir: String,
}

/// Which of the files of a torrent could not be written, and why.
pub enum SeedWriteError {
    /// The directory.
    Dir(String),
    /// The payload.
    Payload(String),
    /// The .torrent file.
    Torrent(String),
}

/// A [`SeedWriteError`] in words.
pub open spec fn seed_write_text(e: SeedWriteError) -> Seq<char> {
    match e {
        SeedWriteError::Dir(text) => "seed dir: "@ + text@,
        SeedWriteError::Payload(text) => "seed file: "@ + text@,
        SeedWriteError::Torrent(text) => "torrent file: "@ + text@,
    }
}

/// What an upload is to do, once the manifest of its backup has been read.
pub struct UploadPlan {
    /// The key of the new version.
    pub data_key: String,
    /// The key of the manifest.
    pub meta_key: String,
    /// The version in the store of the manifest that is replaced; zero for a
    /// first upload.
    pub meta_version: i64,
    /// The manifest with the new version.
    pub manifest: BackupManifest,
    /// The new version.
    pub version: BackupVersion,
    /// The files of its torrent.
    pub files: SeedFiles,
}

/// An [`UploadPlan`] in mathematical terms.
pub struct PlanView {
    /// See [`UploadPlan::data_key`].
    pub data_key: Seq<char>,
    /// See [`UploadPlan::meta_key`].
    pub meta_key: Seq<char>,
    /// See [`UploadPlan::meta_version`].
    pub meta_version: i64,
    /// See [`UploadPlan::manifest`].
    pub manifest: ManifestView,
    /// See [`UploadPlan::version`].
    pub version: VersionView,
    /// See [`UploadPlan::files`].
    pub files: SeedFilesView,
}

impl View for UploadPlan {
    type V = PlanView;

    open spec fn view(&self) -> PlanView {
        PlanView {
            data_key: self.data_key@,
            meta_key: self.meta_key@,
            meta_version: self.meta_version,
            manifest: self.manifest@,
            version: self.version@,
            files: self.files@,
        }
    }
}

/// What is uploaded, by whom it is stored and when.
pub struct Upload {
    /// The name of the file.
    pub filename: Seq<char>,
    /// Its kind.
    pub kind: BackupKind,
    /// The label; none where it is empty.
    pub label: Seq<char>,
    /// The bytes.
    pub data: Seq<u8>,
    /// The trackers of the torrent.
    pub trackers: Seq<Seq<char>>,
    /// The time.
    pub now: u64,
}

/// The name of the directory of a version.
pub open spec fn seed_dir_of(id: Seq<char>, version: u64) -> Seq<char> {
    id + "-v"@ + decimal(version as nat)
}

/// The name of the payload of a version.
pub open spec fn seed_name_of(id: Seq<char>, version: u64, filename: Seq<char>) -> Seq<char> {
    seed_dir_of(id, version) + "-"@ + filename
}

/// The version that an upload adds.
pub open spec fn added_version(u: Upload, version: u64) -> VersionView {
    let name = seed_name_of(backup_id_of(u.filename, u.kind), version, u.filename);
    VersionView {
        version,
        size: u.data.len() as u64,
        sha256: to_hex(sha256(u.data)@),
        created_at: u.now,
        infohash: infohash_of(name, u.data),
        magnet: magnet_of(name, u.data, u.trackers),
    }
}

/// The files of the torrent of the version that an upload adds.
pub open spec fn added_files(u: Upload, version: u64) -> SeedFilesView {
    let id = backup_id_of(u.filename, u.kind);
    let name = seed_name_of(id, version, u.filename);
    SeedFilesView {
        dir: seed_dir_of(id, version),
        name,
        torrent_name: name + ".torrent"@,
        payload: u.data,
        metainfo: metainfo_of(name, u.data, u.trackers),
    }
}

/// The manifest that an upload starts from: the one that was found, with its
/// version in the store, or a new one.
pub open spec fn base_manifest(u: Upload, found: Option<(ManifestView, i64)>) -> (
    ManifestView,
    i64,
) {
    match found {
        Some(m) => m,
        None => (
            ManifestView {
                backup_id: backup_id_of(u.filename, u.kind),
                label: u.label,
                filename: u.filename,
                kind: u.kind,
                latest_version: 0,
                versions: Seq::empty(),
                created_at: u.now,
                updated_at: u.now,
            },
            0,
        ),
    }
}

/// A manifest with one version more.
pub open spec fn with_version(u: Upload, m: ManifestView, v: VersionView) -> ManifestView {
    ManifestView {
        latest_version: v.version,
        updated_at: u.now,
        label: if u.label.len() > 0 {
            u.label
        } else {
            m.label
        },
        versions: m.versions.push(v),
        ..m
    }
}

/// What an upload is to do where a manifest was found, or none. A series whose
/// version or whose manifest's version cannot be counted on is refused.
pub open spec fn planned(u: Upload, found: Option<(ManifestView, i64)>) -> Result<
    PlanView,
    ServiceErrorView,
> {
    let (m, meta_version) = base_manifest(u, found);
    if m.latest_version == u64::MAX || meta_version == i64::MAX {
        Err(ServiceErrorView::Internal("version counter exhausted"@))
    } else {
        let version = (m.latest_version + 1) as u64;
        let id = backup_id_of(u.filename, u.kind);
        let v = added_version(u, version);
        Ok(
            PlanView {
                data_key: data_key_of(id, version as nat),
                meta_key: meta_key_of(id),
                meta_version,
                manifest: with_version(u, m, v),
                version: v,
                files: added_files(u, version),
            },
        )
    }
}

/// What an upload is to do, given what was read of the manifest.
pub open spec fn plan_from(
    u: Upload,
    found: Result<Option<(ManifestView, i64)>, ServiceErrorView>,
) -> Result<PlanView, ServiceErrorView> {
    match found {
        Err(e) => Err(e),
        Ok(f) => planned(u, f),
    }
}

/// What the store holds once the bytes of an upload have been written.
pub open spec fn with_data(c: Contents, plan: PlanView, data: Seq<u8>) -> Contents {
    written(c, plan.data_key, 0, data)
}

/// What the store holds once the manifest of an upload has been written.
pub open spec fn with_manifest(c: Contents, plan: PlanView) -> Contents {
    written(c, plan.meta_key, plan.meta_version, manifest_bytes(plan.manifest))
}

/// What the store holds after an upload.
pub open spec fn with_upload(c: Contents, plan: PlanView, data: Seq<u8>) -> Contents {
    with_manifest(with_data(c, plan, data), plan)
}

/// What a reader of manifests returns, in mathematical terms.
pub open spec fn read_view(r: Result<BackupManifest, String>) -> Result<ManifestView, Seq<char>> {
    match r {
        Ok(m) => Ok(m@),
        Err(e) => Err(e@),
    }
}

/// A manifest that was found, in mathematical terms.
pub open spec fn found_view(found: Option<(BackupManifest, i64)>) -> Option<(ManifestView, i64)> {
    match found {
        Some((m, v)) => Some((m@, v)),
        None => None,
    }
}

/// Whether a reader of manifests may make `out` of bytes.
pub open spec fn reads<D: Fn(&Vec<u8>) -> Result<BackupManifest, String>>(
    decode: D,
    bytes: Seq<u8>,
    out: Result<ManifestView, Seq<char>>,
) -> bool {
    exists|b: Vec<u8>, r: Result<BackupManifest, String>|
        {
            &&& b@ == bytes
            &&& #[trigger] decode.ensures((&b,), r)
            &&& out == read_view(r)
        }
}

/// Whether a reader of manifests may make `out` of what was read from the store.
pub open spec fn manifest_from<D: Fn(&Vec<u8>) -> Result<BackupManifest, String>>(
    decode: D,
    got: Result<Option<KeyValueView>, StoreErrorView>,
    out: Result<Option<(ManifestView, i64)>, ServiceErrorView>,
) -> bool {
    match got {
        Err(e) => out == Err::<Option<(ManifestView, i64)>, ServiceErrorView>(
            ServiceErrorView::Store(e),
        ),
        Ok(None) => out == Ok::<Option<(ManifestView, i64)>, ServiceErrorView>(None),
        Ok(Some(kv)) => exists|r: Result<ManifestView, Seq<char>>|
            {
                &&& #[trigger] reads(decode, kv.value, r)
                &&& out == (match r {
                    Ok(m) => Ok::<Option<(ManifestView, i64)>, ServiceErrorView>(
                        Some((m, kv.version)),
                    ),
                    Err(e) => Err::<Option<(ManifestView, i64)>, ServiceErrorView>(
                        ServiceErrorView::Internal("corrupt manifest: "@ + e),
                    ),
                })
            },
    }
}

/// Whether reading the manifest of a backup from a store may come to `out`.
pub open spec fn asks<S: VersionedStore, D: Fn(&Vec<u8>) -> Result<BackupManifest, String>>(
    store: S,
    decode: D,
    id: Seq<char>,
    out: Result<Option<(ManifestView, i64)>, ServiceErrorView>,
) -> bool {
    exists|got: Result<Option<KeyValueView>, StoreErrorView>|
        {
            &&& #[trigger] store.may_get(meta_key_of(id), got)
            &&& manifest_from(decode, got, out)
        }
}

/// Whether reading the manifest of a backup may come to `out`, where a store answers
/// for what it holds.
pub open spec fn finds<D: Fn(&Vec<u8>) -> Result<BackupManifest, String>>(
    decode: D,
    c: Contents,
    id: Seq<char>,
    out: Result<Option<(ManifestView, i64)>, ServiceErrorView>,
) -> bool {
    manifest_from(decode, Ok(looked_up(c, meta_key_of(id))), out)
}

/// Whether a manifest ends in a version of bytes, both stamped with a time.
pub open spec fn is_stamped(m: ManifestView, v: VersionView, data: Seq<u8>, now: u64) -> bool {
    &&& v.created_at == now
    &&& m.updated_at == now
    &&& v.size == data.len()
    &&& v.sha256 == to_hex(sha256(data)@)
    &&& m.latest_version == v.version
    &&& m.versions.len() > 0
    &&& m.versions.last() == v
}

/// What an upload returns, in mathematical terms.
pub open spec fn upload_views(
    res: Result<(BackupManifest, BackupVersion, SeedStatus, u64), ServiceError>,
) -> Result<(ManifestView, VersionView, SeedStatusView, u64), ServiceErrorView> {
    match res {
        Ok((m, v, s, quote)) => Ok((m@, v@, s@, quote)),
        Err(e) => Err(e@),
    }
}

/// The state of a server.
pub struct AppState {
    /// Its configuration.
    pub config: Config,
    /// Its identity.
    pub keys: NostrKeys,
    /// When it was started.
    pub started_at: u64,
    /// The offer of its wallet, where one is connected.
    pub wallet_offer: Option<String>,
}

impl AppState {
    /// What an upload to this server is.
    pub open spec fn upload(
        &self,
        filename: Seq<char>,
        kind: BackupKind,
        label: Seq<char>,
        data: Seq<u8>,
        now: u64,
    ) -> Upload {
        Upload { filename, kind, label, data, trackers: texts(self.config.torrent.trackers@), now }
    }

    /// Decides what an upload is to do, given the manifest that was found.
    pub fn plan_upload(
        &self,
        found: Option<(BackupManifest, i64)>,
        filename: &str,
        kind: BackupKind,
        label: &str,
        data: &Vec<u8>,
        now: u64,
    ) -> (res: Result<UploadPlan, ServiceError>)
        ensures
            ({
                let p = planned(
                    self.upload(filename@, kind, label@, data@, now),
                    found_view(found),
                );
                match res {
                    Ok(plan) => p == Ok::<PlanView, ServiceErrorView>(plan@),
                    Err(e) => p == Err::<PlanView, ServiceErrorView>(e@),
                }
            }),
    {
        let ghost u = self.upload(filename@, kind, label@, data@, now);
        let ghost f = found_view(found);
        let id = backup_id(filename, kind);
        let (mut manifest, meta_version): (BackupManifest, i64) = match found {
            Some((m, v)) => (m, v),
            None => (
                BackupManifest {
                    backup_id: id.clone(),
                    label: label.to_owned(),
                    filename: filename.to_owned(),
                    kind,
                    latest_version: 0,
                    versions: Vec::new(),
                    created_at: now,
                    updated_at: now,
                },
                0,
            ),
        };
        assert((manifest@, meta_version) == base_manifest(u, f)) by {
            assert(manifest@.versions =~= base_manifest(u, f).0.versions);
        }
        let ghost base = manifest@;
        if manifest.latest_version == u64::MAX || meta_version == i64::MAX {
            return Err(ServiceError::Internal("version counter exhausted".to_owned()));
        }
        let version: u64 = manifest.latest_version + 1;
        let mut dir = id.clone();
        dir.append("-v");
        dir.append(decimal_text(version).as_str());
        let mut name = dir.clone();
        name.append("-");
        name.append(filename);
        let mut torrent_name = name.clone();
        torrent_name.append(".torrent");
        let torrent = create_torrent(name.as_str(), data, &self.config.torrent.trackers);
        let backup_version = BackupVersion {
            version,
            size: data.len() as u64,
            sha256: hex_encode(&sha256_digest(data)),
            created_at: now,
            infohash: torrent.infohash,
            magnet: torrent.magnet,
        };
        assert(backup_version@ == added_version(u, version));
        manifest.latest_version = version;
        manifest.updated_at = now;
        if label.unicode_len() > 0 {
            manifest.label = label.to_owned();
        }
        manifest.versions.push(backup_version.clone());
        assert(manifest@ =~= with_version(u, base, backup_version@)) by {
            assert(manifest@.versions =~= base.versions.push(backup_version@));
        }
        Ok(
            UploadPlan {
                data_key: data_key(id.as_str(), version),
                meta_key: meta_key(id.as_str()),
                meta_version,
                manifest,
                version: backup_version,
                files: SeedFiles {
                    dir,
                    name,
                    torrent_name,
                    payload: copy_bytes(data),
                    metainfo: torrent.metainfo,
                },
            },
        )
    }

    /// Reads the manifest of a backup, and its version in the store.
    fn get_manifest<S: VersionedStore, D: Fn(&Vec<u8>) -> Result<BackupManifest, String>>(
        &self,
        store: &S,
        decode: &D,
        id: &str,
    ) -> (res: Result<Option<(BackupManifest, i64)>, ServiceError>)
        requires
            forall|b: &Vec<u8>| #[trigger] decode.requires((b,)),
        ensures
            asks(*store, *decode, id@, manifest_view(res)),
            store.exact() ==> finds(*decode, store.contents(), id@, manifest_view(res)),
    {
        let key = meta_key(id);
        let got = store.get(key.as_str());
        let ghost g = got_view(got);
        assert(store.may_get(meta_key_of(id@), g));
        match got {
            Err(e) => Err(ServiceError::Store(e)),
            Ok(None) => Ok(None),
            Ok(Some(kv)) => {
                let r = decode(&kv.value);
                let ghost out = read_view(r);
                assert(reads(*decode, g->Ok_0->0.value, out)) by {
                    assert(decode.ensures((&kv.value,), r));
                }
                match r {
                    Ok(m) => Ok(Some((m, kv.version))),
                    Err(e) => {
                        let mut text = "corrupt manifest: ".to_owned();
                        text.append(e.as_str());
                        Err(ServiceError::Internal(text))
                    },
                }
            },
        }
    }
}

/// What reading a manifest returns, in mathematical terms.
pub open spec fn manifest_view(res: Result<Option<(BackupManifest, i64)>, ServiceError>) -> Result<
    Option<(ManifestView, i64)>,
    ServiceErrorView,
> {
    match res {
        Ok(found) => Ok(found_view(found)),
        Err(e) => Err(e@),
    }
}

/// Whether a writer of files may come to `w` on the files of a torrent.
pub open spec fn writes<W: FnOnce(&SeedFiles) -> Result<SeedPaths, SeedWriteError>>(
    write: W,
    files: SeedFilesView,
    w: Result<SeedPaths, SeedWriteError>,
) -> bool {
    exists|f: SeedFiles| f@ == files && #[trigger] write.ensures((&f,), w)
}

/// Whether an upload whose bytes are in the store may come to a result, to contents of
/// the store and to a seeder, where the store answers for what it holds. The seeder is
/// told of the files where they were written.
pub open spec fn upload_ends<
    E: Seeder,
    W: FnOnce(&SeedFiles) -> Result<SeedPaths, SeedWriteError>,
>(
    plan: PlanView,
    quote: u64,
    write: W,
    before: (Contents, E),
    after: (Contents, E),
    res: Result<(ManifestView, VersionView, SeedStatusView, u64), ServiceErrorView>,
) -> bool {
    exists|w: Result<SeedPaths, SeedWriteError>|
        {
            &&& #[trigger] writes(write, plan.files, w)
            &&& match w {
                Err(e) => {
                    &&& res == Err::<
                        (ManifestView, VersionView, SeedStatusView, u64),
                        ServiceErrorView,
                    >(ServiceErrorView::Internal(seed_write_text(e)))
                    &&& after == before
                },
                Ok(paths) => {
                    let status = after.1.recorded().last();
                    &&& res == Ok::<
                        (ManifestView, VersionView, SeedStatusView, u64),
                        ServiceErrorView,
                    >((plan.manifest, plan.version, status, quote))
                    &&& status.infohash == plan.version.infohash
                    &&& status.torrent_path == paths.torrent_path@
                    &&& after.0 == with_manifest(before.0, plan)
                    &&& after.1.recorded() == before.1.recorded().push(status)
                    &&& before.1.may_seed(
                        plan.version.infohash,
                        paths.torrent_path@,
                        paths.data_dir@,
                        status,
                        &after.1,
                    )
                },
            }
        }
}

/// Whether an upload may come to a result, to contents of the store and to a seeder,
/// given what was found of its backup, where the store answers for what it holds.
pub open spec fn upload_comes_to<
    E: Seeder,
    W: FnOnce(&SeedFiles) -> Result<SeedPaths, SeedWriteError>,
>(
    u: Upload,
    quote: u64,
    found: Result<Option<(ManifestView, i64)>, ServiceErrorView>,
    write: W,
    before: (Contents, E),
    after: (Contents, E),
    res: Result<(ManifestView, VersionView, SeedStatusView, u64), ServiceErrorView>,
) -> bool {
    match plan_from(u, found) {
        Err(e) => res == Err::<(ManifestView, VersionView, SeedStatusView, u64), ServiceErrorView>(
            e,
        ) && after == before,
        Ok(plan) => if next_version(before.0, plan.data_key, 0) is None {
            &&& res == Err::<(ManifestView, VersionView, SeedStatusView, u64), ServiceErrorView>(
                ServiceErrorView::Store(StoreErrorView::Conflict(plan.data_key)),
            )
            &&& after == before
        } else {
            upload_ends(
                plan,
                quote,
                write,
                (with_data(before.0, plan, u.data), before.1),
                after,
                res,
            )
        },
    }
}

/// Whether writing the manifest of an upload may come to a result and to a store: it
/// is written over the one that it was made from.
pub open spec fn upload_seals<S: VersionedStore>(
    plan: PlanView,
    quote: u64,
    status: SeedStatusView,
    before: S,
    after: S,
    res: Result<(ManifestView, VersionView, SeedStatusView, u64), ServiceErrorView>,
) -> bool {
    exists|put: Result<i64, StoreErrorView>|
        {
            &&& #[trigger] before.may_put(
                plan.meta_key,
                plan.meta_version,
                manifest_bytes(plan.manifest),
                put,
                &after,
            )
            &&& res == (match put {
                Ok(_) => Ok::<(ManifestView, VersionView, SeedStatusView, u64), ServiceErrorView>(
                    (plan.manifest, plan.version, status, quote),
                ),
                Err(e) => Err(ServiceErrorView::Store(e)),
            })
        }
}

/// Whether an upload whose bytes are in the store may go on to a result, to a store
/// and to a seeder: the files of its torrent are written, the seeder is told, and the
/// manifest is written.
pub open spec fn upload_finishes<
    S: VersionedStore,
    E: Seeder,
    W: FnOnce(&SeedFiles) -> Result<SeedPaths, SeedWriteError>,
>(
    plan: PlanView,
    quote: u64,
    write: W,
    store: S,
    seeder: E,
    store_after: S,
    seeder_after: E,
    res: Result<(ManifestView, VersionView, SeedStatusView, u64), ServiceErrorView>,
) -> bool {
    exists|w: Result<SeedPaths, SeedWriteError>|
        {
            &&& #[trigger] writes(write, plan.files, w)
            &&& match w {
                Err(e) => {
                    &&& res == Err::<
                        (ManifestView, VersionView, SeedStatusView, u64),
                        ServiceErrorView,
                    >(ServiceErrorView::Internal(seed_write_text(e)))
                    &&& store_after == store
                    &&& seeder_after == seeder
                },
                Ok(paths) => {
                    let status = seeder_after.recorded().last();
                    &&& seeder_after.recorded() == seeder.recorded().push(status)
                    &&& status.infohash == plan.version.infohash
                    &&& status.torrent_path == paths.torrent_path@
                    &&& seeder.may_seed(
                        plan.version.infohash,
                        paths.torrent_path@,
                        paths.data_dir@,
                        status,
                        &seeder_after,
                    )
                    &&& upload_seals(plan, quote, status, store, store_after, res)
                },
            }
        }
}

/// Whether an upload that was planned may come to a result, to a store and to a
/// seeder: its bytes are written under a key of their own, and then it goes on.
pub open spec fn upload_proceeds<
    S: VersionedStore,
    E: Seeder,
    W: FnOnce(&SeedFiles) -> Result<SeedPaths, SeedWriteError>,
>(
    plan: PlanView,
    quote: u64,
    write: W,
    store: S,
    seeder: E,
    store_after: S,
    seeder_after: E,
    res: Result<(ManifestView, VersionView, SeedStatusView, u64), ServiceErrorView>,
) -> bool {
    exists|put: Result<i64, StoreErrorView>, mid: S|
        {
            &&& #[trigger] store.may_put(plan.data_key, 0, plan.files.payload, put, &mid)
            &&& match put {
                Err(e) => {
                    &&& res == Err::<
                        (ManifestView, VersionView, SeedStatusView, u64),
                        ServiceErrorView,
                    >(ServiceErrorView::Store(e))
                    &&& store_after == mid
                    &&& seeder_after == seeder
                },
                Ok(_) => upload_finishes(
                    plan,
                    quote,
                    write,
                    mid,
                    seeder,
                    store_after,
                    seeder_after,
                    res,
                ),
            }
        }
}

/// Whether an upload may come to a result, to a store and to a seeder, whatever the
/// store answers: the manifest is asked for, and what is then planned is done.
pub open spec fn upload_runs<
    S: VersionedStore,
    E: Seeder,
    D: Fn(&Vec<u8>) -> Result<BackupManifest, String>,
    W: FnOnce(&SeedFiles) -> Result<SeedPaths, SeedWriteError>,
>(
    u: Upload,
    quote: u64,
    decode: D,
    write: W,
    store: S,
    seeder: E,
    store_after: S,
    seeder_after: E,
    res: Result<(ManifestView, VersionView, SeedStatusView, u64), ServiceErrorView>,
) -> bool {
    exists|found: Result<Option<(ManifestView, i64)>, ServiceErrorView>|
        {
            &&& #[trigger] asks(store, decode, backup_id_of(u.filename, u.kind), found)
            &&& match plan_from(u, found) {
                Err(e) => {
                    &&& res == Err::<
                        (ManifestView, VersionView, SeedStatusView, u64),
                        ServiceErrorView,
                    >(e)
                    &&& store_after == store
                    &&& seeder_after == seeder
                },
                Ok(plan) => upload_proceeds(
                    plan,
                    quote,
                    write,
                    store,
                    seeder,
                    store_after,
                    seeder_after,
                    res,
                ),
            }
        }
}

/// Whether an upload may come to a result, to a store and to a seeder: in general, and
/// where the store answers for what it holds.
pub open spec fn upload_outcome<
    S: VersionedStore,
    E: Seeder,
    D: Fn(&Vec<u8>) -> Result<BackupManifest, String>,
    W: FnOnce(&SeedFiles) -> Result<SeedPaths, SeedWriteError>,
>(
    u: Upload,
    quote: u64,
    decode: D,
    write: W,
    store: S,
    seeder: E,
    store_after: S,
    seeder_after: E,
    res: Result<(ManifestView, VersionView, SeedStatusView, u64), ServiceErrorView>,
) -> bool {
    &&& upload_runs(u, quote, decode, write, store, seeder, store_after, seeder_after, res)
    &&& store.exact() ==> store_after.exact() && exists|
        found: Result<Option<(ManifestView, i64)>, ServiceErrorView>,
    |
        {
            &&& #[trigger] finds(
                decode,
                store.contents(),
                backup_id_of(u.filename, u.kind),
                found,
            )
            &&& upload_comes_to(
                u,
                quote,
                found,
                write,
                (store.contents(), seeder),
                (store_after.contents(), seeder_after),
                res,
            )
        }
}

/// The key of a manifest is the key of no version.
pub proof fn law_meta_key_apart(a: Seq<char>, b: Seq<char>, version: nat)
    ensures
        meta_key_of(a) != data_key_of(b, version),
{
    reveal_strlit("/meta");
    lemma_decimal_digits(version);
    let (k, l) = (meta_key_of(a), data_key_of(b, version));
    assert(k.last() == 'a');
    let d = decimal(version);
    assert(is_digit(d[d.len() - 1]));
    assert(l.last() == d[d.len() - 1]);
}

/// The key of a version gives the backup and the version away: no two versions
/// share a key, whatever the ids.
pub proof fn law_data_key_determines(a: Seq<char>, v: nat, b: Seq<char>, w: nat)
    requires
        data_key_of(a, v) == data_key_of(b, w),
    ensures
        a == b,
        v == w,
{
    reveal_strlit("/v");
    lemma_decimal_digits(v);
    lemma_decimal_digits(w);
    let (dv, dw) = (decimal(v), decimal(w));
    let (ha, hb) = ("backups/"@ + a + "/v"@, "backups/"@ + b + "/v"@);
    let (k, l) = (ha + dv, hb + dw);
    assert(k == l);
    assert(ha.last() == 'v' && hb.last() == 'v');
    if dv.len() < dw.len() {
        assert(k[ha.len() - 1] == 'v');
        assert(l[ha.len() - 1] == dw[ha.len() - 1 - hb.len()]);
        assert(is_digit(dw[ha.len() - 1 - hb.len()]));
    } else if dw.len() < dv.len() {
        assert(l[hb.len() - 1] == 'v');
        assert(k[hb.len() - 1] == dv[hb.len() - 1 - ha.len()]);
        assert(is_digit(dv[hb.len() - 1 - ha.len()]));
    }
    lemma_concat_split(ha, dv, hb, dw);
    lemma_decimal_injective(v, w);
    lemma_concat_split("backups/"@ + a, "/v"@, "backups/"@ + b, "/v"@);
    lemma_concat_split("backups/"@, a, "backups/"@, b);
}

/// The manifest of an upload can be written where its bytes could.
proof fn lemma_manifest_written(
    u: Upload,
    found: Option<(ManifestView, i64)>,
    plan: PlanView,
    c: Contents,
)
    requires
        planned(u, found) == Ok::<PlanView, ServiceErrorView>(plan),
        next_version(c, plan.data_key, 0) is Some,
        match (found, looked_up(c, plan.meta_key)) {
            (Some((_, v)), Some(kv)) => kv.version == v,
            (None, None) => true,
            _ => false,
        },
    ensures
        next_version(with_data(c, plan, u.data), plan.meta_key, plan.meta_version) is Some,
{
    let id = backup_id_of(u.filename, u.kind);
    law_meta_key_apart(id, id, plan.version.version as nat);
}

impl AppState {
    /// Goes on with an upload whose bytes are in the store.
    fn finish_upload<
        S: VersionedStore,
        E: Seeder,
        W: FnOnce(&SeedFiles) -> Result<SeedPaths, SeedWriteError>,
    >(&self, store: &mut S, seeder: &mut E, write: W, plan: UploadPlan, quote: u64) -> (res: Result<
        (BackupManifest, BackupVersion, SeedStatus, u64),
        ServiceError,
    >)
        requires
            forall|f: &SeedFiles| #[trigger] write.requires((f,)),
            plan.meta_version < i64::MAX,
        ensures
            upload_finishes(
                plan@,
                quote,
                write,
                *old(store),
                *old(seeder),
                *final(store),
                *final(seeder),
                upload_views(res),
            ),
            old(store).exact() ==> final(store).exact(),
            old(store).exact() && next_version(
                old(store).contents(),
                plan@.meta_key,
                plan@.meta_version,
            ) is Some ==> upload_ends(
                plan@,
                quote,
                write,
                (old(store).contents(), *old(seeder)),
                (final(store).contents(), *final(seeder)),
                upload_views(res),
            ),
    {
        let w = write(&plan.files);
        assert(writes(write, plan@.files, w)) by {
            assert(write.ensures((&plan.files,), w));
        }
        let paths = match w {
            Ok(paths) => paths,
            Err(e) => {
                let mut text: String;
                match &e {
                    SeedWriteError::Dir(t) => {
                        text = "seed dir: ".to_owned();
                        text.append(t.as_str());
                    },
                    SeedWriteError::Payload(t) => {
                        text = "seed file: ".to_owned();
                        text.append(t.as_str());
                    },
                    SeedWriteError::Torrent(t) => {
                        text = "torrent file: ".to_owned();
                        text.append(t.as_str());
                    },
                }
                return Err(ServiceError::Internal(text));
            },
        };
        let status = seeder.seed(
            plan.version.infohash.as_str(),
            paths.torrent_path.as_str(),
            paths.data_dir.as_str(),
        );
        let json = plan.manifest.to_json();
        let put = store.put(
            plan.meta_key.as_str(),
            plan.meta_version,
            copy_bytes(json.as_str().as_bytes()),
        );
        let ghost sealed = put_view(put);
        assert(old(store).may_put(
            plan@.meta_key,
            plan@.meta_version,
            manifest_bytes(plan@.manifest),
            sealed,
            &*store,
        ));
        assert(seeder.recorded().last() == status@);
        match put {
            Ok(_) => {},
            Err(e) => {
                return Err(ServiceError::Store(e));
            },
        }
        Ok((plan.manifest, plan.version, status, quote))
    }

    /// Does what was planned of an upload.
    fn proceed_upload<
        S: VersionedStore,
        E: Seeder,
        W: FnOnce(&SeedFiles) -> Result<SeedPaths, SeedWriteError>,
    >(
        &self,
        store: &mut S,
        seeder: &mut E,
        write: W,
        plan: UploadPlan,
        data: Vec<u8>,
        quote: u64,
    ) -> (res: Result<(BackupManifest, BackupVersion, SeedStatus, u64), ServiceError>)
        requires
            forall|f: &SeedFiles| #[trigger] write.requires((f,)),
            plan.meta_version < i64::MAX,
            plan@.files.payload == data@,
        ensures
            upload_proceeds(
                plan@,
                quote,
                write,
                *old(store),
                *old(seeder),
                *final(store),
                *final(seeder),
                upload_views(res),
            ),
            old(store).exact() ==> final(store).exact(),
            old(store).exact() && next_version(old(store).contents(), plan@.data_key, 0) is None
                ==> {
                &&& upload_views(res) == Err::<
                    (ManifestView, VersionView, SeedStatusView, u64),
                    ServiceErrorView,
                >(ServiceErrorView::Store(StoreErrorView::Conflict(plan@.data_key)))
                &&& final(store).contents() == old(store).contents()
                &&& *final(seeder) == *old(seeder)
            },
            old(store).exact() && next_version(old(store).contents(), plan@.data_key, 0) is Some
                && next_version(
                with_data(old(store).contents(), plan@, data@),
                plan@.meta_key,
                plan@.meta_version,
            ) is Some ==> upload_ends(
                plan@,
                quote,
                write,
                (with_data(old(store).contents(), plan@, data@), *old(seeder)),
                (final(store).contents(), *final(seeder)),
                upload_views(res),
            ),
    {
        let put = store.put(plan.data_key.as_str(), 0, data);
        let ghost mid = *store;
        let ghost p = put_view(put);
        assert(old(store).may_put(plan@.data_key, 0, plan@.files.payload, p, &mid));
        match put {
            Ok(_) => self.finish_upload(store, seeder, write, plan, quote),
            Err(e) => Err(ServiceError::Store(e)),
        }
    }

    /// Stores a new version of a backup at a time: the bytes go to the store, the
    /// files of the torrent are written, the seeder is told, and the manifest is
    /// written, as long as nobody else has written it meanwhile. Returns the
    /// manifest, the version, the status of the torrent and the price.
    #[verifier::rlimit(60)]
    pub fn store_backup_at<
        S: VersionedStore,
        E: Seeder,
        D: Fn(&Vec<u8>) -> Result<BackupManifest, String>,
        W: FnOnce(&SeedFiles) -> Result<SeedPaths, SeedWriteError>,
    >(
        &self,
        store: &mut S,
        seeder: &mut E,
        decode: &D,
        write: W,
        filename: &str,
        kind: BackupKind,
        label: &str,
        data: Vec<u8>,
        now: u64,
    ) -> (res: Result<(BackupManifest, BackupVersion, SeedStatus, u64), ServiceError>)
        requires
            forall|b: &Vec<u8>| #[trigger] decode.requires((b,)),
            data@.len() <= self.config.max_backup_bytes ==> forall|f: &SeedFiles| #[trigger]
                write.requires((f,)),
            data@.len() <= self.config.max_backup_bytes ==> price_msat(
                data@.len() as u64,
                self.config.price_sats_per_mib,
            ) <= u64::MAX,
        ensures
            data@.len() > self.config.max_backup_bytes ==> {
                &&& upload_views(res) == Err::<
                    (ManifestView, VersionView, SeedStatusView, u64),
                    ServiceErrorView,
                >(ServiceErrorView::TooLarge(data@.len() as u64, self.config.max_backup_bytes))
                &&& *final(store) == *old(store)
                &&& *final(seeder) == *old(seeder)
            },
            data@.len() <= self.config.max_backup_bytes ==> upload_outcome(
                self.upload(filename@, kind, label@, data@, now),
                price_msat(data@.len() as u64, self.config.price_sats_per_mib) as u64,
                *decode,
                write,
                *old(store),
                *old(seeder),
                *final(store),
                *final(seeder),
                upload_views(res),
            ),
            res matches Ok((m, v, s, quote)) ==> {
                &&& is_stamped(m@, v@, data@, now)
                &&& s@.infohash == v@.infohash
                &&& quote == price_msat(data@.len() as u64, self.config.price_sats_per_mib)
            },
    {
        let size: u64 = data.len() as u64;
        if size > self.config.max_backup_bytes {
            return Err(ServiceError::TooLarge(size, self.config.max_backup_bytes));
        }
        let ghost u = self.upload(filename@, kind, label@, data@, now);
        let ghost c = store.contents();
        let id = backup_id(filename, kind);
        let got = self.get_manifest(&*store, decode, id.as_str());
        let ghost g = manifest_view(got);
        assert(asks(*old(store), *decode, backup_id_of(u.filename, u.kind), g));
        assert(old(store).exact() ==> finds(*decode, c, backup_id_of(u.filename, u.kind), g));
        let found = match got {
            Ok(found) => found,
            Err(e) => {
                return Err(e);
            },
        };
        let ghost f = found_view(found);
        let plan = match self.plan_upload(found, filename, kind, label, &data, now) {
            Ok(plan) => plan,
            Err(e) => {
                return Err(e);
            },
        };
        let quote: u64 = quote_msat(size, self.config.price_sats_per_mib);
        proof {
            if old(store).exact() && next_version(c, plan@.data_key, 0) is Some {
                lemma_manifest_written(u, f, plan@, c);
            }
        }
        self.proceed_upload(store, seeder, write, plan, data, quote)
    }
}

impl AppState {
    /// Stores a new version of a backup now. See [`AppState::store_backup_at`].
    #[verifier::rlimit(60)]
    pub fn store_backup<
        S: VersionedStore,
        E: Seeder,
        D: Fn(&Vec<u8>) -> Result<BackupManifest, String>,
        W: FnOnce(&SeedFiles) -> Result<SeedPaths, SeedWriteError>,
    >(
        &self,
        store: &mut S,
        seeder: &mut E,
        decode: &D,
        write: W,
        filename: &str,
        kind: BackupKind,
        label: &str,
        data: Vec<u8>,
    ) -> (res: Result<(BackupManifest, BackupVersion, SeedStatus, u64), ServiceError>)
        requires
            forall|b: &Vec<u8>| #[trigger] decode.requires((b,)),
            data@.len() <= self.config.max_backup_bytes ==> forall|f: &SeedFiles| #[trigger]
                write.requires((f,)),
            data@.len() <= self.config.max_backup_bytes ==> price_msat(
                data@.len() as u64,
                self.config.price_sats_per_mib,
            ) <= u64::MAX,
        ensures
            data@.len() > self.config.max_backup_bytes ==> {
                &&& upload_views(res) == Err::<
                    (ManifestView, VersionView, SeedStatusView, u64),
                    ServiceErrorView,
                >(ServiceErrorView::TooLarge(data@.len() as u64, self.config.max_backup_bytes))
                &&& *final(store) == *old(store)
                &&& *final(seeder) == *old(seeder)
            },
            data@.len() <= self.config.max_backup_bytes ==> exists|now: u64|
                clock_reading(now) && upload_outcome(
                    #[trigger] self.upload(filename@, kind, label@, data@, now),
                    price_msat(data@.len() as u64, self.config.price_sats_per_mib) as u64,
                    *decode,
                    write,
                    *old(store),
                    *old(seeder),
                    *final(store),
                    *final(seeder),
                    upload_views(res),
                ),
            res matches Ok((m, v, s, quote)) ==> {
                &&& clock_reading(v.created_at)
                &&& is_stamped(m@, v@, data@, v.created_at)
                &&& s@.infohash == v@.infohash
                &&& quote == price_msat(data@.len() as u64, self.config.price_sats_per_mib)
            },
    {
        let now: u64 = now_secs();
        self.store_backup_at(store, seeder, decode, write, filename, kind, label, data, now)
    }

    // -----------------------------------------------------------------------
    // Reading back
    // -----------------------------------------------------------------------

    /// The manifest of a backup.
    pub fn get_backup<S: VersionedStore, D: Fn(&Vec<u8>) -> Result<BackupManifest, String>>(
        &self,
        store: &S,
        decode: &D,
        id: &str,
    ) -> (res: Result<BackupManifest, ServiceError>)
        requires
            forall|b: &Vec<u8>| #[trigger] decode.requires((b,)),
        ensures
            backup_from(*store, *decode, id@, backup_view(res)),
            store.exact() ==> backup_comes_to(*decode, store.contents(), id@, backup_view(res)),
    {
        let found = self.get_manifest(store, decode, id);
        let ghost f = manifest_view(found);
        assert(asks(*store, *decode, id@, f));
        assert(store.exact() ==> finds(*decode, store.contents(), id@, f));
        match found {
            Ok(Some((m, _))) => Ok(m),
            Ok(None) => Err(ServiceError::NotFound(id.to_owned())),
            Err(e) => Err(e),
        }
    }

    /// The bytes of a version of a backup.
    pub fn get_backup_data<S: VersionedStore>(&self, store: &S, id: &str, version: u64) -> (res:
        Result<Vec<u8>, ServiceError>)
        ensures
            data_from(*store, id@, version, data_view(res)),
            store.exact() ==> data_view(res) == restored(store.contents(), id@, version),
    {
        let key = data_key(id, version);
        let got = store.get(key.as_str());
        let ghost g = got_view(got);
        assert(store.may_get(data_key_of(id@, version as nat), g));
        match got {
            Err(e) => Err(ServiceError::Store(e)),
            Ok(Some(kv)) => Ok(kv.value),
            Ok(None) => {
                let mut what = id.to_owned();
                what.append(" v");
                what.append(decimal_text(version).as_str());
                Err(ServiceError::NotFound(what))
            },
        }
    }

    /// Answers a challenge from the bytes in the store: those of a version, or of
    /// the latest one. Returns the proof and the version.
    pub fn answer_challenge<S: VersionedStore, D: Fn(&Vec<u8>) -> Result<BackupManifest, String>>(
        &self,
        store: &S,
        decode: &D,
        id: &str,
        version: Option<u64>,
        challenge: &StorageChallenge,
    ) -> (res: Result<(StorageProof, u64), ServiceError>)
        requires
            forall|b: &Vec<u8>| #[trigger] decode.requires((b,)),
            ranges_fit(challenge.ranges@),
        ensures
            answer_from(*store, *decode, id@, version, challenge@, answer_view(res)),
            store.exact() ==> exists|m: Result<ManifestView, ServiceErrorView>|
                {
                    &&& #[trigger] backup_comes_to(*decode, store.contents(), id@, m)
                    &&& answer_view(res) == answered(store.contents(), id@, version, challenge@, m)
                },
    {
        let found = self.get_backup(store, decode, id);
        let ghost m = backup_view(found);
        assert(backup_from(*store, *decode, id@, m));
        assert(store.exact() ==> backup_comes_to(*decode, store.contents(), id@, m));
        match found {
            Ok(manifest) => {
                let v: u64 = match version {
                    Some(v) => v,
                    None => manifest.latest_version,
                };
                let data = self.get_backup_data(store, id, v);
                let ghost d = data_view(data);
                assert(data_from(*store, id@, challenged_version(version, m->Ok_0), d));
                match data {
                    Ok(data) => Ok((compute_proof(challenge, &data), v)),
                    Err(e) => Err(e),
                }
            },
            Err(e) => Err(e),
        }
    }
}

/// What reading a manifest returns, in mathematical terms.
pub open spec fn backup_view(res: Result<BackupManifest, ServiceError>) -> Result<
    ManifestView,
    ServiceErrorView,
> {
    match res {
        Ok(m) => Ok(m@),
        Err(e) => Err(e@),
    }
}

/// What asking for a backup comes to, given what was found of it.
pub open spec fn backup_in(
    id: Seq<char>,
    found: Result<Option<(ManifestView, i64)>, ServiceErrorView>,
) -> Result<ManifestView, ServiceErrorView> {
    match found {
        Ok(Some((m, _))) => Ok(m),
        Ok(None) => Err(ServiceErrorView::NotFound(id)),
        Err(e) => Err(e),
    }
}

/// Whether asking a store for the manifest of a backup may come to `out`.
pub open spec fn backup_from<
    S: VersionedStore,
    D: Fn(&Vec<u8>) -> Result<BackupManifest, String>,
>(store: S, decode: D, id: Seq<char>, out: Result<ManifestView, ServiceErrorView>) -> bool {
    exists|found: Result<Option<(ManifestView, i64)>, ServiceErrorView>|
        {
            &&& #[trigger] asks(store, decode, id, found)
            &&& out == backup_in(id, found)
        }
}

/// Whether asking for the manifest of a backup may come to `out`, where a store
/// answers for what it holds.
pub open spec fn backup_comes_to<D: Fn(&Vec<u8>) -> Result<BackupManifest, String>>(
    decode: D,
    c: Contents,
    id: Seq<char>,
    out: Result<ManifestView, ServiceErrorView>,
) -> bool {
    exists|found: Result<Option<(ManifestView, i64)>, ServiceErrorView>|
        {
            &&& #[trigger] finds(decode, c, id, found)
            &&& out == backup_in(id, found)
        }
}

/// What reading the bytes of a version returns, in mathematical terms.
pub open spec fn data_view(res: Result<Vec<u8>, ServiceError>) -> Result<
    Seq<u8>,
    ServiceErrorView,
> {
    match res {
        Ok(data) => Ok(data@),
        Err(e) => Err(e@),
    }
}

/// What a restore of a version comes to, given what was read from the store.
pub open spec fn data_in(
    id: Seq<char>,
    version: u64,
    got: Result<Option<KeyValueView>, StoreErrorView>,
) -> Result<Seq<u8>, ServiceErrorView> {
    match got {
        Ok(Some(kv)) => Ok(kv.value),
        Ok(None) => Err(ServiceErrorView::NotFound(id + " v"@ + decimal(version as nat))),
        Err(e) => Err(ServiceErrorView::Store(e)),
    }
}

/// Whether a restore of a version from a store may come to `out`.
pub open spec fn data_from<S: VersionedStore>(
    store: S,
    id: Seq<char>,
    version: u64,
    out: Result<Seq<u8>, ServiceErrorView>,
) -> bool {
    exists|got: Result<Option<KeyValueView>, StoreErrorView>|
        {
            &&& #[trigger] store.may_get(data_key_of(id, version as nat), got)
            &&& out == data_in(id, version, got)
        }
}

/// What a restore of a version comes to, where a store answers for what it holds.
pub open spec fn restored(c: Contents, id: Seq<char>, version: u64) -> Result<
    Seq<u8>,
    ServiceErrorView,
> {
    data_in(id, version, Ok(looked_up(c, data_key_of(id, version as nat))))
}

/// What answering a challenge returns, in mathematical terms.
pub open spec fn answer_view(res: Result<(StorageProof, u64), ServiceError>) -> Result<
    (ProofView, u64),
    ServiceErrorView,
> {
    match res {
        Ok((proof, v)) => Ok((proof@, v)),
        Err(e) => Err(e@),
    }
}

/// The version that a challenge is about.
pub open spec fn challenged_version(version: Option<u64>, m: ManifestView) -> u64 {
    match version {
        Some(v) => v,
        None => m.latest_version,
    }
}

/// What answering a challenge comes to, given the bytes of the version.
pub open spec fn proof_in(
    challenge: ChallengeView,
    version: u64,
    data: Result<Seq<u8>, ServiceErrorView>,
) -> Result<(ProofView, u64), ServiceErrorView> {
    match data {
        Ok(data) => Ok((proof_of(challenge, data), version)),
        Err(e) => Err(e),
    }
}

/// Whether answering a challenge from a store may come to `out`.
pub open spec fn answer_from<
    S: VersionedStore,
    D: Fn(&Vec<u8>) -> Result<BackupManifest, String>,
>(
    store: S,
    decode: D,
    id: Seq<char>,
    version: Option<u64>,
    challenge: ChallengeView,
    out: Result<(ProofView, u64), ServiceErrorView>,
) -> bool {
    exists|m: Result<ManifestView, ServiceErrorView>|
        {
            &&& #[trigger] backup_from(store, decode, id, m)
            &&& match m {
                Err(e) => out == Err::<(ProofView, u64), ServiceErrorView>(e),
                Ok(m) => exists|data: Result<Seq<u8>, ServiceErrorView>|
                    {
                        &&& #[trigger] data_from(store, id, challenged_version(version, m), data)
                        &&& out == proof_in(challenge, challenged_version(version, m), data)
                    },
            }
        }
}

/// What answering a challenge comes to, where a store answers for what it holds,
/// given what was read of the manifest.
pub open spec fn answered(
    c: Contents,
    id: Seq<char>,
    version: Option<u64>,
    challenge: ChallengeView,
    m: Result<ManifestView, ServiceErrorView>,
) -> Result<(ProofView, u64), ServiceErrorView> {
    match m {
        Err(e) => Err(e),
        Ok(m) => {
            let v = challenged_version(version, m);
            proof_in(challenge, v, restored(c, id, v))
        },
    }
}

// ---------------------------------------------------------------------------
// Payments
// ---------------------------------------------------------------------------

/// What recording a payment returns, in mathematical terms.
pub open spec fn payment_view(res: Result<PaymentRecord, ServiceError>) -> Result<
    PaymentView,
    ServiceErrorView,
> {
    match res {
        Ok(p) => Ok(p@),
        Err(e) => Err(e@),
    }
}

/// A payment under an id.
pub open spec fn payment_of(
    id: Seq<u8>,
    backup_id: Seq<char>,
    amount_msat: u64,
    paid_at: u64,
    method: Seq<char>,
    note: Option<Seq<char>>,
) -> PaymentView {
    PaymentView { payment_id: to_hex(id), backup_id, amount_msat, paid_at, method, note }
}

/// Whether a payment is one that is made now: under an id of eight bytes that were drawn, at
/// a time that was read from the clock.
pub open spec fn is_payment_now(
    p: PaymentView,
    backup_id: Seq<char>,
    amount_msat: u64,
    method: Seq<char>,
    note: Option<Seq<char>>,
) -> bool {
    &&& exists|id: [u8; 8]| #[trigger] drawn(id) && p.payment_id == to_hex(id@)
    &&& clock_reading(p.paid_at)
    &&& p.backup_id == backup_id
    &&& p.amount_msat == amount_msat
    &&& p.method == method
    &&& p.note == note
}

/// What recording a payment comes to, given what was read of the backup that it is
/// for: it must exist, and the id of the payment must be new.
pub open spec fn recorded_payment(
    c: Contents,
    backup: Result<ManifestView, ServiceErrorView>,
    p: PaymentView,
) -> Result<PaymentView, ServiceErrorView> {
    match backup {
        Err(e) => Err(e),
        Ok(_) => if next_version(c, payment_key_of(p.payment_id), 0) is Some {
            Ok(p)
        } else {
            Err(ServiceErrorView::Store(StoreErrorView::Conflict(payment_key_of(p.payment_id))))
        },
    }
}

/// What the store holds once a payment was recorded, given what was read of the
/// backup that it is for.
pub open spec fn with_payment(
    c: Contents,
    backup: Result<ManifestView, ServiceErrorView>,
    p: PaymentView,
) -> Contents {
    match backup {
        Err(_) => c,
        Ok(_) => written(c, payment_key_of(p.payment_id), 0, payment_bytes(p)),
    }
}

/// Whether recording a payment in a store may come to a result, and to a store: the
/// backup that it is for is asked for first, and the payment is written under a key
/// that must be new.
pub open spec fn payment_runs<
    S: VersionedStore,
    D: Fn(&Vec<u8>) -> Result<BackupManifest, String>,
>(decode: D, before: S, p: PaymentView, after: S, out: Result<PaymentView, ServiceErrorView>) -> bool {
    exists|m: Result<ManifestView, ServiceErrorView>|
        {
            &&& #[trigger] backup_from(before, decode, p.backup_id, m)
            &&& match m {
                Err(e) => out == Err::<PaymentView, ServiceErrorView>(e) && after == before,
                Ok(_) => exists|put: Result<i64, StoreErrorView>|
                    {
                        &&& #[trigger] before.may_put(
                            payment_key_of(p.payment_id),
                            0,
                            payment_bytes(p),
                            put,
                            &after,
                        )
                        &&& out == (match put {
                            Ok(_) => Ok::<PaymentView, ServiceErrorView>(p),
                            Err(e) => Err::<PaymentView, ServiceErrorView>(
                                ServiceErrorView::Store(e),
                            ),
                        })
                    },
            }
        }
}

impl AppState {
    /// Records a payment for a backup, under an id and at a time.
    pub fn record_payment_as<S: VersionedStore, D: Fn(&Vec<u8>) -> Result<BackupManifest, String>>(
        &self,
        store: &mut S,
        decode: &D,
        record: PaymentRecord,
    ) -> (res: Result<PaymentRecord, ServiceError>)
        requires
            forall|b: &Vec<u8>| #[trigger] decode.requires((b,)),
        ensures
            payment_outcome(*decode, *old(store), record@, *final(store), payment_view(res)),
    {
        let found = self.get_backup(&*store, decode, record.backup_id.as_str());
        let ghost m = backup_view(found);
        assert(backup_from(*old(store), *decode, record@.backup_id, m));
        assert(old(store).exact() ==> backup_comes_to(
            *decode,
            old(store).contents(),
            record@.backup_id,
            m,
        ));
        match found {
            Ok(_) => {
                let mut key = "payments/".to_owned();
                key.append(record.payment_id.as_str());
                let json = record.to_json();
                let put = store.put(key.as_str(), 0, copy_bytes(json.as_str().as_bytes()));
                let ghost p = put_view(put);
                assert(old(store).may_put(
                    payment_key_of(record@.payment_id),
                    0,
                    payment_bytes(record@),
                    p,
                    &*store,
                ));
                match put {
                    Ok(_) => Ok(record),
                    Err(e) => Err(ServiceError::Store(e)),
                }
            },
            Err(e) => Err(e),
        }
    }

    /// Records a payment for a backup now, under a random id of eight bytes.
    #[verifier::rlimit(60)]
    pub fn record_payment<S: VersionedStore, D: Fn(&Vec<u8>) -> Result<BackupManifest, String>>(
        &self,
        store: &mut S,
        decode: &D,
        backup_id: &str,
        amount_msat: u64,
        method: &str,
        note: Option<String>,
    ) -> (res: Result<PaymentRecord, ServiceError>)
        requires
            forall|b: &Vec<u8>| #[trigger] decode.requires((b,)),
        ensures
            exists|id: [u8; 8], now: u64| #[trigger]
                drawn(id) && #[trigger] clock_reading(now) && payment_outcome(
                    *decode,
                    *old(store),
                    payment_of(
                        id@,
                        backup_id@,
                        amount_msat,
                        now,
                        method@,
                        optional_text(note),
                    ),
                    *final(store),
                    payment_view(res),
                ),
            res matches Ok(p) ==> is_payment_now(
                p@,
                backup_id@,
                amount_msat,
                method@,
                optional_text(note),
            ),
    {
        let id: [u8; 8] = random_bytes();
        let now: u64 = now_secs();
        let record = PaymentRecord {
            payment_id: hex_encode(&id),
            backup_id: backup_id.to_owned(),
            amount_msat,
            paid_at: now,
            method: method.to_owned(),
            note,
        };
        assert(drawn(id) && clock_reading(now));
        assert(record@ == payment_of(
            id@,
            backup_id@,
            amount_msat,
            now,
            method@,
            optional_text(note),
        ));
        self.record_payment_as(store, decode, record)
    }
}

/// Whether recording a payment may come to a result, and to a store: in general, and
/// where the store answers for what it holds.
pub open spec fn payment_outcome<
    S: VersionedStore,
    D: Fn(&Vec<u8>) -> Result<BackupManifest, String>,
>(decode: D, before: S, p: PaymentView, after: S, out: Result<PaymentView, ServiceErrorView>) -> bool {
    &&& payment_runs(decode, before, p, after, out)
    &&& before.exact() ==> after.exact() && exists|m: Result<ManifestView, ServiceErrorView>|
        {
            &&& #[trigger] backup_comes_to(decode, before.contents(), p.backup_id, m)
            &&& out == recorded_payment(before.contents(), m, p)
            &&& after.contents() == with_payment(before.contents(), m, p)
        }
}

/// Whether reading the manifests of listed keys from a store may come to `found`: those
/// under a key of a manifest that are there and can be read, in the order of the keys.
pub open spec fn gathers<S: VersionedStore, D: Fn(&Vec<u8>) -> Result<BackupManifest, String>>(
    store: S,
    decode: D,
    keys: Seq<KeyValueView>,
    found: Seq<ManifestView>,
) -> bool
    decreases keys.len(),
{
    if keys.len() == 0 {
        found.len() == 0
    } else if !ends_in(keys.last().key, "/meta"@) {
        gathers(store, decode, keys.drop_last(), found)
    } else {
        exists|m: Option<ManifestView>|
            {
                &&& #[trigger] reads_at(store, decode, keys.last().key, m)
                &&& match m {
                    Some(m) => found.len() > 0 && found.last() == m && gathers(
                        store,
                        decode,
                        keys.drop_last(),
                        found.drop_last(),
                    ),
                    None => gathers(store, decode, keys.drop_last(), found),
                }
            }
    }
}

/// Whether reading a manifest under a key of a store may come to `m`: nothing where
/// there is none, or none that can be read.
pub open spec fn reads_at<S: VersionedStore, D: Fn(&Vec<u8>) -> Result<BackupManifest, String>>(
    store: S,
    decode: D,
    key: Seq<char>,
    m: Option<ManifestView>,
) -> bool {
    exists|got: Option<KeyValueView>|
        {
            &&& #[trigger] store.may_get(key, Ok(got))
            &&& match got {
                None => m is None,
                Some(kv) => exists|r: Result<ManifestView, Seq<char>>|
                    {
                        &&& #[trigger] reads(decode, kv.value, r)
                        &&& m == (match r {
                            Ok(m) => Some(m),
                            Err(_) => None,
                        })
                    },
            }
        }
}

/// Whether reading the manifests of listed keys from a store may come to `out`, the one
/// that was updated last first.
pub open spec fn gathers_sorted<
    S: VersionedStore,
    D: Fn(&Vec<u8>) -> Result<BackupManifest, String>,
>(store: S, decode: D, keys: Seq<KeyValueView>, out: Seq<ManifestView>) -> bool {
    exists|found: Seq<ManifestView>, p: Seq<int>|
        {
            &&& #[trigger] gathers(store, decode, keys, found)
            &&& #[trigger] is_descending_order(update_times(found), p)
            &&& out == at_places(found, p)
        }
}

/// Whether reading the manifests of listed keys from a store may fail, at the first
/// that the store fails at.
pub open spec fn gathering_fails<
    S: VersionedStore,
    D: Fn(&Vec<u8>) -> Result<BackupManifest, String>,
>(store: S, decode: D, keys: Seq<KeyValueView>, e: ServiceErrorView) -> bool {
    exists|i: int, found: Seq<ManifestView>|
        {
            &&& 0 <= i < keys.len()
            &&& #[trigger] gathers(store, decode, keys.take(i), found)
            &&& ends_in(keys[i].key, "/meta"@)
            &&& e matches ServiceErrorView::Store(f) && store.may_get(keys[i].key, Err(f))
        }
}

/// Whether a list of all backups of a store may come to `out`, whatever the store
/// answers: it fails where the store does.
pub open spec fn backups_from<
    S: VersionedStore,
    D: Fn(&Vec<u8>) -> Result<BackupManifest, String>,
>(store: S, decode: D, out: Result<Seq<ManifestView>, ServiceErrorView>) -> bool {
    exists|listed: Result<Seq<KeyValueView>, StoreErrorView>|
        {
            &&& #[trigger] store.may_list("backups/"@, listed)
            &&& match (listed, out) {
                (Err(e), _) => out == Err::<Seq<ManifestView>, ServiceErrorView>(
                    ServiceErrorView::Store(e),
                ),
                (Ok(keys), Ok(v)) => gathers_sorted(store, decode, keys, v),
                (Ok(keys), Err(e)) => gathering_fails(store, decode, keys, e),
            }
        }
}

/// What a list of backups returns, in mathematical terms.
pub open spec fn backups_view(res: Result<Vec<BackupManifest>, ServiceError>) -> Result<
    Seq<ManifestView>,
    ServiceErrorView,
> {
    match res {
        Ok(v) => Ok(manifest_views(v@)),
        Err(e) => Err(e@),
    }
}

/// Whether reading the manifests of listed keys may come to `out`, where a store
/// answers for what it holds: those under a key of a manifest that can be read, in the
/// order of the keys.
pub open spec fn reads_manifests<D: Fn(&Vec<u8>) -> Result<BackupManifest, String>>(
    decode: D,
    c: Contents,
    keys: Seq<KeyValueView>,
    out: Seq<ManifestView>,
) -> bool
    decreases keys.len(),
{
    if keys.len() == 0 {
        out.len() == 0
    } else {
        let key = keys.last().key;
        if ends_in(key, "/meta"@) {
            exists|r: Result<ManifestView, Seq<char>>|
                {
                    &&& #[trigger] reads(decode, c[key].value, r)
                    &&& match r {
                        Ok(m) => out.len() > 0 && out.last() == m && reads_manifests(
                            decode,
                            c,
                            keys.drop_last(),
                            out.drop_last(),
                        ),
                        Err(_) => reads_manifests(decode, c, keys.drop_last(), out),
                    }
                }
        } else {
            reads_manifests(decode, c, keys.drop_last(), out)
        }
    }
}

/// Manifests in mathematical terms.
pub open spec fn manifest_views(v: Seq<BackupManifest>) -> Seq<ManifestView> {
    v.map_values(|m: BackupManifest| m@)
}

/// When the manifests were last updated.
pub open spec fn update_times(v: Seq<ManifestView>) -> Seq<u64> {
    v.map_values(|m: ManifestView| m.updated_at)
}

/// Whether a list of all backups may come to `out`: the manifests that can be read,
/// the one that was updated last first.
pub open spec fn lists_backups<D: Fn(&Vec<u8>) -> Result<BackupManifest, String>>(
    decode: D,
    c: Contents,
    out: Seq<ManifestView>,
) -> bool {
    exists|keys: Seq<KeyValueView>, found: Seq<ManifestView>, p: Seq<int>|
        {
            &&& is_listing(c, "backups/"@, keys)
            &&& #[trigger] reads_manifests(decode, c, keys, found)
            &&& #[trigger] is_descending_order(update_times(found), p)
            &&& out == at_places(found, p)
        }
}

/// Whether a reader of payments may make `out` of bytes.
pub open spec fn reads_payment<P: Fn(&Vec<u8>) -> Result<PaymentRecord, String>>(
    decode: P,
    bytes: Seq<u8>,
    out: Option<PaymentView>,
) -> bool {
    exists|b: Vec<u8>, r: Result<PaymentRecord, String>|
        {
            &&& b@ == bytes
            &&& #[trigger] decode.ensures((&b,), r)
            &&& out == read_payment_view(r)
        }
}

/// What a reader of payments returns, in mathematical terms.
pub open spec fn read_payment_view(r: Result<PaymentRecord, String>) -> Option<PaymentView> {
    match r {
        Ok(p) => Some(p@),
        Err(_) => None,
    }
}

/// Whether reading a payment under a key of a store may come to `p`: nothing where
/// there is none, or none that can be read.
pub open spec fn reads_payment_at<
    S: VersionedStore,
    P: Fn(&Vec<u8>) -> Result<PaymentRecord, String>,
>(store: S, decode: P, key: Seq<char>, p: Option<PaymentView>) -> bool {
    exists|got: Option<KeyValueView>|
        {
            &&& #[trigger] store.may_get(key, Ok(got))
            &&& match got {
                None => p is None,
                Some(kv) => reads_payment(decode, kv.value, p),
            }
        }
}

/// Whether reading the payments of listed keys from a store may come to `found`: those
/// that are there and can be read, in the order of the keys.
pub open spec fn gathers_payments<
    S: VersionedStore,
    P: Fn(&Vec<u8>) -> Result<PaymentRecord, String>,
>(store: S, decode: P, keys: Seq<KeyValueView>, found: Seq<PaymentView>) -> bool
    decreases keys.len(),
{
    if keys.len() == 0 {
        found.len() == 0
    } else {
        exists|p: Option<PaymentView>|
            {
                &&& #[trigger] reads_payment_at(store, decode, keys.last().key, p)
                &&& match p {
                    Some(p) => found.len() > 0 && found.last() == p && gathers_payments(
                        store,
                        decode,
                        keys.drop_last(),
                        found.drop_last(),
                    ),
                    None => gathers_payments(store, decode, keys.drop_last(), found),
                }
            }
    }
}

/// Whether reading the payments of listed keys from a store may come to `out`, the
/// latest first.
pub open spec fn gathers_payments_sorted<
    S: VersionedStore,
    P: Fn(&Vec<u8>) -> Result<PaymentRecord, String>,
>(store: S, decode: P, keys: Seq<KeyValueView>, out: Seq<PaymentView>) -> bool {
    exists|found: Seq<PaymentView>, p: Seq<int>|
        {
            &&& #[trigger] gathers_payments(store, decode, keys, found)
            &&& #[trigger] is_descending_order(payment_times(found), p)
            &&& out == at_places(found, p)
        }
}

/// Whether reading the payments of listed keys from a store may fail, at the first that
/// the store fails at.
pub open spec fn gathering_payments_fails<
    S: VersionedStore,
    P: Fn(&Vec<u8>) -> Result<PaymentRecord, String>,
>(store: S, decode: P, keys: Seq<KeyValueView>, e: ServiceErrorView) -> bool {
    exists|i: int, found: Seq<PaymentView>|
        {
            &&& 0 <= i < keys.len()
            &&& #[trigger] gathers_payments(store, decode, keys.take(i), found)
            &&& e matches ServiceErrorView::Store(f) && store.may_get(keys[i].key, Err(f))
        }
}

/// Whether a list of all payments of a store may come to `out`, whatever the store
/// answers: it fails where the store does.
pub open spec fn payments_from<
    S: VersionedStore,
    P: Fn(&Vec<u8>) -> Result<PaymentRecord, String>,
>(store: S, decode: P, out: Result<Seq<PaymentView>, ServiceErrorView>) -> bool {
    exists|listed: Result<Seq<KeyValueView>, StoreErrorView>|
        {
            &&& #[trigger] store.may_list("payments/"@, listed)
            &&& match (listed, out) {
                (Err(e), _) => out == Err::<Seq<PaymentView>, ServiceErrorView>(
                    ServiceErrorView::Store(e),
                ),
                (Ok(keys), Ok(v)) => gathers_payments_sorted(store, decode, keys, v),
                (Ok(keys), Err(e)) => gathering_payments_fails(store, decode, keys, e),
            }
        }
}

/// What a list of payments returns, in mathematical terms.
pub open spec fn payments_view(res: Result<Vec<PaymentRecord>, ServiceError>) -> Result<
    Seq<PaymentView>,
    ServiceErrorView,
> {
    match res {
        Ok(v) => Ok(payment_views(v@)),
        Err(e) => Err(e@),
    }
}

/// Whether reading the payments of listed keys may come to `out`, where a store
/// answers for what it holds: those that can be read, in the order of the keys.
pub open spec fn reads_payments<P: Fn(&Vec<u8>) -> Result<PaymentRecord, String>>(
    decode: P,
    c: Contents,
    keys: Seq<KeyValueView>,
    out: Seq<PaymentView>,
) -> bool
    decreases keys.len(),
{
    if keys.len() == 0 {
        out.len() == 0
    } else {
        exists|r: Option<PaymentView>|
            {
                &&& #[trigger] reads_payment(decode, c[keys.last().key].value, r)
                &&& match r {
                    Some(p) => out.len() > 0 && out.last() == p && reads_payments(
                        decode,
                        c,
                        keys.drop_last(),
                        out.drop_last(),
                    ),
                    None => reads_payments(decode, c, keys.drop_last(), out),
                }
            }
    }
}

/// Payments in mathematical terms.
pub open spec fn payment_views(v: Seq<PaymentRecord>) -> Seq<PaymentView> {
    v.map_values(|p: PaymentRecord| p@)
}

/// When the payments were recorded.
pub open spec fn payment_times(v: Seq<PaymentView>) -> Seq<u64> {
    v.map_values(|p: PaymentView| p.paid_at)
}

/// Whether a list of all payments may come to `out`: those that can be read, the
/// latest first.
pub open spec fn lists_payments<P: Fn(&Vec<u8>) -> Result<PaymentRecord, String>>(
    decode: P,
    c: Contents,
    out: Seq<PaymentView>,
) -> bool {
    exists|keys: Seq<KeyValueView>, found: Seq<PaymentView>, p: Seq<int>|
        {
            &&& is_listing(c, "payments/"@, keys)
            &&& #[trigger] reads_payments(decode, c, keys, found)
            &&& #[trigger] is_descending_order(payment_times(found), p)
            &&& out == at_places(found, p)
        }
}

impl AppState {
    /// The manifests of all backups, the one that was updated last first. What
    /// cannot be read is passed over.
    pub fn list_backups<S: VersionedStore, D: Fn(&Vec<u8>) -> Result<BackupManifest, String>>(
        &self,
        store: &S,
        decode: &D,
    ) -> (res: Result<Vec<BackupManifest>, ServiceError>)
        requires
            forall|b: &Vec<u8>| #[trigger] decode.requires((b,)),
        ensures
            backups_from(*store, *decode, backups_view(res)),
            store.exact() ==> match res {
                Ok(v) => lists_backups(*decode, store.contents(), manifest_views(v@)),
                Err(_) => false,
            },
    {
        let listed = store.list("backups/");
        let ghost l = list_view(listed);
        assert(store.may_list("backups/"@, l));
        let keys = match listed {
            Ok(keys) => keys,
            Err(e) => {
                return Err(ServiceError::Store(e));
            },
        };
        let ghost all = views(keys@);
        let ghost c = store.contents();
        let mut found: Vec<BackupManifest> = Vec::new();
        let mut times: Vec<u64> = Vec::new();
        let mut i: usize = 0;
        assert(reads_manifests(*decode, c, all.take(0), manifest_views(found@)));
        assert(gathers(*store, *decode, all.take(0), manifest_views(found@)));
        while i < keys.len()
            invariant
                i <= keys@.len(),
                all == views(keys@),
                c == store.contents(),
                forall|b: &Vec<u8>| #[trigger] decode.requires((b,)),
                times@ == update_times(manifest_views(found@)),
                l == Ok::<Seq<KeyValueView>, StoreErrorView>(all),
                store.may_list("backups/"@, l),
                gathers(*store, *decode, all.take(i as int), manifest_views(found@)),
                store.exact() ==> is_listing(c, "backups/"@, all),
                store.exact() ==> reads_manifests(
                    *decode,
                    c,
                    all.take(i as int),
                    manifest_views(found@),
                ),
            decreases keys.len() - i,
        {
            let ghost before = manifest_views(found@);
            assert(all.take(i + 1).drop_last() =~= all.take(i as int));
            assert(all.take(i + 1).last() == keys@[i as int]@);
            if ends_with_text(keys[i].key.as_str(), "/meta") {
                assert(store.exact() ==> c.contains_key(all[i as int].key));
                let got = store.get(keys[i].key.as_str());
                let ghost g = got_view(got);
                assert(store.may_get(all[i as int].key, g));
                match got {
                    Err(e) => {
                        assert(gathering_fails(*store, *decode, all, ServiceErrorView::Store(e@)));
                        return Err(ServiceError::Store(e));
                    },
                    Ok(None) => {
                        assert(reads_at(*store, *decode, all[i as int].key, None));
                    },
                    Ok(Some(kv)) => {
                        let r = decode(&kv.value);
                        let ghost out = read_view(r);
                        assert(reads(*decode, g->Ok_0->0.value, out)) by {
                            assert(decode.ensures((&kv.value,), r));
                        }
                        assert(reads_at(
                            *store,
                            *decode,
                            all[i as int].key,
                            match out {
                                Ok(m) => Some(m),
                                Err(_) => None,
                            },
                        ));
                        assert(store.exact() ==> reads(*decode, c[all[i as int].key].value, out));
                        match r {
                            Ok(m) => {
                                times.push(m.updated_at);
                                found.push(m);
                                assert(manifest_views(found@) =~= before.push(m@));
                                assert(manifest_views(found@).drop_last() =~= before);
                                assert(times@ =~= update_times(manifest_views(found@)));
                            },
                            Err(_) => {},
                        }
                    },
                }
            }
            i = i + 1;
        }
        assert(all.take(i as int) =~= all);
        let order = descending_order(&times);
        let mut out: Vec<BackupManifest> = Vec::new();
        let mut j: usize = 0;
        while j < order.len()
            invariant
                j <= order@.len(),
                is_descending_order(times@, places(order@)),
                times@.len() == found@.len(),
                out@.len() == j,
                forall|k: int|
                    0 <= k < j ==> (#[trigger] out@[k])@ == manifest_views(found@)[places(
                        order@,
                    )[k]],
            decreases order.len() - j,
        {
            assert(places(order@)[j as int] == order@[j as int]);
            out.push(found[order[j]].clone());
            j = j + 1;
        }
        assert(manifest_views(out@) =~= at_places(manifest_views(found@), places(order@)));
        assert(gathers_sorted(*store, *decode, all, manifest_views(out@)));
        Ok(out)
    }

    /// All payments, the latest first. What cannot be read is passed over.
    pub fn list_payments<S: VersionedStore, P: Fn(&Vec<u8>) -> Result<PaymentRecord, String>>(
        &self,
        store: &S,
        decode: &P,
    ) -> (res: Result<Vec<PaymentRecord>, ServiceError>)
        requires
            forall|b: &Vec<u8>| #[trigger] decode.requires((b,)),
        ensures
            payments_from(*store, *decode, payments_view(res)),
            store.exact() ==> match res {
                Ok(v) => lists_payments(*decode, store.contents(), payment_views(v@)),
                Err(_) => false,
            },
    {
        let listed = store.list("payments/");
        let ghost l = list_view(listed);
        assert(store.may_list("payments/"@, l));
        let keys = match listed {
            Ok(keys) => keys,
            Err(e) => {
                return Err(ServiceError::Store(e));
            },
        };
        let ghost all = views(keys@);
        let ghost c = store.contents();
        let mut found: Vec<PaymentRecord> = Vec::new();
        let mut times: Vec<u64> = Vec::new();
        let mut i: usize = 0;
        assert(reads_payments(*decode, c, all.take(0), payment_views(found@)));
        assert(gathers_payments(*store, *decode, all.take(0), payment_views(found@)));
        while i < keys.len()
            invariant
                i <= keys@.len(),
                all == views(keys@),
                c == store.contents(),
                forall|b: &Vec<u8>| #[trigger] decode.requires((b,)),
                times@ == payment_times(payment_views(found@)),
                l == Ok::<Seq<KeyValueView>, StoreErrorView>(all),
                store.may_list("payments/"@, l),
                gathers_payments(*store, *decode, all.take(i as int), payment_views(found@)),
                store.exact() ==> is_listing(c, "payments/"@, all),
                store.exact() ==> reads_payments(
                    *decode,
                    c,
                    all.take(i as int),
                    payment_views(found@),
                ),
            decreases keys.len() - i,
        {
            let ghost before = payment_views(found@);
            assert(all.take(i + 1).drop_last() =~= all.take(i as int));
            assert(all.take(i + 1).last() == keys@[i as int]@);
            assert(store.exact() ==> c.contains_key(all[i as int].key));
            let got = store.get(keys[i].key.as_str());
            let ghost g = got_view(got);
            assert(store.may_get(all[i as int].key, g));
            match got {
                Err(e) => {
                    assert(gathering_payments_fails(
                        *store,
                        *decode,
                        all,
                        ServiceErrorView::Store(e@),
                    ));
                    return Err(ServiceError::Store(e));
                },
                Ok(None) => {
                    assert(reads_payment_at(*store, *decode, all[i as int].key, None));
                },
                Ok(Some(kv)) => {
                    let r = decode(&kv.value);
                    let ghost out = read_payment_view(r);
                    assert(reads_payment(*decode, g->Ok_0->0.value, out)) by {
                        assert(decode.ensures((&kv.value,), r));
                    }
                    assert(reads_payment_at(*store, *decode, all[i as int].key, out));
                    assert(store.exact() ==> reads_payment(
                        *decode,
                        c[all[i as int].key].value,
                        out,
                    ));
                    match r {
                        Ok(p) => {
                            times.push(p.paid_at);
                            found.push(p);
                            assert(payment_views(found@) =~= before.push(p@));
                            assert(payment_views(found@).drop_last() =~= before);
                            assert(times@ =~= payment_times(payment_views(found@)));
                        },
                        Err(_) => {},
                    }
                },
            }
            i = i + 1;
        }
        assert(all.take(i as int) =~= all);
        let order = descending_order(&times);
        let mut out: Vec<PaymentRecord> = Vec::new();
        let mut j: usize = 0;
        while j < order.len()
            invariant
                j <= order@.len(),
                is_descending_order(times@, places(order@)),
                times@.len() == found@.len(),
                out@.len() == j,
                forall|k: int|
                    0 <= k < j ==> (#[trigger] out@[k])@ == payment_views(found@)[places(
                        order@,
                    )[k]],
            decreases order.len() - j,
        {
            assert(places(order@)[j as int] == order@[j as int]);
            out.push(found[order[j]].clone());
            j = j + 1;
        }
        assert(payment_views(out@) =~= at_places(payment_views(found@), places(order@)));
        assert(gathers_payments_sorted(*store, *decode, all, payment_views(out@)));
        Ok(out)
    }

    // -----------------------------------------------------------------------
    // The announcement
    // -----------------------------------------------------------------------

    /// The BOLT12 offer that storage is paid with: that of the wallet where one is
    /// connected, or else that of the configuration.
    pub open spec fn offer_text(&self) -> Seq<char> {
        match self.wallet_offer {
            Some(offer) => offer@,
            None => self.config.bolt12_offer@,
        }
    }

    /// The BOLT12 offer that storage is paid with.
    pub fn offer(&self) -> (s: String)
        ensures
            s@ == self.offer_text(),
    {
        match &self.wallet_offer {
            Some(offer) => offer.clone(),
            None => self.config.bolt12_offer.clone(),
        }
    }

    /// What the server advertises.
    pub open spec fn advertised(&self) -> AnnouncementView {
        AnnouncementView {
            name: self.config.name@,
            description: self.config.description@,
            endpoint: self.config.public_endpoint@,
            bolt12_offer: self.offer_text(),
            price_sats_per_mib: self.config.price_sats_per_mib,
            billing_period_secs: self.config.billing_period_secs,
            max_backup_bytes: self.config.max_backup_bytes,
            kinds: seq![BackupKind::Lightning, BackupKind::Rgb, BackupKind::Other],
            pivss_version: PIVSS_VERSION@,
        }
    }

    /// What the server advertises.
    pub fn announcement(&self) -> (a: ServiceAnnouncement)
        ensures
            a@ == self.advertised(),
    {
        let mut kinds: Vec<BackupKind> = Vec::new();
        kinds.push(BackupKind::Lightning);
        kinds.push(BackupKind::Rgb);
        kinds.push(BackupKind::Other);
        assert(kinds@ =~= seq![BackupKind::Lightning, BackupKind::Rgb, BackupKind::Other]);
        ServiceAnnouncement {
            name: self.config.name.clone(),
            description: self.config.description.clone(),
            endpoint: self.config.public_endpoint.clone(),
            bolt12_offer: self.offer(),
            price_sats_per_mib: self.config.price_sats_per_mib,
            billing_period_secs: self.config.billing_period_secs,
            max_backup_bytes: self.config.max_backup_bytes,
            kinds,
            pivss_version: PIVSS_VERSION.to_owned(),
        }
    }
}

impl AppState {
    /// Records a payment that the wallet has received. The note of the payer is the
    /// id of the backup that is paid for; a payment without a note is nobody's, and
    /// is not recorded.
    pub fn match_and_record_incoming_payment<
        S: VersionedStore,
        D: Fn(&Vec<u8>) -> Result<BackupManifest, String>,
    >(&self, store: &mut S, decode: &D, payment: &IncomingPayment) -> (res: Result<
        Option<PaymentRecord>,
        ServiceError,
    >)
        requires
            forall|b: &Vec<u8>| #[trigger] decode.requires((b,)),
        ensures
            match payment.payer_note {
                None => res matches Ok(None) && *final(store) == *old(store),
                Some(backup_id) => if payment.amount_sat * 1000 > u64::MAX {
                    &&& res matches Err(e)
                    &&& e@ == ServiceErrorView::Internal("payment amount out of range"@)
                    &&& *final(store) == *old(store)
                } else {
                    &&& !(res matches Ok(None))
                    &&& exists|id: [u8; 8], now: u64| #[trigger]
                        drawn(id) && #[trigger] clock_reading(now) && payment_outcome(
                            *decode,
                            *old(store),
                            payment_of(
                                id@,
                                backup_id@,
                                (payment.amount_sat * 1000) as u64,
                                now,
                                "bolt12"@,
                                optional_text(payment.payment_hash),
                            ),
                            *final(store),
                            incoming_view(res),
                        )
                    &&& res matches Ok(Some(p)) ==> is_payment_now(
                        p@,
                        backup_id@,
                        (payment.amount_sat * 1000) as u64,
                        "bolt12"@,
                        optional_text(payment.payment_hash),
                    )
                },
            },
    {
        match &payment.payer_note {
            None => Ok(None),
            Some(backup_id) => match payment.amount_sat.checked_mul(1000) {
                None => Err(ServiceError::Internal("payment amount out of range".to_owned())),
                Some(amount_msat) => {
                    let note: Option<String> = match &payment.payment_hash {
                        Some(hash) => Some(hash.clone()),
                        None => None,
                    };
                    match self.record_payment(
                        store,
                        decode,
                        backup_id.as_str(),
                        amount_msat,
                        "bolt12",
                        note,
                    ) {
                        Ok(p) => Ok(Some(p)),
                        Err(e) => Err(e),
                    }
                },
            },
        }
    }
}

/// What recording a payment of the wallet returns, where it has a note, in
/// mathematical terms.
pub open spec fn incoming_view(res: Result<Option<PaymentRecord>, ServiceError>) -> Result<
    PaymentView,
    ServiceErrorView,
> {
    match res {
        Ok(Some(p)) => Ok(p@),
        Ok(None) => Err(ServiceErrorView::Internal(Seq::empty())),
        Err(e) => Err(e@),
    }
}

// ---------------------------------------------------------------------------
// Laws
// ---------------------------------------------------------------------------

/// Whether what was found of a backup is what the store holds of it.
pub open spec fn found_in(c: Contents, id: Seq<char>, found: Option<(ManifestView, i64)>) -> bool {
    match (found, looked_up(c, meta_key_of(id))) {
        (Some((_, v)), Some(kv)) => kv.version == v,
        (None, None) => true,
        _ => false,
    }
}

/// Whether an upload was carried through: it was planned from what the store held,
/// and its bytes could be written.
pub open spec fn upload_succeeds(
    u: Upload,
    found: Option<(ManifestView, i64)>,
    plan: PlanView,
    c: Contents,
) -> bool {
    &&& planned(u, found) == Ok::<PlanView, ServiceErrorView>(plan)
    &&& found_in(c, backup_id_of(u.filename, u.kind), found)
    &&& next_version(c, plan.data_key, 0) is Some
}

/// What was uploaded is what is restored, byte for byte.
pub proof fn law_upload_then_restore(
    u: Upload,
    found: Option<(ManifestView, i64)>,
    plan: PlanView,
    c: Contents,
)
    requires
        upload_succeeds(u, found, plan, c),
    ensures
        restored(
            with_upload(c, plan, u.data),
            backup_id_of(u.filename, u.kind),
            plan.version.version,
        ) == Ok::<Seq<u8>, ServiceErrorView>(u.data),
{
    let id = backup_id_of(u.filename, u.kind);
    law_meta_key_apart(id, id, plan.version.version as nat);
}

/// An upload leaves every other version of every backup as it was: history is kept.
pub proof fn law_upload_keeps_history(
    u: Upload,
    found: Option<(ManifestView, i64)>,
    plan: PlanView,
    c: Contents,
    id: Seq<char>,
    version: u64,
)
    requires
        upload_succeeds(u, found, plan, c),
        id != backup_id_of(u.filename, u.kind) || version != plan.version.version,
    ensures
        restored(with_upload(c, plan, u.data), id, version) == restored(c, id, version),
{
    let own = backup_id_of(u.filename, u.kind);
    law_meta_key_apart(own, id, version as nat);
    if data_key_of(id, version as nat) == plan.data_key {
        law_data_key_determines(id, version as nat, own, plan.version.version as nat);
    }
}

/// An upload adds one version behind those that the backup had, with the next
/// number, and the store holds the manifest that says so.
pub proof fn law_upload_adds_version(
    u: Upload,
    found: Option<(ManifestView, i64)>,
    plan: PlanView,
    c: Contents,
)
    requires
        upload_succeeds(u, found, plan, c),
    ensures
        plan.version.version == base_manifest(u, found).0.latest_version + 1,
        plan.manifest.latest_version == plan.version.version,
        plan.manifest.versions == base_manifest(u, found).0.versions.push(plan.version),
        plan.version.size == u.data.len() as u64,
        plan.version.sha256 == to_hex(sha256(u.data)@),
        looked_up(
            with_upload(c, plan, u.data),
            meta_key_of(backup_id_of(u.filename, u.kind)),
        ) matches Some(kv) && kv.value == manifest_bytes(plan.manifest),
{
    lemma_manifest_written(u, found, plan, c);
}

/// Whether a reader of manifests gives back what was stored.
pub open spec fn reads_back<D: Fn(&Vec<u8>) -> Result<BackupManifest, String>>(decode: D) -> bool {
    forall|m: ManifestView, r: Result<ManifestView, Seq<char>>| #[trigger]
        reads(decode, manifest_bytes(m), r) ==> r == Ok::<ManifestView, Seq<char>>(m)
}

/// The next upload of the same file name and kind goes on from the one before: it
/// is of the same backup, and has the next number.
pub proof fn law_next_upload_follows<D: Fn(&Vec<u8>) -> Result<BackupManifest, String>>(
    decode: D,
    first: Upload,
    found: Option<(ManifestView, i64)>,
    plan: PlanView,
    c: Contents,
    second: Upload,
    again: Result<Option<(ManifestView, i64)>, ServiceErrorView>,
)
    requires
        reads_back(decode),
        upload_succeeds(first, found, plan, c),
        second.filename == first.filename,
        second.kind == first.kind,
        finds(
            decode,
            with_upload(c, plan, first.data),
            backup_id_of(second.filename, second.kind),
            again,
        ),
        plan.version.version < u64::MAX,
        plan.meta_version < i64::MAX - 1,
    ensures
        again matches Ok(f) && f matches Some((m, _)) && m == plan.manifest,
        planned(second, again->Ok_0) matches Ok(next) && {
            &&& next.version.version == plan.version.version + 1
            &&& next.manifest.backup_id == plan.manifest.backup_id
            &&& next.manifest.versions == plan.manifest.versions.push(next.version)
        },
{
    law_upload_adds_version(first, found, plan, c);
}

/// A server that has stored a backup can prove it: its answer to any challenge, for
/// the version that was stored or for the latest one, is accepted by a client that
/// holds the bytes.
pub proof fn law_stored_backup_proves(
    u: Upload,
    found: Option<(ManifestView, i64)>,
    plan: PlanView,
    c: Contents,
    challenge: ChallengeView,
    version: Option<u64>,
)
    requires
        upload_succeeds(u, found, plan, c),
        version matches Some(v) ==> v == plan.version.version,
    ensures
        answered(
            with_upload(c, plan, u.data),
            backup_id_of(u.filename, u.kind),
            version,
            challenge,
            Ok(plan.manifest),
        ) matches Ok((p, v)) && v == plan.version.version && accepts(challenge, u.data, p),
{
    law_upload_then_restore(u, found, plan, c);
}

/// Two series share an id only where the digests of their names and kinds agree in
/// the first eight bytes, and the texts of those names and kinds differ.
pub proof fn law_backup_id_binds_series(
    a: Seq<char>,
    a_kind: BackupKind,
    b: Seq<char>,
    b_kind: BackupKind,
)
    requires
        backup_id_of(a, a_kind) == backup_id_of(b, b_kind),
        a != b || a_kind != b_kind,
    ensures
        ({
            let x = encode_utf8(kind_name(a_kind) + "|"@ + a);
            let y = encode_utf8(kind_name(b_kind) + "|"@ + b);
            x != y && sha256(x)@.subrange(0, 8) == sha256(y)@.subrange(0, 8)
        }),
{
    let (s, t) = (kind_name(a_kind) + "|"@ + a, kind_name(b_kind) + "|"@ + b);
    let (x, y) = (encode_utf8(s), encode_utf8(t));
    lemma_hex_injective(sha256(x)@.subrange(0, 8), sha256(y)@.subrange(0, 8));
    if x == y {
        lemma_utf8_injective(s, t);
        reveal_strlit("lightning");
        reveal_strlit("rgb");
        reveal_strlit("other");
        reveal_strlit("|");
        assert(s[0] == kind_name(a_kind)[0]);
        assert(t[0] == kind_name(b_kind)[0]);
        assert(a_kind == b_kind);
        lemma_concat_split(kind_name(a_kind) + "|"@, a, kind_name(b_kind) + "|"@, b);
    }
}

/// A payment that is recorded can be read back, and leaves every backup as it was.
pub proof fn law_payment_kept_apart(
    c: Contents,
    m: ManifestView,
    p: PaymentView,
    id: Seq<char>,
    version: u64,
)
    requires
        recorded_payment(c, Ok(m), p) is Ok,
    ensures
        looked_up(with_payment(c, Ok(m), p), payment_key_of(p.payment_id)) matches Some(kv)
            && kv.value == payment_bytes(p),
        restored(with_payment(c, Ok(m), p), id, version) == restored(c, id, version),
        looked_up(with_payment(c, Ok(m), p), meta_key_of(id)) == looked_up(c, meta_key_of(id)),
{
    reveal_strlit("payments/");
    reveal_strlit("backups/");
    let k = payment_key_of(p.payment_id);
    assert(k[0] == 'p');
    assert(meta_key_of(id)[0] == 'b');
    assert(data_key_of(id, version as nat)[0] == 'b');
}

/// What can be read under a listed key of a manifest is among what was read.
proof fn lemma_read_manifest_found<D: Fn(&Vec<u8>) -> Result<BackupManifest, String>>(
    decode: D,
    c: Contents,
    keys: Seq<KeyValueView>,
    found: Seq<ManifestView>,
    at: int,
    m: ManifestView,
)
    requires
        reads_manifests(decode, c, keys, found),
        0 <= at < keys.len(),
        ends_in(keys[at].key, "/meta"@),
        forall|r: Result<ManifestView, Seq<char>>| #[trigger]
            reads(decode, c[keys[at].key].value, r) ==> r == Ok::<ManifestView, Seq<char>>(m),
    ensures
        found.contains(m),
    decreases keys.len(),
{
    let last = keys.last().key;
    let rest = keys.drop_last();
    if ends_in(last, "/meta"@) {
        let r = choose|r: Result<ManifestView, Seq<char>>|
            {
                &&& #[trigger] reads(decode, c[last].value, r)
                &&& match r {
                    Ok(m) => found.len() > 0 && found.last() == m && reads_manifests(
                        decode,
                        c,
                        rest,
                        found.drop_last(),
                    ),
                    Err(_) => reads_manifests(decode, c, rest, found),
                }
            };
        if at < rest.len() {
            assert(rest[at] == keys[at]);
            match r {
                Ok(_) => {
                    lemma_read_manifest_found(decode, c, rest, found.drop_last(), at, m);
                    let i = choose|i: int|
                        0 <= i < found.drop_last().len() && found.drop_last()[i] == m;
                    assert(found[i] == m);
                },
                Err(_) => {
                    lemma_read_manifest_found(decode, c, rest, found, at, m);
                },
            }
        } else {
            assert(found[found.len() - 1] == m);
        }
    } else {
        assert(rest[at] == keys[at]);
        lemma_read_manifest_found(decode, c, rest, found, at, m);
    }
}

/// What can be read under a key of a manifest is in the list of all backups.
pub proof fn lemma_manifest_listed<D: Fn(&Vec<u8>) -> Result<BackupManifest, String>>(
    decode: D,
    c: Contents,
    key: Seq<char>,
    m: ManifestView,
    out: Seq<ManifestView>,
)
    requires
        lists_backups(decode, c, out),
        c.contains_key(key),
        begins_with(key, "backups/"@),
        ends_in(key, "/meta"@),
        forall|r: Result<ManifestView, Seq<char>>| #[trigger]
            reads(decode, c[key].value, r) ==> r == Ok::<ManifestView, Seq<char>>(m),
    ensures
        out.contains(m),
{
    let (keys, read, p) = choose|keys: Seq<KeyValueView>, read: Seq<ManifestView>, p: Seq<int>|
        {
            &&& is_listing(c, "backups/"@, keys)
            &&& #[trigger] reads_manifests(decode, c, keys, read)
            &&& #[trigger] is_descending_order(update_times(read), p)
            &&& out == at_places(read, p)
        };
    let at = choose|i: int| 0 <= i < keys.len() && #[trigger] keys[i].key == key;
    lemma_read_manifest_found(decode, c, keys, read, at, m);
    let k = choose|k: int| 0 <= k < read.len() && read[k] == m;
    law_order_complete(update_times(read), p);
    assert(p.contains(k));
    let i = choose|i: int| 0 <= i < p.len() && p[i] == k;
    assert(out[i] == m);
}

/// A backup that was uploaded is in the list of all backups.
pub proof fn law_uploaded_backup_listed<D: Fn(&Vec<u8>) -> Result<BackupManifest, String>>(
    decode: D,
    u: Upload,
    found: Option<(ManifestView, i64)>,
    plan: PlanView,
    c: Contents,
    out: Seq<ManifestView>,
)
    requires
        reads_back(decode),
        upload_succeeds(u, found, plan, c),
        lists_backups(decode, with_upload(c, plan, u.data), out),
    ensures
        out.contains(plan.manifest),
{
    law_upload_adds_version(u, found, plan, c);
    let key = meta_key_of(backup_id_of(u.filename, u.kind));
    assert(begins_with(key, "backups/"@)) by {
        assert(key.take("backups/"@.len() as int) =~= "backups/"@);
    }
    assert(ends_in(key, "/meta"@)) by {
        assert(key.skip(key.len() - "/meta"@.len()) =~= "/meta"@);
    }
    lemma_manifest_listed(decode, with_upload(c, plan, u.data), key, plan.manifest, out);
}

/// An upload is stamped with its time: the version that it adds and the manifest have it, and
/// so has a manifest that is new; one that was there keeps when it was created.
pub proof fn law_upload_stamped(u: Upload, found: Option<(ManifestView, i64)>, plan: PlanView)
    requires
        planned(u, found) == Ok::<PlanView, ServiceErrorView>(plan),
    ensures
        plan.version.created_at == u.now,
        plan.manifest.updated_at == u.now,
        plan.manifest.versions.last() == plan.version,
        match found {
            Some((m, _)) => plan.manifest.created_at == m.created_at,
            None => plan.manifest.created_at == u.now,
        },
{
}

/// An upload keeps what a backup is: its id, file name and kind, its label where the upload
/// has none, and all versions that it had. A first upload gives it what it has.
pub proof fn law_upload_keeps_identity(
    u: Upload,
    found: Option<(ManifestView, i64)>,
    plan: PlanView,
    i: int,
)
    requires
        planned(u, found) == Ok::<PlanView, ServiceErrorView>(plan),
    ensures
        match found {
            Some((m, _)) => {
                &&& plan.manifest.backup_id == m.backup_id
                &&& plan.manifest.filename == m.filename
                &&& plan.manifest.kind == m.kind
                &&& plan.manifest.label == (if u.label.len() == 0 {
                    m.label
                } else {
                    u.label
                })
                &&& plan.manifest.versions.len() == m.versions.len() + 1
                &&& 0 <= i < m.versions.len() ==> plan.manifest.versions[i] == m.versions[i]
                &&& plan.version.version == m.latest_version + 1
            },
            None => {
                &&& plan.manifest.backup_id == backup_id_of(u.filename, u.kind)
                &&& plan.manifest.filename == u.filename
                &&& plan.manifest.kind == u.kind
                &&& plan.manifest.label == u.label
                &&& plan.manifest.versions.len() == 1
                &&& plan.version.version == 1
            },
        },
        plan.version.size == u.data.len() as u64,
        plan.version.sha256 == to_hex(sha256(u.data)@),
        plan.files.payload == u.data,
{
    assert(u.label.len() == 0 ==> u.label =~= Seq::<char>::empty());
}

/// The version of an upload tells of the torrent whose files are written: its infohash and
/// magnet link are those of a torrent of the bytes under the name of the payload, and that name
/// is made of the id of the backup, the number of the version and the file name.
pub proof fn law_upload_torrent_is_of_its_bytes(
    u: Upload,
    found: Option<(ManifestView, i64)>,
    plan: PlanView,
)
    requires
        planned(u, found) == Ok::<PlanView, ServiceErrorView>(plan),
    ensures
        plan.version.infohash == infohash_of(plan.files.name, u.data),
        plan.version.magnet == magnet_of(plan.files.name, u.data, u.trackers),
        plan.files.metainfo == metainfo_of(plan.files.name, u.data, u.trackers),
        plan.files.torrent_name == plan.files.name + ".torrent"@,
        plan.files.dir == backup_id_of(u.filename, u.kind) + "-v"@ + decimal(
            plan.version.version as nat,
        ),
        plan.files.name == plan.files.dir + "-"@ + u.filename,
{
}

/// Two payments whose draws differ are both recorded, whatever they are for, how much they are
/// of, how and when they were made and what their notes say: each stands under its own draw.
pub proof fn law_payments_of_two_draws_both_recorded(
    c: Contents,
    backup_a: ManifestView,
    backup_b: ManifestView,
    a: Seq<u8>,
    b: Seq<u8>,
    first: PaymentView,
    second: PaymentView,
)
    requires
        a != b,
        !c.contains_key("payments/"@ + to_hex(a)),
        !c.contains_key("payments/"@ + to_hex(b)),
        first == payment_of(
            a,
            first.backup_id,
            first.amount_msat,
            first.paid_at,
            first.method,
            first.note,
        ),
        second == payment_of(
            b,
            second.backup_id,
            second.amount_msat,
            second.paid_at,
            second.method,
            second.note,
        ),
    ensures
        first.payment_id == to_hex(a),
        second.payment_id == to_hex(b),
        recorded_payment(c, Ok(backup_a), first) == Ok::<PaymentView, ServiceErrorView>(first),
        recorded_payment(with_payment(c, Ok(backup_a), first), Ok(backup_b), second) == Ok::<
            PaymentView,
            ServiceErrorView,
        >(second),
        ({
            let after = with_payment(with_payment(c, Ok(backup_a), first), Ok(backup_b), second);
            &&& looked_up(after, "payments/"@ + to_hex(a)) matches Some(kv) && kv.value
                == payment_bytes(first)
            &&& looked_up(after, "payments/"@ + to_hex(b)) matches Some(kv) && kv.value
                == payment_bytes(second)
        }),
{
    if "payments/"@ + to_hex(a) == "payments/"@ + to_hex(b) {
        lemma_concat_split("payments/"@, to_hex(a), "payments/"@, to_hex(b));
        lemma_hex_injective(a, b);
    }
}

/// A payment under an id is made of what is handed in, and of the id.
pub proof fn law_payment_made_of_its_parts(
    id: Seq<u8>,
    backup_id: Seq<char>,
    amount_msat: u64,
    paid_at: u64,
    method: Seq<char>,
    note: Option<Seq<char>>,
)
    ensures
        ({
            let p = payment_of(id, backup_id, amount_msat, paid_at, method, note);
            &&& p.payment_id == to_hex(id)
            &&& p.backup_id == backup_id
            &&& p.amount_msat == amount_msat
            &&& p.paid_at == paid_at
            &&& p.method == method
            &&& p.note == note
        }),
{
}

/// A payment for a backup that cannot be had is not recorded, and changes nothing; one under
/// an id that is taken, with a version from one on, is refused as a conflict, and changes
/// nothing.
pub proof fn law_payment_refused(
    c: Contents,
    backup: Result<ManifestView, ServiceErrorView>,
    p: PaymentView,
)
    ensures
        backup matches Err(e) ==> recorded_payment(c, backup, p) == Err::<
            PaymentView,
            ServiceErrorView,
        >(e) && with_payment(c, backup, p) == c,
        backup is Ok && c.contains_key("payments/"@ + p.payment_id)
            && c["payments/"@ + p.payment_id].version != 0 ==> recorded_payment(c, backup, p)
            == Err::<PaymentView, ServiceErrorView>(
            ServiceErrorView::Store(StoreErrorView::Conflict("payments/"@ + p.payment_id)),
        ) && with_payment(c, backup, p) == c,
{
}

} // verus!
