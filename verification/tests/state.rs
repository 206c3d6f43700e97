use pivss::announce::{build_announcement_event, PublishOutcome};
use pivss::api::{payments_total_msat, stored_bytes, upload_kind, ServiceInfo};
use pivss::client::{sha256_hex, ApiClient, ChallengeResponse};
use pivss::config::{Config, TorrentConfig};
use pivss::ln::IncomingPayment;
use pivss::manifest::{
    BackupKind, BackupManifest, BackupVersion, PaymentRecord, ServiceAnnouncement,
};
use pivss::nostr::{verify_event, NostrKeys, SERVICE_ANNOUNCEMENT_KIND};
use pivss::proto::{
    ErrorResponse, GetObjectRequest, GetObjectResponse, ListKeyVersionsRequest,
    ListKeyVersionsResponse, Message, PutObjectRequest, PutObjectResponse,
};
use pivss::seeder::{CarlSeeder, NoopSeeder, SeedStatus, Seeder};
use pivss::state::{
    backup_id, data_key, meta_key, AppState, SeedFiles, SeedPaths, SeedWriteError, ServiceError, PIVSS_VERSION,
};
use pivss::storage_proof::{make_challenge, verify_proof, StorageChallenge};
use pivss::store::{
    MemoryStore, SigningKey, StoreError, VersionedStore, VssHttpStore, VssReply, VssRequest,
};
use serde_json::Value;
use std::cell::RefCell;

fn text(v: &Value, key: &str) -> Option<String> {
    v[key].as_str().map(str::to_string)
}

fn read_kind(v: &Value) -> Option<BackupKind> {
    match v.as_str()? {
        "lightning" => Some(BackupKind::Lightning),
        "rgb" => Some(BackupKind::Rgb),
        "other" => Some(BackupKind::Other),
        _ => None,
    }
}

fn read_version(v: &Value) -> Option<BackupVersion> {
    Some(BackupVersion {
        version: v["version"].as_u64()?,
        size: v["size"].as_u64()?,
        sha256: text(v, "sha256")?,
        created_at: v["created_at"].as_u64()?,
        infohash: text(v, "infohash")?,
        magnet: text(v, "magnet")?,
    })
}

fn read_manifest(bytes: &Vec<u8>) -> Result<BackupManifest, String> {
    let v: Value = serde_json::from_slice(bytes).map_err(|_| "no JSON".to_string())?;
    let read = || {
        Some(BackupManifest {
            backup_id: text(&v, "backup_id")?,
            label: text(&v, "label")?,
            filename: text(&v, "filename")?,
            kind: read_kind(&v["kind"])?,
            latest_version: v["latest_version"].as_u64()?,
            versions: v["versions"]
                .as_array()?
                .iter()
                .map(read_version)
                .collect::<Option<Vec<_>>>()?,
            created_at: v["created_at"].as_u64()?,
            updated_at: v["updated_at"].as_u64()?,
        })
    };
    read().ok_or_else(|| "a field is missing".to_string())
}

fn read_payment(bytes: &Vec<u8>) -> Result<PaymentRecord, String> {
    let v: Value = serde_json::from_slice(bytes).map_err(|_| "no JSON".to_string())?;
    let read = || {
        Some(PaymentRecord {
            payment_id: text(&v, "payment_id")?,
            backup_id: text(&v, "backup_id")?,
            amount_msat: v["amount_msat"].as_u64()?,
            paid_at: v["paid_at"].as_u64()?,
            method: text(&v, "method")?,
            note: text(&v, "note"),
        })
    };
    read().ok_or_else(|| "a field is missing".to_string())
}

fn write_nothing(files: &SeedFiles) -> Result<SeedPaths, SeedWriteError> {
    Ok(SeedPaths {
        torrent_path: format!("seeds/{}/{}", files.dir, files.torrent_name),
        data_dir: format!("seeds/{}", files.dir),
    })
}

fn state() -> AppState {
    AppState {
        config: Config {
            bolt12_offer: "lno1qqtestofferpivss".to_string(),
            torrent: TorrentConfig { enable: false, ..Default::default() },
            ..Default::default()
        },
        keys: NostrKeys::generate(),
        started_at: 100,
        wallet_offer: None,
    }
}

type Stored = (BackupManifest, BackupVersion, SeedStatus, u64);

struct Server {
    state: AppState,
    store: MemoryStore,
    seeder: NoopSeeder,
}

impl Server {
    fn new() -> Server {
        Server {
            state: state(),
            store: MemoryStore::default(),
            seeder: NoopSeeder::new("torrent seeding disabled in config"),
        }
    }

    fn upload(&mut self, name: &str, label: &str, data: &[u8]) -> Result<Stored, ServiceError> {
        self.state.store_backup(
            &mut self.store,
            &mut self.seeder,
            &read_manifest,
            write_nothing,
            name,
            BackupKind::Lightning,
            label,
            data.to_vec(),
        )
    }

    fn upload_at(&mut self, name: &str, label: &str, data: &[u8], now: u64) -> Stored {
        self.state
            .store_backup_at(
                &mut self.store,
                &mut self.seeder,
                &read_manifest,
                write_nothing,
                name,
                BackupKind::Other,
                label,
                data.to_vec(),
                now,
            )
            .unwrap()
    }

    fn data(&self, id: &str, version: u64) -> Result<Vec<u8>, ServiceError> {
        self.state.get_backup_data(&self.store, id, version)
    }

    fn answer(
        &self,
        id: &str,
        version: Option<u64>,
        challenge: &StorageChallenge,
    ) -> Result<ChallengeResponse, String> {
        let (proof, version) = self
            .state
            .answer_challenge(&self.store, &read_manifest, id, version, challenge)
            .map_err(|e| e.to_string())?;
        Ok(ChallengeResponse { proof, version })
    }

    fn backups(&self) -> Vec<BackupManifest> {
        self.state.list_backups(&self.store, &read_manifest).unwrap()
    }

    fn info(&self) -> ServiceInfo {
        self.state
            .info(&self.store, &self.seeder, &read_manifest, &read_payment, 160)
            .unwrap()
    }

    fn payments(&self) -> Vec<PaymentRecord> {
        self.state.list_payments(&self.store, &read_payment).unwrap()
    }
}

const TEST_BACKUP: &[u8] = br#"{"node":"demo","channels":[{"id":1,"balance_msat":5000}]}"#;

#[test]
fn full_backup_lifecycle() {
    let mut server = Server::new();
    let client = ApiClient::new("http://localhost");

    // Service info includes the announcement.
    let info = server.info();
    assert_eq!(info.announcement.bolt12_offer, "lno1qqtestofferpivss");
    assert!(info.npub.starts_with("npub1"));

    // Upload v1 of the example test file.
    let (m1, v1, _, quote1) = server
        .upload("test-backup.json", "example node state", TEST_BACKUP)
        .unwrap();
    assert_eq!(v1.version, 1);
    assert_eq!(m1.latest_version, 1);
    assert!(v1.magnet.starts_with("magnet:?xt=urn:btih:"));
    assert_eq!(v1.sha256, sha256_hex(TEST_BACKUP));
    assert!(quote1 > 0);

    // Upload a modified state → same backup id, version 2.
    let mut v2_data = TEST_BACKUP.to_vec();
    v2_data.extend_from_slice(b"\n// channel state update");
    let (m2, v2, _, quote2) = server.upload("test-backup.json", "", &v2_data).unwrap();
    assert_eq!(m2.backup_id, m1.backup_id);
    assert_eq!(v2.version, 2);
    assert_eq!(m2.versions.len(), 2);
    // v2 content differs → different torrent infohash.
    assert_ne!(v1.infohash, v2.infohash);

    let id = m1.backup_id.clone();

    // Both versions restorable, byte-exact.
    assert_eq!(server.data(&id, 1).unwrap(), TEST_BACKUP);
    assert_eq!(server.data(&id, 2).unwrap(), v2_data);

    // Proof-of-storage on latest (v2) verifies against our local copy...
    let outcome = client.verify(&v2_data, &|c| server.answer(&id, None, c)).unwrap();
    assert!(outcome.ok);
    assert_eq!(outcome.version, 2);

    // ...and fails against the wrong local data (v1 vs latest v2).
    let stale = client.verify(TEST_BACKUP, &|c| server.answer(&id, None, c)).unwrap();
    assert!(!stale.ok);

    // Explicit historical version still provable.
    let hist = client.verify(TEST_BACKUP, &|c| server.answer(&id, Some(1), c)).unwrap();
    assert!(hist.ok);

    // A proof for one challenge can't satisfy a different one (fresh nonce).
    let ch_a = make_challenge(v2_data.len() as u64, 3);
    let ch_b = make_challenge(v2_data.len() as u64, 3);
    let resp_a = server.answer(&id, None, &ch_a).unwrap();
    assert!(verify_proof(&ch_a, &v2_data, &resp_a.proof));
    assert!(!verify_proof(&ch_b, &v2_data, &resp_a.proof));

    // Proof OK → client releases payment; server records earnings.
    let payment = server
        .state
        .claim_payment(
            &mut server.store,
            &read_manifest,
            &id,
            quote2,
            Some("mock".to_string()),
            Some("watch round 1".to_string()),
        )
        .unwrap();
    assert_eq!(payment.amount_msat, quote2);

    let info = server.info();
    assert_eq!(info.payments_count, 1);
    assert_eq!(info.payments_total_msat, Some(quote2));
    assert_eq!(info.backups_count, 1);

    // Unknown backup 404s.
    let e = server.data("ffffffffffffffff", 1).unwrap_err();
    assert_eq!(e.status(), 404);
}

#[test]
fn announcement_event_is_valid_and_addressable() {
    let keys = NostrKeys::generate();
    let ann = ServiceAnnouncement {
        name: "test".into(),
        description: "d".into(),
        endpoint: "http://localhost:8339".into(),
        bolt12_offer: "lno1test".into(),
        price_sats_per_mib: 21,
        billing_period_secs: 86_400,
        max_backup_bytes: 1024,
        kinds: vec![BackupKind::Lightning, BackupKind::Rgb],
        pivss_version: "0.1.0".into(),
    };
    let ev = build_announcement_event(&keys, &ann, 1_700_000_000);
    assert_eq!(ev.kind, SERVICE_ANNOUNCEMENT_KIND);
    assert!(verify_event(&ev));
    assert!(ev.tags.iter().any(|t| t[0] == "d"));
    let parsed: Value = serde_json::from_str(&ev.content).unwrap();
    assert_eq!(parsed["price_sats_per_mib"], 21);
}

#[test]
fn backup_ids_are_exact() {
    assert_eq!(backup_id("test-backup.json", BackupKind::Lightning), "0fd17b6e8ca9e3f6");
    assert_eq!(backup_id("a.json", BackupKind::Other), "57b144eff882bd4f");
    assert_ne!(backup_id("a.json", BackupKind::Rgb), backup_id("a.json", BackupKind::Other));
}

#[test]
fn uploads_are_laid_out_exactly() {
    let mut server = Server::new();
    let id = "57b144eff882bd4f";
    let (m, v, status, quote) = server.upload_at("a.json", "one", b"first", 1_000);
    assert_eq!(m.backup_id, id);
    assert_eq!(m.filename, "a.json");
    assert_eq!((m.created_at, m.updated_at), (1_000, 1_000));
    assert_eq!((v.version, v.size, v.created_at), (1, 5, 1_000));
    assert_eq!(quote, 100_000);
    assert_eq!(status.infohash, v.infohash);
    assert_eq!(
        status.torrent_path,
        "seeds/57b144eff882bd4f-v1/57b144eff882bd4f-v1-a.json.torrent"
    );
    assert!(v.magnet.ends_with("&dn=57b144eff882bd4f-v1-a.json"));
    let (m, v, _, _) = server.upload_at("a.json", "", b"second", 2_000);
    assert_eq!(v.version, 2);
    assert_eq!((m.created_at, m.updated_at), (1_000, 2_000));
    // An empty label leaves the old one.
    assert_eq!(m.label, "one");
    let (m, _, _, _) = server.upload_at("a.json", "two", b"", 3_000);
    assert_eq!(m.label, "two");
    let keys: Vec<String> =
        server.store.list("").unwrap().into_iter().map(|kv| kv.key).collect();
    assert_eq!(
        keys,
        vec![
            format!("backups/{id}/meta"),
            format!("backups/{id}/v1"),
            format!("backups/{id}/v2"),
            format!("backups/{id}/v3"),
        ]
    );
    assert_eq!(server.data(id, 1).unwrap(), b"first");
    assert_eq!(server.data(id, 2).unwrap(), b"second");
    assert_eq!(server.data(id, 3).unwrap(), b"");
    assert_eq!(server.seeder.statuses().len(), 3);
    let stored = server.store.get(&format!("backups/{id}/meta")).unwrap().unwrap();
    assert_eq!(stored.version, 3);
    assert_eq!(stored.value, m.to_json().into_bytes());
}

#[test]
fn large_uploads_are_refused() {
    let mut server = Server::new();
    server.state.config.max_backup_bytes = 4;
    let e = server.upload("a", "", b"12345").unwrap_err();
    assert_eq!(e.status(), 413);
    assert_eq!(e.to_string(), "backup too large: 5 bytes (max 4)");
    assert!(server.store.list("").unwrap().is_empty());
    assert!(server.seeder.statuses().is_empty());
    assert!(server.upload("a", "", b"1234").is_ok());
}

#[test]
fn an_upload_that_cannot_write_its_files_fails() {
    for (fail, want) in [
        (0, "seed dir: full"),
        (1, "seed file: full"),
        (2, "torrent file: full"),
    ] {
        let mut server = Server::new();
        let e = server
            .state
            .store_backup_at(
                &mut server.store,
                &mut server.seeder,
                &read_manifest,
                |_: &SeedFiles| {
                    let full = "full".to_string();
                    Err(match fail {
                        0 => SeedWriteError::Dir(full),
                        1 => SeedWriteError::Payload(full),
                        _ => SeedWriteError::Torrent(full),
                    })
                },
                "a.json",
                BackupKind::Other,
                "",
                b"x".to_vec(),
                1,
            )
            .unwrap_err();
        assert_eq!(e.to_string(), want);
        assert_eq!(e.status(), 500);
        // The bytes are there, the manifest is not, so the next upload conflicts.
        assert_eq!(server.data("57b144eff882bd4f", 1).unwrap(), b"x");
        assert!(server.backups().is_empty());
        let e = server
            .state
            .store_backup_at(
                &mut server.store,
                &mut server.seeder,
                &read_manifest,
                write_nothing,
                "a.json",
                BackupKind::Other,
                "",
                b"x".to_vec(),
                1,
            )
            .unwrap_err();
        assert!(matches!(e, ServiceError::Store(StoreError::Conflict(_))));
        assert_eq!(e.status(), 409);
        assert_eq!(e.to_string(), "version conflict on key backups/57b144eff882bd4f/v1");
    }
}

#[test]
fn a_corrupt_manifest_is_an_error() {
    let mut server = Server::new();
    server.upload("test-backup.json", "", b"x").unwrap();
    let key = "backups/0fd17b6e8ca9e3f6/meta";
    server.store.put(key, -1, b"{".to_vec()).unwrap();
    let e = server.upload("test-backup.json", "", b"y").unwrap_err();
    assert_eq!(e.to_string(), "corrupt manifest: no JSON");
    assert_eq!(e.status(), 500);
    // A list passes it over.
    assert!(server.backups().is_empty());
    assert!(server
        .state
        .get_backup(&server.store, &read_manifest, "0fd17b6e8ca9e3f6")
        .is_err());
}

#[test]
fn an_exhausted_counter_is_an_error() {
    let mut server = Server::new();
    let mut m = server.upload_at("a.json", "", b"x", 1).0;
    m.latest_version = u64::MAX;
    let key = "backups/57b144eff882bd4f/meta";
    server.store.put(key, -1, m.to_json().into_bytes()).unwrap();
    let e = server
        .state
        .plan_upload(Some((m, 1)), "a.json", BackupKind::Other, "", &vec![], 2)
        .err()
        .unwrap();
    assert_eq!(e.to_string(), "version counter exhausted");
}

#[test]
fn plans_are_exact() {
    let s = state();
    let plan = s
        .plan_upload(None, "a.json", BackupKind::Other, "l", &b"abc".to_vec(), 9)
        .unwrap();
    assert_eq!(plan.data_key, "backups/57b144eff882bd4f/v1");
    assert_eq!(plan.meta_key, "backups/57b144eff882bd4f/meta");
    assert_eq!(plan.meta_version, 0);
    assert_eq!(plan.files.dir, "57b144eff882bd4f-v1");
    assert_eq!(plan.files.name, "57b144eff882bd4f-v1-a.json");
    assert_eq!(plan.files.torrent_name, "57b144eff882bd4f-v1-a.json.torrent");
    assert_eq!(plan.files.payload, b"abc");
    assert_eq!(plan.files.metainfo[0], b'd');
    assert_eq!(
        plan.version.sha256,
        "ba7816bf8f01cfea414140de5dae2223b00361a396177a9cb410ff61f20015ad"
    );
    let next = s
        .plan_upload(
            Some((plan.manifest, 4)),
            "a.json",
            BackupKind::Other,
            "",
            &b"abcd".to_vec(),
            10,
        )
        .unwrap();
    assert_eq!(next.data_key, "backups/57b144eff882bd4f/v2");
    assert_eq!(next.meta_version, 4);
    assert_eq!(next.manifest.versions.len(), 2);
    assert_eq!(next.manifest.created_at, 9);
    assert_eq!(next.manifest.updated_at, 10);
}

#[test]
fn missing_backups_are_not_found() {
    let server = Server::new();
    let e = server.data("nope", 3).unwrap_err();
    assert_eq!(e.to_string(), "backup not found: nope v3");
    let e = server
        .state
        .get_backup(&server.store, &read_manifest, "nope")
        .unwrap_err();
    assert_eq!(e.to_string(), "backup not found: nope");
    let ch = make_challenge(1, 1);
    assert_eq!(
        server.answer("nope", None, &ch).err().unwrap(),
        "backup not found: nope"
    );
}

#[test]
fn a_challenge_of_a_missing_version_is_not_found() {
    let mut server = Server::new();
    let id = server.upload("a", "", b"x").unwrap().0.backup_id;
    let ch = make_challenge(1, 1);
    assert!(server.answer(&id, Some(1), &ch).is_ok());
    assert_eq!(
        server.answer(&id, Some(2), &ch).err().unwrap(),
        format!("backup not found: {id} v2")
    );
}

#[test]
fn backups_are_listed_newest_first() {
    let mut server = Server::new();
    server.upload_at("a", "", b"1", 10);
    server.upload_at("b", "", b"22", 30);
    server.upload_at("c", "", b"333", 20);
    server.upload_at("d", "", b"4444", 30);
    let listed = server.backups();
    let names: Vec<&str> = listed.iter().map(|m| m.filename.as_str()).collect();
    // b and d are equally new: they stay in the order of their keys.
    let b = backup_id("b", BackupKind::Other);
    let d = backup_id("d", BackupKind::Other);
    let want = if b < d { ["b", "d", "c", "a"] } else { ["d", "b", "c", "a"] };
    assert_eq!(names, want);
    assert_eq!(stored_bytes(&listed), Some(10));
    server.upload_at("a", "", b"1", 40);
    let listed = server.backups();
    assert_eq!(listed[0].filename, "a");
    assert_eq!(stored_bytes(&listed), Some(11));
}

#[test]
fn payments_are_recorded_for_backups_only() {
    let mut server = Server::new();
    let id = server.upload("a", "", b"x").unwrap().0.backup_id;
    let e = server
        .state
        .record_payment(&mut server.store, &read_manifest, "nope", 5, "mock", None)
        .unwrap_err();
    assert_eq!(e.status(), 404);
    assert!(server.payments().is_empty());
    let p = server
        .state
        .record_payment(
            &mut server.store,
            &read_manifest,
            &id,
            5,
            "mock",
            Some("n".to_string()),
        )
        .unwrap();
    assert_eq!(p.payment_id.len(), 16);
    let stored = server
        .store
        .get(&format!("payments/{}", p.payment_id))
        .unwrap()
        .unwrap();
    assert_eq!(stored.value, p.to_json().into_bytes());
    // The same id cannot be recorded twice.
    let e = server
        .state
        .record_payment_as(&mut server.store, &read_manifest, p)
        .unwrap_err();
    assert_eq!(e.status(), 409);
}

#[test]
fn payments_are_listed_latest_first() {
    let mut server = Server::new();
    let id = server.upload("a", "", b"x").unwrap().0.backup_id;
    for (n, at) in [("p1", 5), ("p2", 9), ("p3", 7)] {
        let record = PaymentRecord {
            payment_id: n.to_string(),
            backup_id: id.clone(),
            amount_msat: at,
            paid_at: at,
            method: "mock".to_string(),
            note: None,
        };
        server
            .state
            .record_payment_as(&mut server.store, &read_manifest, record)
            .unwrap();
    }
    // What is no payment is passed over.
    server.store.put("payments/p0", 0, b"junk".to_vec()).unwrap();
    let listed = server.payments();
    let ids: Vec<&str> = listed.iter().map(|p| p.payment_id.as_str()).collect();
    assert_eq!(ids, vec!["p2", "p3", "p1"]);
    assert_eq!(payments_total_msat(&listed), Some(21));
}

#[test]
fn a_claim_needs_no_wallet_to_be_connected() {
    let mut server = Server::new();
    let id = server.upload("a", "", b"x").unwrap().0.backup_id;
    let p = server
        .state
        .claim_payment(&mut server.store, &read_manifest, &id, 5, None, None)
        .unwrap();
    assert_eq!(p.method, "mock");
    server.state.wallet_offer = Some("lno1wallet".to_string());
    let e = server
        .state
        .claim_payment(&mut server.store, &read_manifest, &id, 5, None, None)
        .unwrap_err();
    assert_eq!(e.status(), 403);
    assert_eq!(server.payments().len(), 1);
    // The offer of the wallet takes the place of that of the configuration.
    assert_eq!(server.state.announcement().bolt12_offer, "lno1wallet");
    assert_eq!(server.state.offer(), "lno1wallet");
}

#[test]
fn incoming_payments_are_matched_by_their_note() {
    let mut server = Server::new();
    let id = server.upload("a", "", b"x").unwrap().0.backup_id;
    let payment = |note: Option<String>, amount_sat: u64| IncomingPayment {
        amount_sat,
        fees_sat: 1,
        payer_note: note,
        payment_hash: Some("hash".to_string()),
        preimage: None,
    };
    let mut take = |p: &IncomingPayment| {
        server
            .state
            .match_and_record_incoming_payment(&mut server.store, &read_manifest, p)
    };
    assert!(take(&payment(None, 21)).unwrap().is_none());
    let e = take(&payment(Some("nope".to_string()), 21)).unwrap_err();
    assert_eq!(e.status(), 404);
    let e = take(&payment(Some(id.clone()), u64::MAX)).unwrap_err();
    assert_eq!(e.to_string(), "payment amount out of range");
    let p = take(&payment(Some(id.clone()), 21)).unwrap().unwrap();
    assert_eq!(p.backup_id, id);
    assert_eq!(p.amount_msat, 21_000);
    assert_eq!(p.method, "bolt12");
    assert_eq!(p.note, Some("hash".to_string()));
    assert_eq!(server.payments().len(), 1);
}

#[test]
fn the_announcement_is_that_of_the_configuration() {
    let a = state().announcement();
    assert_eq!(a.name, "pivss-demo");
    assert_eq!(a.endpoint, "http://127.0.0.1:8339");
    assert_eq!(a.price_sats_per_mib, 100);
    assert_eq!(a.billing_period_secs, 86_400);
    assert_eq!(a.max_backup_bytes, 32 * 1024 * 1024);
    assert_eq!(
        a.kinds,
        vec![BackupKind::Lightning, BackupKind::Rgb, BackupKind::Other]
    );
    assert_eq!(a.pivss_version, PIVSS_VERSION);
    assert_eq!(PIVSS_VERSION, "0.1.0");
}

#[test]
fn errors_of_the_store_come_through() {
    let s = state();
    let broken = VssHttpStore::new("http://x", "s", SigningKey::generate(), |_: &VssRequest| {
        Err("down".to_string())
    });
    let e = s.get_backup(&broken, &read_manifest, "x").unwrap_err();
    assert_eq!(e.to_string(), "storage backend error: down");
    assert_eq!(e.status(), 500);
    assert_eq!(e.body(), r#"{"error":"storage backend error: down"}"#);
    assert!(s.list_backups(&broken, &read_manifest).is_err());
    assert!(s.list_payments(&broken, &read_payment).is_err());
    assert!(s.get_backup_data(&broken, "x", 1).is_err());
}

#[test]
fn service_errors_have_statuses() {
    let quoted = ServiceError::Internal("say \"hi\"".to_string());
    assert_eq!(quoted.body(), r#"{"error":"say \"hi\""}"#);
    assert_eq!(quoted.status(), 500);
    assert_eq!(ServiceError::Forbidden("no".to_string()).status(), 403);
    assert_eq!(ServiceError::Forbidden("no".to_string()).to_string(), "no");
    let e = ServiceError::Store(StoreError::NoSuchKey("k".to_string()));
    assert_eq!(e.status(), 500);
    assert_eq!(e.to_string(), "no such key: k");
}

#[test]
fn sums_that_do_not_fit() {
    let v = |size: u64| BackupVersion {
        version: 1,
        size,
        sha256: String::new(),
        created_at: 0,
        infohash: String::new(),
        magnet: String::new(),
    };
    let m = |versions: Vec<BackupVersion>| BackupManifest {
        backup_id: String::new(),
        label: String::new(),
        filename: String::new(),
        kind: BackupKind::Other,
        latest_version: 1,
        versions,
        created_at: 0,
        updated_at: 0,
    };
    assert_eq!(stored_bytes(&vec![m(vec![v(u64::MAX)]), m(vec![v(1)])]), None);
    assert_eq!(stored_bytes(&vec![m(vec![v(1), v(2)]), m(vec![])]), Some(3));
    let p = |amount_msat: u64| PaymentRecord {
        payment_id: String::new(),
        backup_id: String::new(),
        amount_msat,
        paid_at: 0,
        method: String::new(),
        note: None,
    };
    assert_eq!(payments_total_msat(&vec![p(u64::MAX), p(1)]), None);
    assert_eq!(payments_total_msat(&vec![]), Some(0));
}

#[test]
fn small_answers() {
    let s = state();
    assert_eq!(s.uptime_secs(150), 50);
    assert_eq!(s.uptime_secs(50), 0);
    assert_eq!(upload_kind(None), BackupKind::Other);
    assert_eq!(upload_kind(Some(BackupKind::Rgb)), BackupKind::Rgb);
}

/// A VSS server in memory.
fn vss_server(held: &RefCell<MemoryStore>, req: &VssRequest) -> Result<VssReply, String> {
    let ok = |body: Vec<u8>| VssReply { status: 200, status_text: "200 OK".to_string(), body };
    let failed = |code: i32, message: String| VssReply {
        status: 400,
        status_text: "400 Bad Request".to_string(),
        body: ErrorResponse { error_code: code, message }.encode_to_vec(),
    };
    let endpoint = req.url.rsplit('/').next().unwrap();
    match endpoint {
        "getObject" => {
            let m = GetObjectRequest::decode(&req.body).unwrap();
            match held.borrow().get(&m.key).unwrap() {
                Some(kv) => {
                    Ok(ok(GetObjectResponse { value: Some(kv) }.encode_to_vec()))
                }
                None => Ok(failed(4, m.key)),
            }
        }
        "putObjects" => {
            let m = PutObjectRequest::decode(&req.body).unwrap();
            let kv = m.transaction_items[0].clone();
            match held.borrow_mut().put(&kv.key, kv.version, kv.value) {
                Ok(_) => Ok(ok(PutObjectResponse {}.encode_to_vec())),
                Err(_) => Ok(failed(1, kv.key)),
            }
        }
        "listKeyVersions" => {
            let m = ListKeyVersionsRequest::decode(&req.body).unwrap();
            let all = held.borrow().list(&m.key_prefix.unwrap()).unwrap();
            // One key to a page.
            let at: usize = m.page_token.map(|t| t.parse().unwrap()).unwrap_or(0);
            let next = if at + 1 < all.len() { Some((at + 1).to_string()) } else { None };
            Ok(ok(ListKeyVersionsResponse {
                key_versions: all.into_iter().skip(at).take(1).collect(),
                next_page_token: next,
                global_version: None,
            }
            .encode_to_vec()))
        }
        _ => Err("no such endpoint".to_string()),
    }
}

#[test]
fn backups_on_a_vss_server() {
    let held = RefCell::new(MemoryStore::default());
    let mut store = VssHttpStore::new(
        "http://vss",
        "pivss",
        SigningKey::generate(),
        |req: &VssRequest| vss_server(&held, req),
    );
    let mut seeder = NoopSeeder::new("no");
    let s = state();
    let mut upload = |name: &str, data: &[u8], now: u64| {
        s.store_backup_at(
            &mut store,
            &mut seeder,
            &read_manifest,
            write_nothing,
            name,
            BackupKind::Other,
            "",
            data.to_vec(),
            now,
        )
    };
    assert_eq!(upload("a.json", b"one", 1).unwrap().1.version, 1);
    assert_eq!(upload("a.json", b"two", 2).unwrap().1.version, 2);
    assert_eq!(upload("b.json", b"three", 3).unwrap().1.version, 1);
    let id = "57b144eff882bd4f";
    assert_eq!(s.get_backup_data(&store, id, 1).unwrap(), b"one");
    assert_eq!(s.get_backup_data(&store, id, 2).unwrap(), b"two");
    assert_eq!(s.get_backup_data(&store, id, 3).unwrap_err().status(), 404);
    let listed = s.list_backups(&store, &read_manifest).unwrap();
    let names: Vec<&str> = listed.iter().map(|m| m.filename.as_str()).collect();
    assert_eq!(names, vec!["b.json", "a.json"]);
    let challenge = make_challenge(3, 2);
    let (proof, version) =
        s.answer_challenge(&store, &read_manifest, id, None, &challenge).unwrap();
    assert_eq!(version, 2);
    assert!(verify_proof(&challenge, b"two", &proof));
    assert!(!verify_proof(&challenge, b"one", &proof));
    s.record_payment(&mut store, &read_manifest, id, 7, "mock", None).unwrap();
    assert_eq!(s.list_payments(&store, &read_payment).unwrap()[0].amount_msat, 7);
    // Somebody else was faster: the bytes of the next version are there already.
    held.borrow_mut().put("backups/57b144eff882bd4f/v3", 0, vec![]).unwrap();
    let mut seeder = NoopSeeder::new("no");
    let e = s
        .store_backup_at(
            &mut store,
            &mut seeder,
            &read_manifest,
            write_nothing,
            "a.json",
            BackupKind::Other,
            "",
            b"x".to_vec(),
            4,
        )
        .unwrap_err();
    assert_eq!(e.status(), 409);
    assert!(seeder.statuses().is_empty());
}

#[test]
fn a_server_tells_what_it_holds() {
    let mut server = Server::new();
    let id = server.upload("a", "", b"four").unwrap().0.backup_id;
    server.upload("a", "", b"three").unwrap();
    server.upload("b", "", b"").unwrap();
    for amount in [5, 7] {
        server
            .state
            .claim_payment(&mut server.store, &read_manifest, &id, amount, None, None)
            .unwrap();
    }
    let info = server.info();
    assert_eq!(info.announcement.bolt12_offer, "lno1qqtestofferpivss");
    assert_eq!(info.nostr_pubkey, server.state.keys.public_hex());
    assert_eq!(info.npub, server.state.keys.npub());
    assert_eq!((info.storage_backend.as_str(), info.seeder.as_str()), ("memory", "noop"));
    assert_eq!(info.seed_statuses.len(), 3);
    assert_eq!((info.backups_count, info.stored_bytes), (2, Some(9)));
    assert_eq!((info.payments_count, info.payments_total_msat), (2, Some(12)));
    assert_eq!(info.uptime_secs, 60);
    assert_eq!(info.relays, server.state.config.nostr.relays);
}

#[test]
fn an_announcement_is_sent_unless_it_is_only_tried() {
    let app = state();
    let sent = RefCell::new(vec![]);
    let send = |relay: &String, _: &String| {
        sent.borrow_mut().push(relay.clone());
        PublishOutcome::Verdict(true, "saved".to_string())
    };
    let (event, results) = app.announce(9, true, send);
    assert!(verify_event(&event) && results.is_empty() && sent.borrow().is_empty());
    let (event, results) = app.announce(9, false, send);
    assert!(verify_event(&event));
    assert_eq!((event.kind, event.created_at), (SERVICE_ANNOUNCEMENT_KIND, 9));
    assert_eq!(event.pubkey, app.keys.public_hex());
    assert_eq!(*sent.borrow(), app.config.nostr.relays);
    assert!(results.iter().all(|r| r.ok) && results.len() == 2);
}

#[test]
fn a_version_is_seeded_from_its_directory() {
    let told = RefCell::new(vec![]);
    let mut seeder = CarlSeeder::new(7000, |hash: &str, torrent: &str, dir: &str, port: u16| {
        told.borrow_mut().push((hash.to_string(), torrent.to_string(), dir.to_string(), port));
        Ok(())
    });
    let mut store = MemoryStore::default();
    let (m, v, status, _) = state()
        .store_backup(
            &mut store,
            &mut seeder,
            &read_manifest,
            write_nothing,
            "f.json",
            BackupKind::Rgb,
            "",
            b"bytes".to_vec(),
        )
        .unwrap();
    let dir = format!("seeds/{}-v1", m.backup_id);
    let torrent = format!("{dir}/{}-v1-f.json.torrent", m.backup_id);
    assert_eq!(*told.borrow(), vec![(v.infohash.clone(), torrent.clone(), dir, 7000)]);
    assert_eq!((status.torrent_path, status.seeding), (torrent, true));
}

#[test]
fn an_upload_that_is_too_large_writes_nothing() {
    let mut server = Server::new();
    server.state.config.max_backup_bytes = 3;
    let Server { state, store, seeder } = &mut server;
    let refused = state.store_backup(
        store,
        seeder,
        &read_manifest,
        |_: &SeedFiles| -> Result<SeedPaths, SeedWriteError> { panic!("a file was written") },
        "f",
        BackupKind::Other,
        "",
        b"four".to_vec(),
    );
    assert!(matches!(refused, Err(ServiceError::TooLarge(4, 3))));
    assert!(server.seeder.statuses().is_empty());
    assert!(server.backups().is_empty());
    assert!(server.upload("f", "", b"333").is_ok());
}

#[test]
fn a_series_is_numbered_and_kept() {
    let mut server = Server::new();
    let mut id = String::new();
    for n in 1..=5u64 {
        let (m, v, _, _) = server.upload_at("a", "", format!("data {n}").as_bytes(), n);
        assert_eq!((v.version, m.latest_version, m.versions.len() as u64), (n, n, n));
        id = m.backup_id;
    }
    server.upload_at("b", "", b"other", 9);
    for n in 1..=5u64 {
        assert_eq!(server.data(&id, n).unwrap(), format!("data {n}").as_bytes());
    }
    let listed: Vec<String> = server.backups().into_iter().map(|m| m.filename).collect();
    assert_eq!(listed, vec!["b", "a"]);
    let numbers: Vec<u64> = server.backups()[1].versions.iter().map(|v| v.version).collect();
    assert_eq!(numbers, vec![1, 2, 3, 4, 5]);
}

#[test]
fn keys_of_versions_and_manifests() {
    assert_eq!(data_key("id", 12), "backups/id/v12");
    assert_eq!(meta_key("id"), "backups/id/meta");
    assert_ne!(data_key("id/v1", 2), data_key("id", 12));
}
