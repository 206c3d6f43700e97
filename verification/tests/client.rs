use pivss::client::{
    amount_sat, decide_round, get_live_offer, ledger_entry, live_offer, open_restored, pay_amount,
    plan_restore, prepare_upload, rounds_over, sha256_hex, stored_bytes_of, ApiClient, ChallengeResponse,
    ClientError, Ledger, LedgerEntry, RoundAction, UploadResponse, DEFAULT_ROUND_MSAT,
};
use pivss::crypto::{is_envelope, CryptoError};
use pivss::manifest::{BackupKind, BackupManifest, BackupVersion};
use pivss::storage_proof::{compute_proof, StorageChallenge};

fn manifest(id: &str, latest: u64) -> BackupManifest {
    BackupManifest {
        backup_id: id.to_string(),
        label: String::new(),
        filename: format!("{id}.json"),
        kind: BackupKind::Other,
        latest_version: latest,
        versions: vec![],
        created_at: 0,
        updated_at: 0,
    }
}

fn response(id: &str) -> UploadResponse {
    UploadResponse {
        manifest: manifest(id, 3),
        stored_version: BackupVersion {
            version: 3,
            size: 0,
            sha256: String::new(),
            created_at: 0,
            infohash: String::new(),
            magnet: String::new(),
        },
        quote_msat: 10_000,
        bolt12_offer: "lno1".to_string(),
    }
}

fn entry(passphrase: Option<&str>, payload: &[u8]) -> (LedgerEntry, Vec<u8>) {
    let prepared = prepare_upload(payload.to_vec(), passphrase).unwrap();
    let e = ledger_entry(&response("id"), &prepared, "/tmp/f", "f", BackupKind::Rgb);
    (e, prepared.bytes)
}

#[test]
fn hashes_are_exact() {
    assert_eq!(
        sha256_hex(b"abc"),
        "ba7816bf8f01cfea414140de5dae2223b00361a396177a9cb410ff61f20015ad"
    );
}

#[test]
fn addresses_are_exact() {
    let c = ApiClient::new("http://h:1//");
    assert_eq!(c.info_url(), "http://h:1/api/v1/info");
    assert_eq!(c.backups_url(), "http://h:1/api/v1/backups");
    assert_eq!(c.data_url("id", 12), "http://h:1/api/v1/backups/id/versions/12/data");
    assert_eq!(c.challenge_url("id"), "http://h:1/api/v1/backups/id/challenge");
    assert_eq!(c.payments_url("id"), "http://h:1/api/v1/backups/id/payments");
}

#[test]
fn answers_are_checked() {
    assert_eq!(ApiClient::check(200, "200 OK", ""), Ok(()));
    assert_eq!(ApiClient::check(299, "", ""), Ok(()));
    assert_eq!(
        ApiClient::check(404, "404 Not Found", "{}"),
        Err("server returned 404 Not Found: {}".to_string())
    );
    assert!(ApiClient::check(300, "", "").is_err());
    assert!(ApiClient::check(199, "", "").is_err());
}

#[test]
fn a_plain_upload_is_the_file() {
    let (e, bytes) = entry(None, b"file");
    assert_eq!(bytes, b"file");
    assert!(!e.encrypted);
    assert_eq!((e.salt_hex.as_str(), e.nonce_hex.as_str()), ("", ""));
    assert_eq!(e.sha256, sha256_hex(b"file"));
    assert_eq!(e.backup_id, "id");
    assert_eq!(e.file_path, "/tmp/f");
    assert_eq!(e.filename, "f");
    assert_eq!(e.kind, BackupKind::Rgb);
    assert_eq!((e.latest_version, e.quote_msat), (3, 10_000));
    assert_eq!(e.bolt12_offer, "lno1");
    assert_eq!(stored_bytes_of(&e, None, b"file".to_vec()).unwrap(), b"file");
    assert_eq!(open_restored(bytes, None).unwrap(), b"file");
}

#[test]
fn an_encrypted_upload_is_made_again_and_restored() {
    let (e, bytes) = entry(Some("pw"), b"file");
    assert!(e.encrypted && is_envelope(&bytes));
    assert_eq!(e.sha256, sha256_hex(&bytes));
    assert_eq!(stored_bytes_of(&e, Some("pw"), b"file".to_vec()).unwrap(), bytes);
    assert_ne!(stored_bytes_of(&e, Some("other"), b"file".to_vec()).unwrap(), bytes);
    assert_eq!(open_restored(bytes.clone(), Some("pw")).unwrap(), b"file");
    let e1 = stored_bytes_of(&e, None, b"file".to_vec()).unwrap_err();
    assert_eq!(
        e1.to_string("backup"),
        "backup is encrypted — provide --passphrase (or PIVSS_PASSPHRASE)"
    );
    assert!(matches!(
        open_restored(bytes.clone(), None),
        Err(ClientError::NoPassphrase)
    ));
    let e2 = open_restored(bytes, Some("wrong")).unwrap_err();
    assert!(matches!(e2, ClientError::Crypto(CryptoError::Decrypt)));
    assert_eq!(
        e2.to_string("backup"),
        "decryption failed (wrong passphrase or corrupt data)"
    );
}

#[test]
fn a_ledger_with_a_bad_salt_is_an_error() {
    let (mut e, _) = entry(Some("pw"), b"file");
    e.salt_hex = "xx".to_string();
    assert!(matches!(
        stored_bytes_of(&e, Some("pw"), b"file".to_vec()),
        Err(ClientError::Crypto(CryptoError::Truncated))
    ));
}

#[test]
fn restores_take_the_latest_version() {
    let all = vec![manifest("a", 2), manifest("b", 5)];
    let plan = plan_restore(&all, "b", None).unwrap();
    assert_eq!((plan.version, plan.output.as_str()), (5, "b.json-v5"));
    let plan = plan_restore(&all, "b", Some(1)).unwrap();
    assert_eq!((plan.version, plan.output.as_str()), (1, "b.json-v1"));
    assert_eq!(
        plan_restore(&all, "c", None).err().unwrap(),
        "backup c not found on server"
    );
}

#[test]
fn ledgers_keep_one_entry_for_a_backup() {
    let mut l = Ledger::default();
    assert_eq!(l.server, "");
    assert!(l.get("a").is_none());
    assert_eq!(
        l.require("a").err().unwrap(),
        "backup a not in local ledger — upload it first"
    );
    let (mut e, _) = entry(None, b"1");
    l.insert("a", e.clone());
    l.insert("b", e.clone());
    e.latest_version = 4;
    l.insert("a", e);
    assert_eq!(l.entries.len(), 2);
    assert_eq!(l.get("a").unwrap().latest_version, 4);
    assert_eq!(l.require("b").unwrap().latest_version, 3);
}

#[test]
fn amounts_are_rounded_up() {
    assert_eq!(amount_sat(0), 1);
    assert_eq!(amount_sat(1), 1);
    assert_eq!(amount_sat(1000), 1);
    assert_eq!(amount_sat(1001), 2);
    assert_eq!(amount_sat(u64::MAX), 18_446_744_073_709_552);
    let (e, _) = entry(None, b"1");
    assert_eq!(pay_amount(Some(5), Some(&e)), Ok(5));
    assert_eq!(pay_amount(None, Some(&e)), Ok(10_000));
    assert_eq!(
        pay_amount(None, None),
        Err("no quote known — pass --amount-msat".to_string())
    );
}

#[test]
fn offers_are_live_where_they_are_not_empty() {
    assert_eq!(live_offer(Some("lno1".to_string())), Ok("lno1".to_string()));
    let none = Err("server has no BOLT12 offer configured".to_string());
    assert_eq!(live_offer(Some(String::new())), none);
    assert_eq!(live_offer(None), none);
    let info = r#"{"announcement":{"name":"n","bolt12_offer":"lno1x"},"npub":"npub1"}"#;
    assert_eq!(get_live_offer(info), Ok("lno1x".to_string()));
    assert_eq!(get_live_offer(r#"{"announcement":{"bolt12_offer":""}}"#), none);
    assert_eq!(get_live_offer(r#"{"announcement":{"bolt12_offer":7}}"#), none);
    assert_eq!(get_live_offer("[]"), none);
    assert_eq!(
        get_live_offer("lno1x"),
        Err("expected value at line 1 column 1".to_string())
    );
}

#[test]
fn rounds_pay_only_on_proof() {
    let c = ApiClient::new("http://h");
    let data = b"what the client has".to_vec();
    let honest = |ch: &StorageChallenge| {
        Ok(ChallengeResponse { proof: compute_proof(ch, &data), version: 7 })
    };
    let (e, _) = entry(None, &data);
    let proved = c.verify(&data, &honest);
    let outcome = proved.as_ref().unwrap();
    assert!(outcome.ok);
    assert_eq!(outcome.version, 7);
    assert_eq!(outcome.challenge.ranges.len(), 3);
    assert_eq!(decide_round(&proved, Some(&e)), RoundAction::Pay(10_000));
    assert_eq!(decide_round(&proved, None), RoundAction::Pay(DEFAULT_ROUND_MSAT));
    assert_eq!(DEFAULT_ROUND_MSAT, 1000);

    let lost = |ch: &StorageChallenge| {
        Ok(ChallengeResponse { proof: compute_proof(ch, b"lost"), version: 7 })
    };
    let proved = c.verify(&data, &lost);
    assert!(!proved.as_ref().unwrap().ok);
    assert_eq!(decide_round(&proved, Some(&e)), RoundAction::Withhold);

    let down = |_: &StorageChallenge| Err("no answer".to_string());
    let proved = c.verify(&data, &down);
    assert_eq!(proved.as_ref().err().unwrap(), "no answer");
    assert_eq!(decide_round(&proved, Some(&e)), RoundAction::Withhold);
}

#[test]
fn rounds_come_to_an_end() {
    assert!(!rounds_over(0, u64::MAX));
    assert!(!rounds_over(3, 2));
    assert!(rounds_over(3, 3));
}

#[test]
fn backups_in_the_ledger_are_proved_from_their_files() {
    let c = ApiClient::new("http://h");
    let payload = b"what the client has".to_vec();
    let (sealed, uploaded) = entry(Some("pw"), &payload);
    let mut ledger = Ledger::default();
    ledger.insert("id", sealed);
    let read = |path: &String| {
        assert_eq!(path, "/tmp/f");
        Ok(payload.clone())
    };
    let honest = |ch: &StorageChallenge| {
        Ok(ChallengeResponse { proof: compute_proof(ch, &uploaded), version: 3 })
    };
    let proved = c.verify_from_ledger(&ledger, Some("pw"), "id", &read, &honest).unwrap();
    assert!(proved.ok);
    assert_eq!(proved.version, 3);
    let wrong = c.verify_from_ledger(&ledger, Some("other"), "id", &read, &honest).unwrap();
    assert!(!wrong.ok);
    assert_eq!(
        c.verify_from_ledger(&ledger, None, "id", &read, &honest).err().unwrap(),
        "backup is encrypted — provide --passphrase (or PIVSS_PASSPHRASE)"
    );
    assert_eq!(
        c.verify_from_ledger(&ledger, Some("pw"), "x", &read, &honest).err().unwrap(),
        "backup x not in local ledger — upload it first"
    );
    let gone = |_: &String| Err("no such file".to_string());
    assert_eq!(
        c.verify_from_ledger(&ledger, Some("pw"), "id", &gone, &honest).err().unwrap(),
        "no such file"
    );
}
