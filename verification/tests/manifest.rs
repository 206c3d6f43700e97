use pivss::manifest::{
    quote_fits, quote_msat, BackupKind, BackupManifest, BackupVersion, PaymentRecord,
    ServiceAnnouncement,
};

#[test]
fn quote_rounds_up_and_has_floor() {
    assert_eq!(quote_msat(1, 10), 10_000); // <1 MiB → 1 MiB
    assert_eq!(quote_msat(1024 * 1024, 10), 10_000);
    assert_eq!(quote_msat(1024 * 1024 + 1, 10), 20_000);
    assert_eq!(quote_msat(0, 10), 10_000);
}

#[test]
fn quotes_that_do_not_fit() {
    assert!(quote_fits(1, 18_446_744_073_709_551));
    assert_eq!(quote_msat(1, 18_446_744_073_709_551), 18_446_744_073_709_551_000);
    assert!(!quote_fits(1, 18_446_744_073_709_552));
    assert!(!quote_fits(u64::MAX, u64::MAX));
    assert!(quote_fits(u64::MAX, 1));
}

#[test]
fn kinds_have_names() {
    assert_eq!(BackupKind::Lightning.to_string(), "lightning");
    assert_eq!(BackupKind::Rgb.to_string(), "rgb");
    assert_eq!(BackupKind::Other.to_string(), "other");
}

#[test]
fn manifest_json_is_exact() {
    let v = BackupVersion {
        version: 1,
        size: 2,
        sha256: "s".to_string(),
        created_at: 3,
        infohash: "i".to_string(),
        magnet: "m".to_string(),
    };
    let mut m = BackupManifest {
        backup_id: "id".to_string(),
        label: "my \"node\"\n".to_string(),
        filename: "f".to_string(),
        kind: BackupKind::Rgb,
        latest_version: 1,
        versions: vec![v.clone(), v.clone()],
        created_at: 4,
        updated_at: 5,
    };
    let one = r#"{"version":1,"size":2,"sha256":"s","created_at":3,"infohash":"i","magnet":"m"}"#;
    assert_eq!(v.to_json(), one);
    assert_eq!(
        m.to_json(),
        format!(
            r#"{{"backup_id":"id","label":"my \"node\"\n","filename":"f","kind":"rgb","latest_version":1,"versions":[{one},{one}],"created_at":4,"updated_at":5}}"#
        )
    );
    m.versions.clear();
    let parsed: serde_json::Value = serde_json::from_str(&m.to_json()).unwrap();
    assert_eq!(parsed["label"], "my \"node\"\n");
    assert_eq!(parsed["versions"].as_array().unwrap().len(), 0);
}

#[test]
fn payment_json_is_exact() {
    let mut p = PaymentRecord {
        payment_id: "p".to_string(),
        backup_id: "b".to_string(),
        amount_msat: 18_446_744_073_709_551_615,
        paid_at: 1,
        method: "mock".to_string(),
        note: None,
    };
    assert_eq!(
        p.to_json(),
        r#"{"payment_id":"p","backup_id":"b","amount_msat":18446744073709551615,"paid_at":1,"method":"mock","note":null}"#
    );
    p.note = Some("null".to_string());
    assert_eq!(
        p.clone().to_json(),
        r#"{"payment_id":"p","backup_id":"b","amount_msat":18446744073709551615,"paid_at":1,"method":"mock","note":"null"}"#
    );
}

#[test]
fn announcement_json_is_exact() {
    let a = ServiceAnnouncement {
        name: "n".to_string(),
        description: "d".to_string(),
        endpoint: "e".to_string(),
        bolt12_offer: "o".to_string(),
        price_sats_per_mib: 21,
        billing_period_secs: 86_400,
        max_backup_bytes: 1024,
        kinds: vec![BackupKind::Lightning, BackupKind::Other],
        pivss_version: "0.1.0".to_string(),
    };
    assert_eq!(
        a.clone().to_json(),
        r#"{"name":"n","description":"d","endpoint":"e","bolt12_offer":"o","price_sats_per_mib":21,"billing_period_secs":86400,"max_backup_bytes":1024,"kinds":["lightning","other"],"pivss_version":"0.1.0"}"#
    );
}
