use pivss::config::{Config, LightningConfig, MAX_BACKUP_BYTES_CEILING};
use pivss::ln::{
    choose_api_key, client_wallet_settings, generate_mnemonic, incoming_payment,
    mnemonic_from_entropy, paid_payment, parse_network, secret_source, server_wallet_settings,
    LiquidNetwork, PaymentDetails, PaymentDirection, SecretSource, WalletEvent, WalletPayment,
    NO_CLIENT_KEY, NO_SERVER_KEY,
};
use pivss::nostr::KeyError;
use pivss::server::{
    choose_backend, resolve_identity, resolve_vss_signing_key, seeding_refusal, Backend,
};

#[test]
fn the_body_has_a_ceiling() {
    let mut c = Config::default();
    assert_eq!(c.max_body_bytes(), 32 * 1024 * 1024 + 1024);
    c.max_backup_bytes = 0;
    assert_eq!(c.max_body_bytes(), 1024);
    c.max_backup_bytes = u64::MAX;
    assert_eq!(c.max_body_bytes(), 512 * 1024 * 1024 + 1024);
    assert_eq!(MAX_BACKUP_BYTES_CEILING, 512 * 1024 * 1024);
}

#[test]
fn defaults_of_the_configuration() {
    let c = Config::default();
    assert_eq!(c.listen, "127.0.0.1:8339");
    assert_eq!(c.data_dir, "./pivss-data");
    assert_eq!(c.storage.backend, "memory");
    assert_eq!(c.storage.store_id, "pivss");
    assert_eq!(c.nostr.relays, vec!["wss://relay.kaleidoswap.com", "wss://nos.lol"]);
    assert_eq!(c.torrent.port, 6881);
    assert!(c.torrent.enable && !c.lightning.enable);
    assert_eq!(c.lightning.network, "regtest");
}

#[test]
fn backends_by_name() {
    assert_eq!(choose_backend("memory"), Ok(Backend::Memory));
    assert_eq!(choose_backend("vss"), Ok(Backend::Vss));
    assert_eq!(
        choose_backend("Disk"),
        Err(r#"unknown storage backend: Disk (use "memory" or "vss")"#.to_string())
    );
}

#[test]
fn reasons_not_to_seed() {
    let mut c = Config::default();
    assert_eq!(seeding_refusal(&c, true), None);
    assert_eq!(
        seeding_refusal(&c, false).unwrap(),
        "carl binary 'carl' not found — torrents are still created under ./pivss-data/seeds; install carl (github.com/vincenzopalazzo/carl) or seed with any client"
    );
    c.torrent.enable = false;
    assert_eq!(
        seeding_refusal(&c, true).unwrap(),
        "torrent seeding disabled in config"
    );
}

#[test]
fn identities_are_configured_kept_or_new() {
    let a = hex::encode([1u8; 32]);
    let b = hex::encode([2u8; 32]);
    let kept = Some(format!("  {b}\n"));
    let (keys, fresh) = resolve_identity(&a, &kept).unwrap();
    assert_eq!((keys.secret_hex(), fresh), (a.clone(), false));
    let (keys, fresh) = resolve_identity("", &kept).unwrap();
    assert_eq!((keys.secret_hex(), fresh), (b.clone(), false));
    let (keys, fresh) = resolve_identity("", &None).unwrap();
    assert!(fresh);
    assert_eq!(keys.secret_hex().len(), 64);
    // What is configured is taken as it is.
    assert!(matches!(resolve_identity(&format!("{a} "), &None), Err(KeyError::NotHex(_))));
    assert!(matches!(
        resolve_identity("", &Some("00".to_string())),
        Err(KeyError::NotASecretKey)
    ));
}

#[test]
fn signing_keys_are_configured_kept_or_new() {
    let a = hex::encode([1u8; 32]);
    let b = hex::encode([2u8; 32]);
    let (key, fresh) = resolve_vss_signing_key(&format!(" {a} "), &Some(b.clone())).unwrap();
    assert_eq!((key.secret_hex(), fresh), (a, false));
    let (key, fresh) = resolve_vss_signing_key("", &Some(format!("{b}\n"))).unwrap();
    assert_eq!((key.secret_hex(), fresh), (b, false));
    assert!(resolve_vss_signing_key("", &None).unwrap().1);
    assert!(matches!(resolve_vss_signing_key("zz", &None), Err(KeyError::NotHex(_))));
}

#[test]
fn networks_by_name() {
    assert_eq!(parse_network("x", "RegTest"), Ok(LiquidNetwork::Regtest));
    assert_eq!(parse_network("x", "mainnet"), Ok(LiquidNetwork::Mainnet));
    assert_eq!(
        parse_network("lightning.network", "Testnet"),
        Err(r#"unsupported lightning.network 'testnet' (use "regtest" or "mainnet" — testnet is not supported by breez-sdk-liquid)"#.to_string())
    );
}

#[test]
fn api_keys_of_configuration_and_environment() {
    let env = Some("env".to_string());
    assert_eq!(choose_api_key("conf", &env), Some("conf".to_string()));
    assert_eq!(choose_api_key("", &env), Some("env".to_string()));
    assert_eq!(choose_api_key("", &Some(String::new())), None);
    assert_eq!(choose_api_key("", &None), None);
}

#[test]
fn mainnet_needs_a_key() {
    let mut c = LightningConfig::default();
    let s = server_wallet_settings(&c, &None).unwrap();
    assert_eq!((s.network, s.api_key), (LiquidNetwork::Regtest, None));
    c.network = "mainnet".to_string();
    assert_eq!(server_wallet_settings(&c, &None).err().unwrap(), NO_SERVER_KEY);
    let s = server_wallet_settings(&c, &Some("k".to_string())).unwrap();
    assert_eq!((s.network, s.api_key), (LiquidNetwork::Mainnet, Some("k".to_string())));
    c.network = "moon".to_string();
    assert!(server_wallet_settings(&c, &None).is_err());
    assert_eq!(client_wallet_settings("mainnet", None).err().unwrap(), NO_CLIENT_KEY);
    assert!(client_wallet_settings("mainnet", Some("k".to_string())).is_ok());
    assert!(client_wallet_settings("regtest", None).is_ok());
    assert!(client_wallet_settings("moon", None)
        .err()
        .unwrap()
        .starts_with("unsupported --ln-network 'moon'"));
}

#[test]
fn secrets_are_configured_kept_or_new() {
    assert!(matches!(
        secret_source(" a ", &None),
        SecretSource::Known(s) if s == " a "
    ));
    assert!(matches!(
        secret_source("", &Some("\n b c\t".to_string())),
        SecretSource::Known(s) if s == "b c"
    ));
    assert!(matches!(secret_source("", &None), SecretSource::Fresh));
}

#[test]
fn new_wallets_have_twelve_words() {
    let words = generate_mnemonic().unwrap();
    assert_eq!(words.split(' ').count(), 12);
    assert_ne!(words, generate_mnemonic().unwrap());
    // They are a mnemonic, whose entropy gives them again.
    let read = bip39::Mnemonic::parse_in(bip39::Language::English, &words).unwrap();
    let entropy: [u8; 16] = read.to_entropy().try_into().unwrap();
    assert_eq!(mnemonic_from_entropy(&entropy), words);
}

#[test]
fn mnemonics_are_exact() {
    let zeros = ["abandon"; 11].join(" ") + " about";
    assert_eq!(mnemonic_from_entropy(&[0; 16]), zeros);
    assert_eq!(
        mnemonic_from_entropy(&[0x7f; 16]),
        "legal winner thank year wave sausage worth useful legal winner thank yellow"
    );
}

fn payment(direction: PaymentDirection, details: PaymentDetails) -> WalletPayment {
    WalletPayment { direction, amount_sat: 21, fees_sat: 2, details }
}

fn lightning() -> PaymentDetails {
    PaymentDetails::Lightning {
        payer_note: Some("id".to_string()),
        payment_hash: Some("hash".to_string()),
        preimage: Some("pre".to_string()),
    }
}

#[test]
fn only_lightning_receipts_are_incoming() {
    let p = incoming_payment(WalletEvent::PaymentSucceeded(payment(
        PaymentDirection::Receive,
        lightning(),
    )))
    .unwrap();
    assert_eq!((p.amount_sat, p.fees_sat), (21, 2));
    assert_eq!(p.payer_note, Some("id".to_string()));
    assert_eq!(p.payment_hash, Some("hash".to_string()));
    assert_eq!(p.preimage, Some("pre".to_string()));
    assert!(incoming_payment(WalletEvent::Other).is_none());
    let sent = payment(PaymentDirection::Send, lightning());
    assert!(incoming_payment(WalletEvent::PaymentSucceeded(sent)).is_none());
    let other = payment(PaymentDirection::Receive, PaymentDetails::Other);
    assert!(incoming_payment(WalletEvent::PaymentSucceeded(other)).is_none());
}

#[test]
fn paid_payments_keep_their_preimage() {
    let p = paid_payment(payment(PaymentDirection::Send, lightning()));
    assert_eq!((p.amount_sat, p.fees_sat, p.preimage), (21, 2, Some("pre".to_string())));
    let p = paid_payment(payment(PaymentDirection::Send, PaymentDetails::Other));
    assert_eq!(p.preimage, None);
}
