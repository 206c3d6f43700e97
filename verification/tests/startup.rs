use pivss::config::{Config, LightningConfig};
use pivss::ln::{connect, connect_client_wallet, LiquidNetwork, WalletSettings, NO_CLIENT_KEY};
use pivss::server::{build_state, Startup, StoreChoice};
use std::cell::RefCell;
use std::collections::BTreeMap;

/// A directory of files, and what was done with it.
struct Files {
    files: RefCell<BTreeMap<String, String>>,
    read: RefCell<Vec<String>>,
    locked: bool,
}

impl Files {
    fn new(files: &[(&str, &str)]) -> Files {
        let files = files.iter().map(|(n, t)| (n.to_string(), t.to_string())).collect();
        Files { files: RefCell::new(files), read: RefCell::new(vec![]), locked: false }
    }

    fn read(&self, name: &str) -> Result<Option<String>, String> {
        self.read.borrow_mut().push(name.to_string());
        Ok(self.files.borrow().get(name).cloned())
    }

    fn keep(&self, name: &str, text: &String) -> Result<(), String> {
        if self.locked {
            return Err(format!("cannot write {name}"));
        }
        self.files.borrow_mut().insert(name.to_string(), text.clone());
        Ok(())
    }

    fn file(&self, name: &str) -> Option<String> {
        self.files.borrow().get(name).cloned()
    }
}

fn start(config: Config, files: &Files, found: bool) -> Result<Startup<u8>, String> {
    build_state(
        config,
        &|name: &str| files.read(name),
        &|name: &str, text: &String| files.keep(name, text),
        &|bin: &String| {
            assert_eq!(bin, "carl");
            found
        },
        |c: &Config| {
            assert!(c.lightning.enable);
            if c.lightning.network == "regtest" {
                Ok((7u8, "lno1wallet".to_string()))
            } else {
                Err("no wallet".to_string())
            }
        },
    )
}

#[test]
fn a_server_starts_in_memory_and_keeps_its_identity() {
    let files = Files::new(&[]);
    let s = start(Config::default(), &files, true).unwrap();
    assert!(matches!(s.store, StoreChoice::Memory));
    assert_eq!(s.seeding_refusal, None);
    assert_eq!(s.wallet, None);
    assert_eq!(s.state.wallet_offer, None);
    assert_eq!(files.file("nostr.key"), Some(s.state.keys.secret_hex()));
    assert_eq!(files.file("vss.key"), None);
    assert_eq!(*files.read.borrow(), vec!["nostr.key"]);

    let kept = files.file("nostr.key");
    let again = start(Config::default(), &files, false).unwrap();
    assert_eq!(files.file("nostr.key"), kept);
    assert_eq!(again.state.keys.secret_hex(), s.state.keys.secret_hex());
    assert!(again.seeding_refusal.unwrap().starts_with("carl binary 'carl' not found"));
}

#[test]
fn a_server_on_vss_keeps_its_signing_key() {
    let files = Files::new(&[]);
    let mut config = Config::default();
    config.storage.backend = "vss".to_string();
    config.torrent.enable = false;
    let key = match start(config.clone(), &files, true).unwrap().store {
        StoreChoice::Vss(key) => key.secret_hex(),
        StoreChoice::Memory => panic!("a store in memory"),
    };
    assert_eq!(files.file("vss.key"), Some(key));
    assert_eq!(*files.read.borrow(), vec!["vss.key", "nostr.key"]);

    // What is configured is not looked for in a file.
    let files = Files::new(&[]);
    let a = hex::encode([1u8; 32]);
    let b = hex::encode([2u8; 32]);
    config.storage.signing_key_hex = format!(" {a}\n");
    config.nostr.secret_key_hex = b.clone();
    let s = start(config, &files, true).unwrap();
    assert!(matches!(s.store, StoreChoice::Vss(key) if key.secret_hex() == a));
    assert_eq!(s.state.keys.secret_hex(), b);
    assert_eq!(s.seeding_refusal.unwrap(), "torrent seeding disabled in config");
    assert!(files.read.borrow().is_empty() && files.files.borrow().is_empty());
}

#[test]
fn a_server_that_cannot_start_says_why() {
    let mut config = Config::default();
    config.storage.backend = "disk".to_string();
    assert_eq!(
        start(config, &Files::new(&[]), true).err().unwrap(),
        r#"unknown storage backend: disk (use "memory" or "vss")"#
    );

    let mut files = Files::new(&[]);
    files.locked = true;
    assert_eq!(start(Config::default(), &files, true).err().unwrap(), "cannot write nostr.key");

    let mut config = Config::default();
    config.storage.backend = "vss".to_string();
    assert_eq!(start(config.clone(), &files, true).err().unwrap(), "cannot write vss.key");
    assert!(start(config, &Files::new(&[("vss.key", "zz")]), true).is_err());
    assert!(start(Config::default(), &Files::new(&[("nostr.key", "zz")]), true).is_err());

    let mut config = Config::default();
    config.lightning.enable = true;
    config.lightning.network = "mainnet".to_string();
    let files = Files::new(&[]);
    assert_eq!(start(config, &files, true).err().unwrap(), "no wallet");
    // The identity was kept before the wallet failed.
    assert!(files.file("nostr.key").is_some());
}

#[test]
fn the_offer_of_the_wallet_is_the_one_of_the_server() {
    let mut config = Config::default();
    config.bolt12_offer = "lno1static".to_string();
    config.lightning.enable = true;
    let s = start(config, &Files::new(&[]), true).unwrap();
    assert_eq!(s.wallet, Some(7));
    assert_eq!(s.state.offer(), "lno1wallet");
    assert_eq!(s.state.announcement().bolt12_offer, "lno1wallet");
}

type Opened = (LiquidNetwork, Option<String>, String);

fn open_wallet(settings: WalletSettings, words: &String) -> Result<Opened, String> {
    Ok((settings.network, settings.api_key, words.clone()))
}

fn server_wallet(
    config: &LightningConfig,
    environment: Option<&str>,
    files: &Files,
) -> Result<Opened, String> {
    connect(
        config,
        &environment.map(str::to_string),
        &|name: &str| files.read(name),
        &|name: &str, text: &String| files.keep(name, text),
        open_wallet,
    )
}

#[test]
fn the_wallet_of_a_server_has_its_words() {
    let mut config = LightningConfig::default();
    let files = Files::new(&[]);
    let (network, key, words) = server_wallet(&config, Some("env"), &files).unwrap();
    assert_eq!((network, key.as_deref()), (LiquidNetwork::Regtest, Some("env")));
    assert_eq!(words.split(' ').count(), 12);
    assert_eq!(files.file("breez-mnemonic.txt"), Some(words.clone()));
    assert_eq!(server_wallet(&config, None, &files).unwrap().2, words);

    config.mnemonic = "a b c".to_string();
    let untouched = Files::new(&[]);
    assert_eq!(server_wallet(&config, None, &untouched).unwrap().2, "a b c");
    assert!(untouched.read.borrow().is_empty());

    config.network = "testnet".to_string();
    assert!(server_wallet(&config, None, &files).is_err());
}

#[test]
fn the_wallet_of_a_client_has_its_words() {
    let connect = |network: &str, key: Option<&str>, files: &Files| {
        connect_client_wallet(
            network,
            key.map(str::to_string),
            &|name: &str| files.read(name),
            &|name: &str, text: &String| files.keep(name, text),
            open_wallet,
        )
    };
    let files = Files::new(&[("breez-mnemonic.txt", " one two\n")]);
    let (network, key, words) = connect("Mainnet", Some("k"), &files).unwrap();
    assert_eq!((network, key.as_deref()), (LiquidNetwork::Mainnet, Some("k")));
    assert_eq!(words, "one two");
    assert_eq!(connect("mainnet", None, &files).err().unwrap(), NO_CLIENT_KEY);

    let mut files = Files::new(&[]);
    files.locked = true;
    assert_eq!(
        connect("regtest", None, &files).err().unwrap(),
        "cannot write breez-mnemonic.txt"
    );
}
