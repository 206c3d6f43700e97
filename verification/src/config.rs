//! The configuration of a server, and its defaults.
use vstd::prelude::*;
use crate::text::texts;

verus! {

/// The hard ceiling of `max_backup_bytes`.
pub const MAX_BACKUP_BYTES_CEILING: u64 = 536_870_912;

/// What an upload may be longer than the largest backup by, on the wire.
pub const BODY_MARGIN: u64 = 1024;

/// The configuration of a server.
#[derive(Debug, Clone)]
pub struct Config {
    /// The address that the server listens at.
    pub listen: String,
    /// The directory of its files.
    pub data_dir: String,
    /// The name of the service.
    pub name: String,
    /// What it is.
    pub description: String,
    /// The base URL that clients use; it goes into the announcement.
    pub public_endpoint: String,
    /// The price of a stored MiB for a billing period, in sats.
    ///
    /// What bounds it from below is not what storage costs but the least amount
    /// that one BOLT12 payment can carry, which is 21 sats.
    pub price_sats_per_mib: u64,
    /// The billing period in seconds.
    pub billing_period_secs: u64,
    /// The largest backup that is accepted, in bytes.
    pub max_backup_bytes: u64,
    /// The BOLT12 offer that is announced where no wallet is connected. A wallet
    /// that is connected has an offer of its own, which is announced instead.
    pub bolt12_offer: String,
    /// Where backups are stored.
    pub storage: StorageConfig,
    /// The identity and the relays.
    pub nostr: NostrConfig,
    /// How backups are seeded.
    pub torrent: TorrentConfig,
    /// The wallet.
    pub lightning: LightningConfig,
}

/// Where backups are stored.
#[derive(Debug, Clone)]
pub struct StorageConfig {
    /// `memory`, or `vss` for a VSS server.
    pub backend: String,
    /// The address of the VSS server.
    pub vss_url: String,
    /// The store on the VSS server.
    pub store_id: String,
    /// The secret key that signs the requests, in hexadecimal. Where it is empty,
    /// one is made and kept in `vss.key`.
    pub signing_key_hex: String,
}

/// The identity and the relays.
#[derive(Debug, Clone)]
pub struct NostrConfig {
    /// The secret key in hexadecimal. Where it is empty, one is made and kept in
    /// `nostr.key`.
    pub secret_key_hex: String,
    /// The relays that announcements go to.
    pub relays: Vec<String>,
}

/// How backups are seeded.
#[derive(Debug, Clone)]
pub struct TorrentConfig {
    /// Whether they are.
    pub enable: bool,
    /// The path of the seeder.
    pub carl_bin: String,
    /// The port of the first torrent.
    pub port: u16,
    /// The trackers of the torrents; there may be none.
    pub trackers: Vec<String>,
}

/// The wallet.
#[derive(Debug, Clone)]
pub struct LightningConfig {
    /// Whether there is one. Where there is none, the server runs as a
    /// demonstration, with the offer of the configuration and with payments that
    /// clients merely claim.
    pub enable: bool,
    /// `regtest`, or `mainnet`, which needs an API key.
    pub network: String,
    /// The API key.
    pub api_key: String,
    /// The twelve words. Where they are empty, they are made and kept in
    /// `breez-mnemonic.txt`.
    pub mnemonic: String,
}

impl Default for StorageConfig {
    fn default() -> (c: StorageConfig)
        ensures
            c.backend@ == "memory"@,
            c.vss_url@ == "http://127.0.0.1:8080/vss"@,
            c.store_id@ == "pivss"@,
            c.signing_key_hex@ == ""@,
    {
        StorageConfig {
            backend: "memory".to_owned(),
            vss_url: "http://127.0.0.1:8080/vss".to_owned(),
            store_id: "pivss".to_owned(),
            signing_key_hex: "".to_owned(),
        }
    }
}

impl Default for NostrConfig {
    fn default() -> (c: NostrConfig)
        ensures
            c.secret_key_hex@ == ""@,
            texts(c.relays@) == seq!["wss://relay.kaleidoswap.com"@, "wss://nos.lol"@],
    {
        let mut relays: Vec<String> = Vec::new();
        relays.push("wss://relay.kaleidoswap.com".to_owned());
        relays.push("wss://nos.lol".to_owned());
        assert(texts(relays@) =~= seq!["wss://relay.kaleidoswap.com"@, "wss://nos.lol"@]);
        NostrConfig { secret_key_hex: "".to_owned(), relays }
    }
}

impl Default for TorrentConfig {
    fn default() -> (c: TorrentConfig)
        ensures
            c.enable,
            c.carl_bin@ == "carl"@,
            c.port == 6881,
            c.trackers@.len() == 0,
    {
        TorrentConfig { enable: true, carl_bin: "carl".to_owned(), port: 6881, trackers: Vec::new() }
    }
}

impl Default for LightningConfig {
    fn default() -> (c: LightningConfig)
        ensures
            !c.enable,
            c.network@ == "regtest"@,
            c.api_key@ == ""@,
            c.mnemonic@ == ""@,
    {
        LightningConfig {
            enable: false,
            network: "regtest".to_owned(),
            api_key: "".to_owned(),
            mnemonic: "".to_owned(),
        }
    }
}

impl Default for Config {
    fn default() -> (c: Config)
        ensures
            c.listen@ == "127.0.0.1:8339"@,
            c.data_dir@ == "./pivss-data"@,
            c.name@ == "pivss-demo"@,
            c.description@
                == "P2P incentivized versioned storage for Lightning & RGB backups"@,
            c.public_endpoint@ == "http://127.0.0.1:8339"@,
            c.price_sats_per_mib == 100,
            c.billing_period_secs == 86_400,
            c.max_backup_bytes == 33_554_432,
            c.bolt12_offer@ == ""@,
            c.storage.backend@ == "memory"@,
            c.storage.vss_url@ == "http://127.0.0.1:8080/vss"@,
            c.storage.store_id@ == "pivss"@,
            c.storage.signing_key_hex@ == ""@,
            c.nostr.secret_key_hex@ == ""@,
            texts(c.nostr.relays@) == seq!["wss://relay.kaleidoswap.com"@, "wss://nos.lol"@],
            c.torrent.enable,
            c.torrent.carl_bin@ == "carl"@,
            c.torrent.port == 6881,
            c.torrent.trackers@.len() == 0,
            !c.lightning.enable,
            c.lightning.network@ == "regtest"@,
            c.lightning.api_key@ == ""@,
            c.lightning.mnemonic@ == ""@,
    {
        Config {
            listen: "127.0.0.1:8339".to_owned(),
            data_dir: "./pivss-data".to_owned(),
            name: "pivss-demo".to_owned(),
            description: "P2P incentivized versioned storage for Lightning & RGB backups".to_owned(),
            public_endpoint: "http://127.0.0.1:8339".to_owned(),
            price_sats_per_mib: 100,
            billing_period_secs: 86_400,
            max_backup_bytes: 33_554_432,
            bolt12_offer: "".to_owned(),
            storage: StorageConfig::default(),
            nostr: NostrConfig::default(),
            torrent: TorrentConfig::default(),
            lightning: LightningConfig::default(),
        }
    }
}

impl Config {
    /// The longest body that the server reads: the largest backup, but no more
    /// than the ceiling, and a margin.
    pub fn max_body_bytes(&self) -> (n: u64)
        ensures
            n == BODY_MARGIN + (if self.max_backup_bytes <= MAX_BACKUP_BYTES_CEILING {
                self.max_backup_bytes
            } else {
                MAX_BACKUP_BYTES_CEILING
            }),
            self.max_backup_bytes <= 536_870_912 ==> n == self.max_backup_bytes + 1024,
            self.max_backup_bytes > 536_870_912 ==> n == 536_870_912 + 1024,
    {
        if self.max_backup_bytes <= MAX_BACKUP_BYTES_CEILING {
            self.max_backup_bytes + BODY_MARGIN
        } else {
            MAX_BACKUP_BYTES_CEILING + BODY_MARGIN
        }
    }
}

} // verus!
