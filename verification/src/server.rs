//! What a server decides when it is started: where it stores, how it seeds, and
//! which keys it has.
use vstd::prelude::*;
use vstd::string::*;
use crate::config::Config;
use crate::ln::{known_secret, non_empty, secret_source, SecretSource};
use crate::manifest::optional_text;
use crate::nostr::{
    is_drawn_secret, key_error_text, law_secret_key_roundtrip, secret_of_hex, KeyError, KeyErrorView, NostrKeys,
};
use crate::outside::{clock_reading, is_secret_key, now_secs};
use crate::state::AppState;
use crate::store::SigningKey;
use crate::text::{lemma_hex_trimmed, same_text, to_hex, trim_text, trimmed};

verus! {

/// Where a server stores.
#[derive(Debug, Clone, Copy, PartialEq, Eq, Structural)]
pub enum Backend {
    /// In memory.
    Memory,
    /// On a VSS server.
    Vss,
}

/// Where a server stores, by the name in its configuration.
pub open spec fn backend_of(name: Seq<char>) -> Result<Backend, Seq<char>> {
    if name == "vss"@ {
        Ok(Backend::Vss)
    } else if name == "memory"@ {
        Ok(Backend::Memory)
    } else {
        Err("unknown storage backend: "@ + name + " (use \"memory\" or \"vss\")"@)
    }
}

/// Where a server stores, by the name in its configuration.
pub fn choose_backend(name: &str) -> (res: Result<Backend, String>)
    ensures
        match res {
            Ok(b) => backend_of(name@) == Ok::<Backend, Seq<char>>(b),
            Err(e) => backend_of(name@) == Err::<Backend, Seq<char>>(e@),
        },
{
    if same_text(name, "vss") {
        Ok(Backend::Vss)
    } else {
        proof {
            reveal_strlit("vss");
            reveal_strlit("memory");
            assert("vss"@.len() != "memory"@.len());
        }
        if same_text(name, "memory") {
            Ok(Backend::Memory)
        } else {
            let mut s = "unknown storage backend: ".to_owned();
            s.append(name);
            s.append(" (use \"memory\" or \"vss\")");
            Err(s)
        }
    }
}

/// Why a server does not seed, where it does not: it is not to, or there is no
/// seeder.
pub open spec fn why_not_seeding(
    enable: bool,
    carl_found: bool,
    carl_bin: Seq<char>,
    data_dir: Seq<char>,
) -> Option<Seq<char>> {
    if !enable {
        Some("torrent seeding disabled in config"@)
    } else if !carl_found {
        Some(
            "carl binary '"@ + carl_bin + "' not found — torrents are still created under "@
                + data_dir
                + "/seeds; install carl (github.com/vincenzopalazzo/carl) or seed with any client"@,
        )
    } else {
        None
    }
}

/// Decides whether a server seeds, given whether its seeder can be run, and says why
/// where it does not.
pub fn seeding_refusal(config: &Config, carl_found: bool) -> (why: Option<String>)
    ensures
        optional_text(why) == why_not_seeding(
            config.torrent.enable,
            carl_found,
            config.torrent.carl_bin@,
            config.data_dir@,
        ),
{
    if !config.torrent.enable {
        Some("torrent seeding disabled in config".to_owned())
    } else if !carl_found {
        let mut s = "carl binary '".to_owned();
        s.append(config.torrent.carl_bin.as_str());
        s.append("' not found — torrents are still created under ");
        s.append(config.data_dir.as_str());
        s.append("/seeds; install carl (github.com/vincenzopalazzo/carl) or seed with any client");
        Some(s)
    } else {
        None
    }
}

/// The identity of a server: that of its configuration, or else the one that it has
/// kept, or else a new one. Returns it and whether it is new, and then to be kept.
pub fn resolve_identity(configured: &str, file: &Option<String>) -> (res: Result<
    (NostrKeys, bool),
    KeyError,
>)
    ensures
        match known_secret(configured@, optional_text(*file)) {
            Some(hex_sk) => match res {
                Ok((keys, fresh)) => !fresh && secret_of_hex(hex_sk) == Ok::<Seq<u8>, KeyErrorView>(
                    keys@,
                ),
                Err(e) => secret_of_hex(hex_sk) == Err::<Seq<u8>, KeyErrorView>(e@),
            },
            None => res matches Ok((keys, fresh)) && fresh && is_secret_key(keys@)
                && is_drawn_secret(keys@),
        },
{
    match secret_source(configured, file) {
        SecretSource::Known(hex_sk) => match NostrKeys::from_secret_hex(hex_sk.as_str()) {
            Ok(keys) => Ok((keys, false)),
            Err(e) => Err(e),
        },
        SecretSource::Fresh => Ok((NostrKeys::generate(), true)),
    }
}

/// The key that signs the requests to a VSS server, in hexadecimal: that of the
/// configuration, or else the one that was kept, each without the white space around
/// it.
pub open spec fn known_signing_key(configured: Seq<char>, file: Option<Seq<char>>) -> Option<
    Seq<char>,
> {
    match non_empty(configured) {
        Some(s) => Some(trimmed(s)),
        None => match file {
            Some(s) => Some(trimmed(s)),
            None => None,
        },
    }
}

/// The key that signs the requests to a VSS server: that of the configuration, or
/// else the one that was kept, or else a new one. Returns it and whether it is new,
/// and then to be kept.
pub fn resolve_vss_signing_key(configured: &str, file: &Option<String>) -> (res: Result<
    (SigningKey, bool),
    KeyError,
>)
    ensures
        match known_signing_key(configured@, optional_text(*file)) {
            Some(hex_sk) => match res {
                Ok((key, fresh)) => !fresh && secret_of_hex(hex_sk) == Ok::<Seq<u8>, KeyErrorView>(
                    key@,
                ),
                Err(e) => secret_of_hex(hex_sk) == Err::<Seq<u8>, KeyErrorView>(e@),
            },
            None => res matches Ok((key, fresh)) && fresh && is_secret_key(key@)
                && is_drawn_secret(key@),
        },
{
    let hex_sk: String = if configured.unicode_len() > 0 {
        trim_text(configured)
    } else {
        match file {
            Some(s) => trim_text(s.as_str()),
            None => {
                return Ok((SigningKey::generate(), true));
            },
        }
    };
    match SigningKey::from_secret_hex(hex_sk.as_str()) {
        Ok(key) => Ok((key, false)),
        Err(e) => Err(e),
    }
}

// ---------------------------------------------------------------------------
// Starting
// ---------------------------------------------------------------------------

/// The store of a server, and the key that signs the requests to it.
pub enum StoreChoice {
    /// In memory.
    Memory,
    /// On a VSS server.
    Vss(SigningKey),
}

/// What a server is started with; `W` is its wallet.
pub struct Startup<W> {
    /// The state, with the offer of the wallet where there is one.
    pub state: AppState,
    /// The store.
    pub store: StoreChoice,
    /// Why the server does not seed, where it does not.
    pub seeding_refusal: Option<String>,
    /// The wallet, where one is enabled.
    pub wallet: Option<W>,
}

impl<W> Startup<W> {
    /// The key that signs the requests to the store, where it is a VSS server.
    pub open spec fn signing_key(&self) -> Option<Seq<u8>> {
        match self.store {
            StoreChoice::Memory => None,
            StoreChoice::Vss(key) => Some(key@),
        }
    }
}

/// The secret key of a hexadecimal text, or what is told of it where it is none.
pub open spec fn told_key(hex_sk: Seq<char>) -> Result<Seq<u8>, Seq<char>> {
    match secret_of_hex(hex_sk) {
        Ok(secret) => Ok(secret),
        Err(e) => Err(key_error_text(e)),
    }
}

/// Whether a new secret key, made where the file is missing, may come to a result: the
/// key is kept in the file first.
pub open spec fn new_key_comes<K: Fn(&str, &String) -> Result<(), String>>(
    name: &str,
    keep: K,
    res: Result<Seq<u8>, Seq<char>>,
) -> bool {
    exists|secret: Seq<u8>, text: String, kept: Result<(), String>|
        {
            &&& #[trigger] is_secret_key(secret)
            &&& is_drawn_secret(secret)
            &&& text@ == to_hex(secret)
            &&& #[trigger] keep.ensures((name, &text), kept)
            &&& res == match kept {
                Ok(_) => Ok::<Seq<u8>, Seq<char>>(secret),
                Err(e) => Err::<Seq<u8>, Seq<char>>(e@),
            }
        }
}

/// Whether a secret key may come to a result: it is the configured one; where none is
/// configured, the one in the file; and where there is no file, a new one.
pub open spec fn key_comes<
    R: Fn(&str) -> Result<Option<String>, String>,
    K: Fn(&str, &String) -> Result<(), String>,
>(
    configured: Option<Seq<char>>,
    name: &str,
    read: R,
    keep: K,
    res: Result<Seq<u8>, Seq<char>>,
) -> bool {
    match configured {
        Some(hex_sk) => res == told_key(hex_sk),
        None => exists|file: Result<Option<String>, String>| #[trigger]
            read.ensures((name,), file) && match file {
                Err(e) => res == Err::<Seq<u8>, Seq<char>>(e@),
                Ok(Some(text)) => res == told_key(trimmed(text@)),
                Ok(None) => new_key_comes(name, keep, res),
            },
    }
}

/// The secret key that a server is configured to sign its requests with.
pub open spec fn configured_signing_key(config: Config) -> Option<Seq<char>> {
    known_signing_key(config.storage.signing_key_hex@, None)
}

/// The secret key that a server is configured to be known by.
pub open spec fn configured_identity(config: Config) -> Option<Seq<char>> {
    known_secret(config.nostr.secret_key_hex@, None)
}

/// Whether a server may write a file when it starts: that of a key that it needs, that is
/// not configured, and that no file holds yet. A key that is kept is never written over.
pub open spec fn may_keep<R: Fn(&str) -> Result<Option<String>, String>>(
    config: Config,
    read: R,
    name: &str,
) -> bool {
    &&& read.ensures((name,), Ok::<Option<String>, String>(None))
    &&& {
        ||| name@ == "nostr.key"@ && configured_identity(config) is None
        ||| name@ == "vss.key"@ && configured_signing_key(config) is None && backend_of(
            config.storage.backend@,
        ) == Ok::<Backend, Seq<char>>(Backend::Vss)
    }
}

/// Whether it may come out why a server does not seed: its seeder is looked for where
/// it is to seed.
pub open spec fn seeding_decided<B: Fn(&String) -> bool>(
    config: Config,
    find: B,
    why: Option<Seq<char>>,
) -> bool {
    if config.torrent.enable {
        exists|found: bool| #[trigger]
            find.ensures((&config.torrent.carl_bin,), found) && why == why_not_seeding(
                true,
                found,
                config.torrent.carl_bin@,
                config.data_dir@,
            )
    } else {
        why == why_not_seeding(false, false, config.torrent.carl_bin@, config.data_dir@)
    }
}

/// Whether starting has failed, with what is told of it.
pub open spec fn not_started<W>(res: Result<Startup<W>, String>, told: Seq<char>) -> bool {
    res matches Err(e) && e@ == told
}

/// Whether a server has been started from its parts.
pub open spec fn started_as<W>(
    config: Config,
    signing_key: Option<Seq<u8>>,
    why: Option<Seq<char>>,
    secret: Seq<u8>,
    offer: Option<Seq<char>>,
    wallet: Option<W>,
    res: Result<Startup<W>, String>,
) -> bool {
    &&& res matches Ok(s)
    &&& s.state.config == config
    &&& clock_reading(s.state.started_at)
    &&& s.state.keys@ == secret
    &&& optional_text(s.state.wallet_offer) == offer
    &&& s.signing_key() == signing_key
    &&& optional_text(s.seeding_refusal) == why
    &&& s.wallet == wallet
}

/// Whether starting a server may come to a result once its keys are there: its wallet
/// is connected where one is enabled, and its offer is then the one of the server.
pub open spec fn starts_wallet<C: FnOnce(&Config) -> Result<(W, String), String>, W>(
    config: Config,
    connect: C,
    signing_key: Option<Seq<u8>>,
    why: Option<Seq<char>>,
    secret: Seq<u8>,
    res: Result<Startup<W>, String>,
) -> bool {
    if config.lightning.enable {
        exists|out: Result<(W, String), String>| #[trigger]
            connect.ensures((&config,), out) && match out {
                Err(e) => not_started(res, e@),
                Ok((wallet, offer)) => started_as(
                    config,
                    signing_key,
                    why,
                    secret,
                    Some(offer@),
                    Some(wallet),
                    res,
                ),
            }
    } else {
        started_as(config, signing_key, why, secret, None, None, res)
    }
}

/// Whether starting a server may come to a result once its store is there.
pub open spec fn starts_on<
    R: Fn(&str) -> Result<Option<String>, String>,
    K: Fn(&str, &String) -> Result<(), String>,
    B: Fn(&String) -> bool,
    C: FnOnce(&Config) -> Result<(W, String), String>,
    W,
>(
    config: Config,
    read: R,
    keep: K,
    find: B,
    connect: C,
    signing_key: Option<Seq<u8>>,
    res: Result<Startup<W>, String>,
) -> bool {
    exists|why: Option<Seq<char>>, identity: Result<Seq<u8>, Seq<char>>|
        {
            &&& #[trigger] seeding_decided(config, find, why)
            &&& #[trigger] key_comes(
                configured_identity(config),
                "nostr.key",
                read,
                keep,
                identity,
            )
            &&& match identity {
                Err(told) => not_started(res, told),
                Ok(secret) => starts_wallet(config, connect, signing_key, why, secret, res),
            }
        }
}

/// Whether starting a server may come to a result.
pub open spec fn starts<
    R: Fn(&str) -> Result<Option<String>, String>,
    K: Fn(&str, &String) -> Result<(), String>,
    B: Fn(&String) -> bool,
    C: FnOnce(&Config) -> Result<(W, String), String>,
    W,
>(
    config: Config,
    read: R,
    keep: K,
    find: B,
    connect: C,
    res: Result<Startup<W>, String>,
) -> bool {
    match backend_of(config.storage.backend@) {
        Err(told) => not_started(res, told),
        Ok(Backend::Memory) => starts_on(config, read, keep, find, connect, None, res),
        Ok(Backend::Vss) => exists|key: Result<Seq<u8>, Seq<char>>|
            {
                &&& #[trigger] key_comes(
                    configured_signing_key(config),
                    "vss.key",
                    read,
                    keep,
                    key,
                )
                &&& match key {
                    Err(told) => not_started(res, told),
                    Ok(secret) => starts_on(
                        config,
                        read,
                        keep,
                        find,
                        connect,
                        Some(secret),
                        res,
                    ),
                }
            },
    }
}

/// The view of a signing key that has come, or of what is told where none has.
pub open spec fn signing_key_view(res: Result<SigningKey, String>) -> Result<Seq<u8>, Seq<char>> {
    match res {
        Ok(key) => Ok(key@),
        Err(e) => Err(e@),
    }
}

/// The view of an identity that has come, or of what is told where none has.
pub open spec fn identity_view(res: Result<NostrKeys, String>) -> Result<Seq<u8>, Seq<char>> {
    match res {
        Ok(keys) => Ok(keys@),
        Err(e) => Err(e@),
    }
}

/// The key that signs the requests to a VSS server; a new one is kept in `vss.key`.
fn signing_key<
    R: Fn(&str) -> Result<Option<String>, String>,
    K: Fn(&str, &String) -> Result<(), String>,
>(config: &Config, read: &R, keep: &K) -> (res: Result<SigningKey, String>)
    requires
        forall|name: &str| #[trigger] read.requires((name,)),
        forall|name: &str, text: &String|
            may_keep(*config, *read, name) ==> #[trigger] keep.requires((name, text)),
        backend_of(config.storage.backend@) == Ok::<Backend, Seq<char>>(Backend::Vss),
    ensures
        key_comes(
            configured_signing_key(*config),
            "vss.key",
            *read,
            *keep,
            signing_key_view(res),
        ),
{
    let configured = config.storage.signing_key_hex.as_str();
    let file: Option<String> = if configured.unicode_len() > 0 {
        None
    } else {
        let out = read("vss.key");
        assert(read.ensures(("vss.key",), out));
        match out {
            Ok(file) => file,
            Err(e) => {
                return Err(e);
            },
        }
    };
    match resolve_vss_signing_key(configured, &file) {
        Err(e) => Err(e.to_string()),
        Ok((key, fresh)) => {
            if fresh {
                let text = key.secret_hex();
                let kept = keep("vss.key", &text);
                assert(is_secret_key(key@) && keep.ensures(("vss.key", &text), kept));
                match kept {
                    Ok(_) => Ok(key),
                    Err(e) => Err(e),
                }
            } else {
                Ok(key)
            }
        },
    }
}

/// The identity of a server; a new one is kept in `nostr.key`.
fn identity<
    R: Fn(&str) -> Result<Option<String>, String>,
    K: Fn(&str, &String) -> Result<(), String>,
>(config: &Config, read: &R, keep: &K) -> (res: Result<NostrKeys, String>)
    requires
        forall|name: &str| #[trigger] read.requires((name,)),
        forall|name: &str, text: &String|
            may_keep(*config, *read, name) ==> #[trigger] keep.requires((name, text)),
    ensures
        key_comes(configured_identity(*config), "nostr.key", *read, *keep, identity_view(res)),
{
    let configured = config.nostr.secret_key_hex.as_str();
    let file: Option<String> = if configured.unicode_len() > 0 {
        None
    } else {
        let out = read("nostr.key");
        assert(read.ensures(("nostr.key",), out));
        match out {
            Ok(file) => file,
            Err(e) => {
                return Err(e);
            },
        }
    };
    match resolve_identity(configured, &file) {
        Err(e) => Err(e.to_string()),
        Ok((keys, fresh)) => {
            if fresh {
                let text = keys.secret_hex();
                let kept = keep("nostr.key", &text);
                assert(is_secret_key(keys@) && keep.ensures(("nostr.key", &text), kept));
                match kept {
                    Ok(_) => Ok(keys),
                    Err(e) => Err(e),
                }
            } else {
                Ok(keys)
            }
        },
    }
}

/// Makes the state of a server from its configuration: its store, its seeder, its
/// identity and its wallet. `read` reads a file of the data directory, where it is
/// there; `keep` writes one; `find` tells whether a seeder can be run; `connect`
/// connects the wallet, and brings its offer. The state starts at the time of its
/// making.
pub fn build_state<
    R: Fn(&str) -> Result<Option<String>, String>,
    K: Fn(&str, &String) -> Result<(), String>,
    B: Fn(&String) -> bool,
    C: FnOnce(&Config) -> Result<(W, String), String>,
    W,
>(config: Config, read: &R, keep: &K, find: &B, connect: C) -> (res: Result<Startup<W>, String>)
    requires
        forall|name: &str| #[trigger] read.requires((name,)),
        forall|name: &str, text: &String|
            may_keep(config, *read, name) ==> #[trigger] keep.requires((name, text)),
        config.torrent.enable ==> find.requires((&config.torrent.carl_bin,)),
        config.lightning.enable ==> connect.requires((&config,)),
    ensures
        starts(config, *read, *keep, *find, connect, res),
{
    let store: StoreChoice = match choose_backend(config.storage.backend.as_str()) {
        Err(e) => {
            return Err(e);
        },
        Ok(Backend::Memory) => StoreChoice::Memory,
        Ok(Backend::Vss) => {
            let key = signing_key(&config, read, keep);
            let ghost come = signing_key_view(key);
            assert(key_comes(configured_signing_key(config), "vss.key", *read, *keep, come));
            match key {
                Err(e) => {
                    return Err(e);
                },
                Ok(key) => StoreChoice::Vss(key),
            }
        },
    };
    let carl_found: bool = if config.torrent.enable {
        find(&config.torrent.carl_bin)
    } else {
        false
    };
    let seeding_refusal = seeding_refusal(&config, carl_found);
    let ghost why = optional_text(seeding_refusal);
    assert(seeding_decided(config, *find, why));
    let keys = identity(&config, read, keep);
    let ghost known = identity_view(keys);
    assert(key_comes(configured_identity(config), "nostr.key", *read, *keep, known));
    let keys = match keys {
        Err(e) => {
            return Err(e);
        },
        Ok(keys) => keys,
    };
    let ghost c = config;
    let (wallet, wallet_offer): (Option<W>, Option<String>) = if config.lightning.enable {
        let out = connect(&config);
        assert(connect.ensures((&c,), out));
        match out {
            Err(e) => {
                return Err(e);
            },
            Ok((wallet, offer)) => (Some(wallet), Some(offer)),
        }
    } else {
        (None, None)
    };
    let state = AppState { config, keys, started_at: now_secs(), wallet_offer };
    Ok(Startup { state, store, seeding_refusal, wallet })
}

// ---------------------------------------------------------------------------
// Laws
// ---------------------------------------------------------------------------

/// A key that was kept in its file is the one that the next start finds there.
pub proof fn law_kept_key_comes_again<
    R: Fn(&str) -> Result<Option<String>, String>,
    K: Fn(&str, &String) -> Result<(), String>,
>(name: &str, read: R, keep: K, secret: Seq<u8>, res: Result<Seq<u8>, Seq<char>>)
    requires
        is_secret_key(secret),
        forall|file: Result<Option<String>, String>| #[trigger]
            read.ensures((name,), file) ==> (file matches Ok(Some(text)) && text@ == to_hex(secret)),
        key_comes(None, name, read, keep, res),
    ensures
        res == Ok::<Seq<u8>, Seq<char>>(secret),
{
    lemma_hex_trimmed(secret);
    law_secret_key_roundtrip(secret);
}

/// A server that starts again has the identity that it had, where it was kept: the one
/// in its file, or the one that is configured.
pub proof fn law_next_start_same_identity<
    R: Fn(&str) -> Result<Option<String>, String>,
    K: Fn(&str, &String) -> Result<(), String>,
    B: Fn(&String) -> bool,
    C: FnOnce(&Config) -> Result<(W, String), String>,
    W,
>(
    config: Config,
    first: Startup<W>,
    read: R,
    keep: K,
    find: B,
    connect: C,
    second: Result<Startup<W>, String>,
)
    requires
        is_secret_key(first.state.keys@),
        match configured_identity(config) {
            Some(hex_sk) => told_key(hex_sk) == Ok::<Seq<u8>, Seq<char>>(first.state.keys@),
            None => forall|file: Result<Option<String>, String>| #[trigger]
                read.ensures(("nostr.key",), file) ==> (file matches Ok(Some(text)) && text@
                    == to_hex(first.state.keys@)),
        },
        starts(config, read, keep, find, connect, second),
    ensures
        second matches Ok(s) ==> s.state.keys@ == first.state.keys@,
{
    if second is Ok {
        let signing_key = second->Ok_0.signing_key();
        assert(starts_on(config, read, keep, find, connect, signing_key, second)) by {
            match backend_of(config.storage.backend@) {
                Ok(Backend::Vss) => {
                    let key = choose|key: Result<Seq<u8>, Seq<char>>|
                        {
                            &&& #[trigger] key_comes(
                                configured_signing_key(config),
                                "vss.key",
                                read,
                                keep,
                                key,
                            )
                            &&& match key {
                                Err(told) => not_started(second, told),
                                Ok(secret) => starts_on(
                                    config,
                                    read,
                                    keep,
                                    find,
                                    connect,
                                    Some(secret),
                                    second,
                                ),
                            }
                        };
                    assert(key is Ok);
                },
                _ => {},
            }
        }
        let (why, identity) = choose|
            why: Option<Seq<char>>,
            identity: Result<Seq<u8>, Seq<char>>,
        |
            {
                &&& #[trigger] seeding_decided(config, find, why)
                &&& #[trigger] key_comes(
                    configured_identity(config),
                    "nostr.key",
                    read,
                    keep,
                    identity,
                )
                &&& match identity {
                    Err(told) => not_started(second, told),
                    Ok(secret) => starts_wallet(config, connect, signing_key, why, secret, second),
                }
            };
        if configured_identity(config) is None {
            law_kept_key_comes_again("nostr.key", read, keep, first.state.keys@, identity);
        }
    }
}

/// A server seeds just where it is to and its seeder can be run.
pub proof fn law_seeds_where_it_can(
    enable: bool,
    carl_found: bool,
    carl_bin: Seq<char>,
    data_dir: Seq<char>,
)
    ensures
        why_not_seeding(enable, carl_found, carl_bin, data_dir) is None <==> enable && carl_found,
{
}

/// A server stores in memory or on a VSS server just where its configuration says so, and starts
/// with no other store.
pub proof fn law_store_as_configured(name: Seq<char>)
    ensures
        backend_of(name) == Ok::<Backend, Seq<char>>(Backend::Memory) <==> name == "memory"@,
        backend_of(name) == Ok::<Backend, Seq<char>>(Backend::Vss) <==> name == "vss"@,
        backend_of(name) is Err <==> name != "memory"@ && name != "vss"@,
{
    reveal_strlit("vss");
    reveal_strlit("memory");
    assert("vss"@.len() != "memory"@.len());
}

/// A server that has been started is the one that its configuration asks for: it stores where it is
/// to, has the offer of a wallet just where a wallet is enabled, and counts its time from a reading of
/// the clock.
pub proof fn law_started_as_configured<
    R: Fn(&str) -> Result<Option<String>, String>,
    K: Fn(&str, &String) -> Result<(), String>,
    B: Fn(&String) -> bool,
    C: FnOnce(&Config) -> Result<(W, String), String>,
    W,
>(
    config: Config,
    read: R,
    keep: K,
    find: B,
    connect: C,
    s: Startup<W>,
)
    requires
        starts(config, read, keep, find, connect, Ok(s)),
    ensures
        s.state.config == config,
        clock_reading(s.state.started_at),
        s.state.wallet_offer is Some <==> config.lightning.enable,
        s.wallet is Some <==> config.lightning.enable,
        s.signing_key() is Some <==> config.storage.backend@ == "vss"@,
        s.signing_key() is None <==> config.storage.backend@ == "memory"@,
        !config.torrent.enable ==> s.seeding_refusal is Some,
{
    law_store_as_configured(config.storage.backend@);
    reveal_strlit("vss");
    reveal_strlit("memory");
    assert("vss"@.len() != "memory"@.len());
    let res: Result<Startup<W>, String> = Ok(s);
    let signing_key = s.signing_key();
    assert(starts_on(config, read, keep, find, connect, signing_key, res)) by {
        match backend_of(config.storage.backend@) {
            Ok(Backend::Vss) => {
                let key = choose|key: Result<Seq<u8>, Seq<char>>|
                    {
                        &&& #[trigger] key_comes(
                            configured_signing_key(config),
                            "vss.key",
                            read,
                            keep,
                            key,
                        )
                        &&& match key {
                            Err(told) => not_started(res, told),
                            Ok(secret) => starts_on(
                                config,
                                read,
                                keep,
                                find,
                                connect,
                                Some(secret),
                                res,
                            ),
                        }
                    };
                assert(key is Ok);
            },
            _ => {},
        }
    }
}

/// The key that signs requests is the configured one, or else that of the file, each without white
/// space around it; only where there is neither, a new one is made.
pub proof fn law_configured_signing_key_first(configured: Seq<char>, file: Option<Seq<char>>)
    ensures
        configured.len() > 0 ==> known_signing_key(configured, file) == Some(trimmed(configured)),
        configured.len() == 0 && file is Some ==> known_signing_key(configured, file) == Some(
            trimmed(file->0),
        ),
        configured.len() == 0 && file is None ==> known_signing_key(configured, file) is None,
{
}

} // verus!
