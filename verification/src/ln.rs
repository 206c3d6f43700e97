//! Payments over a Lightning wallet: which network, which key and which words the
//! wallet takes, and which of its events is a payment that was received.
//!
//! A server trusts a payment only where its own wallet has seen it.
use vstd::prelude::*;
use vstd::string::*;
use crate::config::LightningConfig;
use crate::manifest::optional_text;
use crate::outside::{bip39_words, drawn, mnemonic_of, random_bytes, spaces};
use crate::text::{ascii_lowercase, lowercase, same_text, trim_text, trimmed};

verus! {

/// The network of a wallet.
#[derive(Debug, Clone, Copy, PartialEq, Eq, Structural)]
pub enum LiquidNetwork {
    /// The network of real money. It needs an API key.
    Mainnet,
    /// A network of one's own, for tests.
    Regtest,
}

/// A payment that was received.
#[derive(Debug)]
pub struct IncomingPayment {
    /// The amount in sats.
    pub amount_sat: u64,
    /// The fees in sats.
    pub fees_sat: u64,
    /// The note of the payer; the id of the backup that is paid for.
    pub payer_note: Option<String>,
    /// The payment hash.
    pub payment_hash: Option<String>,
    /// The preimage.
    pub preimage: Option<String>,
}

/// A payment that was made.
#[derive(Debug)]
pub struct PaidPayment {
    /// The amount in sats.
    pub amount_sat: u64,
    /// The fees in sats.
    pub fees_sat: u64,
    /// The preimage.
    pub preimage: Option<String>,
}

/// How a wallet is funded from outside.
#[derive(Debug, Clone, Copy, PartialEq, Eq, Structural)]
pub enum FundingMethod {
    /// Bitcoin on chain, swapped on receipt.
    BitcoinAddress,
    /// L-BTC directly: no swap, no fee and no least amount.
    LiquidAddress,
}

/// Where a wallet is funded, and under which conditions.
#[derive(Debug)]
pub struct FundingInfo {
    /// The address.
    pub destination: String,
    /// The least amount in sats, where there is one.
    pub min_payer_amount_sat: Option<u64>,
    /// The most in sats, where there is one.
    pub max_payer_amount_sat: Option<u64>,
    /// The expected fee in sats.
    pub fees_sat: u64,
}

/// Which way a payment goes.
#[derive(Debug, Clone, Copy, PartialEq, Eq, Structural)]
pub enum PaymentDirection {
    /// To the wallet.
    Receive,
    /// From the wallet.
    Send,
}

/// What is known of how a payment was made.
#[derive(Debug)]
pub enum PaymentDetails {
    /// Over Lightning.
    Lightning {
        /// The note of the payer.
        payer_note: Option<String>,
        /// The payment hash.
        payment_hash: Option<String>,
        /// The preimage.
        preimage: Option<String>,
    },
    /// In another way.
    Other,
}

/// A payment of a wallet.
#[derive(Debug)]
pub struct WalletPayment {
    /// Which way it goes.
    pub direction: PaymentDirection,
    /// The amount in sats.
    pub amount_sat: u64,
    /// The fees in sats.
    pub fees_sat: u64,
    /// How it was made.
    pub details: PaymentDetails,
}

/// An event of a wallet.
#[derive(Debug)]
pub enum WalletEvent {
    /// A payment has succeeded.
    PaymentSucceeded(WalletPayment),
    /// Something else has happened.
    Other,
}

/// The payment that an event says was received: one that has succeeded, goes to
/// the wallet and was made over Lightning. No other event says so.
pub fn incoming_payment(event: WalletEvent) -> (payment: Option<IncomingPayment>)
    ensures
        match payment {
            Some(p) => match event {
                WalletEvent::PaymentSucceeded(w) => {
                    &&& w.direction is Receive
                    &&& w.amount_sat == p.amount_sat
                    &&& w.fees_sat == p.fees_sat
                    &&& match w.details {
                        PaymentDetails::Lightning {
                            payer_note,
                            payment_hash,
                            preimage,
                        } => p.payer_note == payer_note && p.payment_hash == payment_hash
                            && p.preimage == preimage,
                        PaymentDetails::Other => false,
                    }
                },
                WalletEvent::Other => false,
            },
            None => match event {
                WalletEvent::PaymentSucceeded(w) => !(w.direction is Receive)
                    || w.details is Other,
                WalletEvent::Other => true,
            },
        },
{
    match event {
        WalletEvent::Other => None,
        WalletEvent::PaymentSucceeded(w) => match w.direction {
            PaymentDirection::Send => None,
            PaymentDirection::Receive => match w.details {
                PaymentDetails::Other => None,
                PaymentDetails::Lightning { payer_note, payment_hash, preimage } => Some(
                    IncomingPayment {
                        amount_sat: w.amount_sat,
                        fees_sat: w.fees_sat,
                        payer_note,
                        payment_hash,
                        preimage,
                    },
                ),
            },
        },
    }
}

/// What is known of a payment that the wallet has made. Only one over Lightning
/// has a preimage.
pub fn paid_payment(payment: WalletPayment) -> (paid: PaidPayment)
    ensures
        paid.amount_sat == payment.amount_sat,
        paid.fees_sat == payment.fees_sat,
        match payment.details {
            PaymentDetails::Lightning { preimage, .. } => paid.preimage == preimage,
            PaymentDetails::Other => paid.preimage is None,
        },
{
    let preimage = match payment.details {
        PaymentDetails::Lightning { preimage, .. } => preimage,
        PaymentDetails::Other => None,
    };
    PaidPayment { amount_sat: payment.amount_sat, fees_sat: payment.fees_sat, preimage }
}

// ---------------------------------------------------------------------------
// Settings
// ---------------------------------------------------------------------------

/// What a setting says of the network. Capitals do not matter.
pub open spec fn network_of(setting: Seq<char>, s: Seq<char>) -> Result<LiquidNetwork, Seq<char>> {
    let name = lowercase(s);
    if name == "regtest"@ {
        Ok(LiquidNetwork::Regtest)
    } else if name == "mainnet"@ {
        Ok(LiquidNetwork::Mainnet)
    } else {
        Err(
            "unsupported "@ + setting + " '"@ + name
                + "' (use \"regtest\" or \"mainnet\" — testnet is not supported by breez-sdk-liquid)"@,
        )
    }
}

/// Reads the value of a setting that names the network.
pub fn parse_network(setting: &str, s: &str) -> (res: Result<LiquidNetwork, String>)
    ensures
        match res {
            Ok(n) => network_of(setting@, s@) == Ok::<LiquidNetwork, Seq<char>>(n),
            Err(e) => network_of(setting@, s@) == Err::<LiquidNetwork, Seq<char>>(e@),
        },
{
    let name = ascii_lowercase(s);
    proof {
        reveal_strlit("regtest");
        reveal_strlit("mainnet");
        assert("regtest"@[0] != "mainnet"@[0]);
    }
    if same_text(name.as_str(), "regtest") {
        Ok(LiquidNetwork::Regtest)
    } else if same_text(name.as_str(), "mainnet") {
        Ok(LiquidNetwork::Mainnet)
    } else {
        let mut text = "unsupported ".to_owned();
        text.append(setting);
        text.append(" '");
        text.append(name.as_str());
        text.append(
            "' (use \"regtest\" or \"mainnet\" — testnet is not supported by breez-sdk-liquid)",
        );
        Err(text)
    }
}

/// What a setting holds where it is not empty.
pub open spec fn non_empty(s: Seq<char>) -> Option<Seq<char>> {
    if s.len() > 0 {
        Some(s)
    } else {
        None
    }
}

/// The API key: that of the configuration, or else that of the environment, as far
/// as they are not empty.
pub open spec fn api_key_of(configured: Seq<char>, environment: Option<Seq<char>>) -> Option<
    Seq<char>,
> {
    match non_empty(configured) {
        Some(key) => Some(key),
        None => match environment {
            Some(key) => non_empty(key),
            None => None,
        },
    }
}

/// The API key of a server: that of the configuration, or else that of the
/// environment.
pub fn choose_api_key(configured: &str, environment: &Option<String>) -> (key: Option<String>)
    ensures
        optional_text(key) == api_key_of(configured@, optional_text(*environment)),
{
    if configured.unicode_len() > 0 {
        return Some(configured.to_owned());
    }
    match environment {
        Some(key) => if key.as_str().unicode_len() > 0 {
            Some(key.clone())
        } else {
            None
        },
        None => None,
    }
}

/// What a server that connects to mainnet without an API key is told.
pub const NO_SERVER_KEY: &'static str =
    "lightning.network = \"mainnet\" requires an API key — set lightning.api_key in config.toml or BREEZ_API_KEY in the environment/.env (get a free key at https://breez.technology)";

/// What a client that connects to mainnet without an API key is told.
pub const NO_CLIENT_KEY: &'static str =
    "--ln-network mainnet requires --ln-api-key (or BREEZ_API_KEY env)";

/// The network and the API key of a wallet.
pub struct WalletSettings {
    /// The network.
    pub network: LiquidNetwork,
    /// The API key.
    pub api_key: Option<String>,
}

/// The network and the API key that a server's wallet takes, or why it takes none:
/// mainnet needs a key.
pub open spec fn server_settings_of(
    network: Seq<char>,
    configured: Seq<char>,
    environment: Option<Seq<char>>,
) -> Result<(LiquidNetwork, Option<Seq<char>>), Seq<char>> {
    match network_of("lightning.network"@, network) {
        Err(e) => Err(e),
        Ok(n) => {
            let key = api_key_of(configured, environment);
            if n is Mainnet && key is None {
                Err(NO_SERVER_KEY@)
            } else {
                Ok((n, key))
            }
        },
    }
}

/// What settles on the settings of a wallet, in mathematical terms.
pub open spec fn settings_view(res: Result<WalletSettings, String>) -> Result<
    (LiquidNetwork, Option<Seq<char>>),
    Seq<char>,
> {
    match res {
        Ok(s) => Ok((s.network, optional_text(s.api_key))),
        Err(e) => Err(e@),
    }
}

/// The network and the API key that a server's wallet takes, given the API key of
/// the environment.
pub fn server_wallet_settings(config: &LightningConfig, environment: &Option<String>) -> (res:
    Result<WalletSettings, String>)
    ensures
        settings_view(res) == server_settings_of(
            config.network@,
            config.api_key@,
            optional_text(*environment),
        ),
{
    match parse_network("lightning.network", config.network.as_str()) {
        Err(e) => Err(e),
        Ok(network) => {
            let api_key = choose_api_key(config.api_key.as_str(), environment);
            if network == LiquidNetwork::Mainnet && api_key.is_none() {
                return Err(NO_SERVER_KEY.to_owned());
            }
            Ok(WalletSettings { network, api_key })
        },
    }
}

/// The network and the API key that a client's wallet takes, or why it takes none.
pub open spec fn client_settings_of(network: Seq<char>, api_key: Option<Seq<char>>) -> Result<
    (LiquidNetwork, Option<Seq<char>>),
    Seq<char>,
> {
    match network_of("--ln-network"@, network) {
        Err(e) => Err(e),
        Ok(n) => if n is Mainnet && api_key is None {
            Err(NO_CLIENT_KEY@)
        } else {
            Ok((n, api_key))
        },
    }
}

/// The network and the API key that a client's wallet takes.
pub fn client_wallet_settings(ln_network: &str, ln_api_key: Option<String>) -> (res: Result<
    WalletSettings,
    String,
>)
    ensures
        settings_view(res) == client_settings_of(ln_network@, optional_text(ln_api_key)),
{
    match parse_network("--ln-network", ln_network) {
        Err(e) => Err(e),
        Ok(network) => {
            if network == LiquidNetwork::Mainnet && ln_api_key.is_none() {
                return Err(NO_CLIENT_KEY.to_owned());
            }
            Ok(WalletSettings { network, api_key: ln_api_key })
        },
    }
}

/// A secret that may be configured, kept in a file, or made anew.
pub enum SecretSource {
    /// It is known.
    Known(String),
    /// It has to be made, and kept.
    Fresh,
}

/// Where a secret comes from: the configuration, or else the file, without the
/// white space around it.
pub open spec fn known_secret(configured: Seq<char>, file: Option<Seq<char>>) -> Option<Seq<char>> {
    match non_empty(configured) {
        Some(s) => Some(s),
        None => match file {
            Some(s) => Some(trimmed(s)),
            None => None,
        },
    }
}

/// Where a secret comes from, given what the file holds where there is one.
pub fn secret_source(configured: &str, file: &Option<String>) -> (source: SecretSource)
    ensures
        match source {
            SecretSource::Known(s) => known_secret(configured@, optional_text(*file)) == Some(s@),
            SecretSource::Fresh => known_secret(configured@, optional_text(*file)) is None,
        },
{
    if configured.unicode_len() > 0 {
        return SecretSource::Known(configured.to_owned());
    }
    match file {
        Some(s) => SecretSource::Known(trim_text(s.as_str())),
        None => SecretSource::Fresh,
    }
}

/// Whether a text is a BIP39 mnemonic of twelve words: the one of some sixteen bytes.
pub open spec fn is_mnemonic(words: Seq<char>) -> bool {
    exists|entropy: Seq<u8>| entropy.len() == 16 && words == #[trigger] bip39_words(entropy)
}

/// Whether a text is the BIP39 mnemonic of sixteen bytes that were drawn.
pub open spec fn is_drawn_mnemonic(words: Seq<char>) -> bool {
    exists|entropy: [u8; 16]| #[trigger] drawn(entropy) && words == bip39_words(entropy@)
}

/// The twelve words of a wallet whose entropy was drawn.
pub fn mnemonic_from_entropy(entropy: &[u8; 16]) -> (words: String)
    ensures
        words@ == bip39_words(entropy@),
        is_mnemonic(words@),
        spaces(words@) == 11,
        trimmed(words@) == words@,
{
    let words = mnemonic_of(entropy);
    assert(entropy@.len() == 16 && words@ == bip39_words(entropy@));
    words
}

/// A fresh BIP39 mnemonic of twelve words for a new wallet. It is that of sixteen random
/// bytes, and always there.
pub fn generate_mnemonic() -> (res: Result<String, String>)
    ensures
        res matches Ok(words) && is_mnemonic(words@) && is_drawn_mnemonic(words@) && spaces(
            words@,
        ) == 11 && trimmed(words@) == words@,
{
    let entropy: [u8; 16] = random_bytes();
    assert(drawn(entropy));
    Ok(mnemonic_from_entropy(&entropy))
}

/// The file that holds the words of a wallet.
pub const MNEMONIC_FILE: &'static str = "breez-mnemonic.txt";

/// Whether the words of a wallet may come to a result: they are the configured ones;
/// where none are configured, those in the file; and where there is no file, those of a
/// new mnemonic, which are kept first.
pub open spec fn words_come<
    R: Fn(&str) -> Result<Option<String>, String>,
    K: Fn(&str, &String) -> Result<(), String>,
>(configured: Seq<char>, read: R, keep: K, res: Result<Seq<char>, Seq<char>>) -> bool {
    match non_empty(configured) {
        Some(words) => res == Ok::<Seq<char>, Seq<char>>(words),
        None => exists|file: Result<Option<String>, String>| #[trigger]
            read.ensures((MNEMONIC_FILE,), file) && match file {
                Err(e) => res == Err::<Seq<char>, Seq<char>>(e@),
                Ok(Some(text)) => res == Ok::<Seq<char>, Seq<char>>(trimmed(text@)),
                Ok(None) => exists|words: String, kept: Result<(), String>|
                    {
                        &&& is_mnemonic(words@)
                        &&& is_drawn_mnemonic(words@)
                        &&& spaces(words@) == 11
                        &&& trimmed(words@) == words@
                        &&& #[trigger] keep.ensures((MNEMONIC_FILE, &words), kept)
                        &&& res == match kept {
                            Ok(_) => Ok::<Seq<char>, Seq<char>>(words@),
                            Err(e) => Err::<Seq<char>, Seq<char>>(e@),
                        }
                    },
            },
    }
}

/// Whether the words of a wallet may be written: where none are configured, and no file
/// holds them yet. Words that are kept are never written over.
pub open spec fn may_keep_words<R: Fn(&str) -> Result<Option<String>, String>>(
    configured: Seq<char>,
    read: R,
    name: &str,
) -> bool {
    &&& name@ == MNEMONIC_FILE@
    &&& configured.len() == 0
    &&& read.ensures((name,), Ok::<Option<String>, String>(None))
}

/// The view of words that have come, or of what is told where none have.
pub open spec fn words_view(res: Result<String, String>) -> Result<Seq<char>, Seq<char>> {
    match res {
        Ok(words) => Ok(words@),
        Err(e) => Err(e@),
    }
}

/// The words of a wallet; new ones are kept.
fn wallet_words<
    R: Fn(&str) -> Result<Option<String>, String>,
    K: Fn(&str, &String) -> Result<(), String>,
>(configured: &str, read: &R, keep: &K) -> (res: Result<String, String>)
    requires
        forall|name: &str| #[trigger] read.requires((name,)),
        forall|name: &str, text: &String|
            may_keep_words(configured@, *read, name) ==> #[trigger] keep.requires((name, text)),
    ensures
        words_come(configured@, *read, *keep, words_view(res)),
{
    let file: Option<String> = if configured.unicode_len() > 0 {
        None
    } else {
        let out = read(MNEMONIC_FILE);
        assert(read.ensures((MNEMONIC_FILE,), out));
        match out {
            Ok(file) => file,
            Err(e) => {
                return Err(e);
            },
        }
    };
    match secret_source(configured, &file) {
        SecretSource::Known(words) => Ok(words),
        SecretSource::Fresh => match generate_mnemonic() {
            Err(e) => Err(e),
            Ok(words) => {
                let kept = keep(MNEMONIC_FILE, &words);
                assert(keep.ensures((MNEMONIC_FILE, &words), kept));
                match kept {
                    Ok(_) => Ok(words),
                    Err(e) => Err(e),
                }
            },
        },
    }
}

/// Whether connecting a wallet may come to a result, given its settings: the words are
/// found or made, and the wallet is opened with both.
pub open spec fn connects<
    R: Fn(&str) -> Result<Option<String>, String>,
    K: Fn(&str, &String) -> Result<(), String>,
    O: FnOnce(WalletSettings, &String) -> Result<W, String>,
    W,
>(
    settings: Result<(LiquidNetwork, Option<Seq<char>>), Seq<char>>,
    configured: Seq<char>,
    read: R,
    keep: K,
    open_with: O,
    res: Result<W, String>,
) -> bool {
    match settings {
        Err(told) => res matches Err(e) && e@ == told,
        Ok(wanted) => exists|words: Result<Seq<char>, Seq<char>>|
            {
                &&& #[trigger] words_come(configured, read, keep, words)
                &&& match words {
                    Err(told) => res matches Err(e) && e@ == told,
                    Ok(words) => opens(open_with, wanted, words, res),
                }
            },
    }
}

/// Whether opening a wallet with settings and words may come to a result.
pub open spec fn opens<O: FnOnce(WalletSettings, &String) -> Result<W, String>, W>(
    open_with: O,
    wanted: (LiquidNetwork, Option<Seq<char>>),
    words: Seq<char>,
    res: Result<W, String>,
) -> bool {
    exists|settings: WalletSettings, text: String|
        {
            &&& settings.network == wanted.0
            &&& optional_text(settings.api_key) == wanted.1
            &&& text@ == words
            &&& #[trigger] open_with.ensures((settings, &text), res)
        }
}

/// Connects a wallet whose settings have been settled.
fn connect_with<
    R: Fn(&str) -> Result<Option<String>, String>,
    K: Fn(&str, &String) -> Result<(), String>,
    O: FnOnce(WalletSettings, &String) -> Result<W, String>,
    W,
>(
    settings: Result<WalletSettings, String>,
    configured: &str,
    read: &R,
    keep: &K,
    open_with: O,
) -> (res: Result<W, String>)
    requires
        forall|name: &str| #[trigger] read.requires((name,)),
        forall|name: &str, text: &String|
            settings is Ok && may_keep_words(configured@, *read, name) ==> #[trigger] keep.requires((name, text)),
        settings is Ok ==> forall|s: WalletSettings, w: &String| #[trigger]
            open_with.requires((s, w)),
    ensures
        connects(settings_view(settings), configured@, *read, *keep, open_with, res),
{
    let ghost wanted = settings_view(settings);
    let settings = match settings {
        Err(e) => {
            return Err(e);
        },
        Ok(settings) => settings,
    };
    let words = wallet_words(configured, read, keep);
    let ghost come = words_view(words);
    assert(words_come(configured@, *read, *keep, come));
    match words {
        Err(e) => Err(e),
        Ok(words) => {
            let ghost s = settings;
            let out = open_with(settings, &words);
            assert(open_with.ensures((s, &words), out));
            assert(opens(open_with, wanted->Ok_0, words@, out));
            out
        },
    }
}

/// Connects the wallet of a server, given the API key of the environment. `read` reads
/// a file of the data directory, where it is there; `keep` writes one; `open_with`
/// opens the wallet.
pub fn connect<
    R: Fn(&str) -> Result<Option<String>, String>,
    K: Fn(&str, &String) -> Result<(), String>,
    O: FnOnce(WalletSettings, &String) -> Result<W, String>,
    W,
>(
    config: &LightningConfig,
    environment: &Option<String>,
    read: &R,
    keep: &K,
    open_with: O,
) -> (res: Result<W, String>)
    requires
        forall|name: &str| #[trigger] read.requires((name,)),
        forall|name: &str, text: &String|
            server_settings_of(
                config.network@,
                config.api_key@,
                optional_text(*environment),
            ) is Ok && may_keep_words(config.mnemonic@, *read, name) ==> #[trigger] keep.requires((name, text)),
        server_settings_of(config.network@, config.api_key@, optional_text(*environment)) is Ok ==> forall|s: WalletSettings, w: &String| #[trigger]
            open_with.requires((s, w)),
    ensures
        connects(
            server_settings_of(config.network@, config.api_key@, optional_text(*environment)),
            config.mnemonic@,
            *read,
            *keep,
            open_with,
            res,
        ),
{
    let settings = server_wallet_settings(config, environment);
    connect_with(settings, config.mnemonic.as_str(), read, keep, open_with)
}

/// Connects the wallet of a client. `read` reads a file of its directory, where it is
/// there; `keep` writes one; `open_with` opens the wallet.
pub fn connect_client_wallet<
    R: Fn(&str) -> Result<Option<String>, String>,
    K: Fn(&str, &String) -> Result<(), String>,
    O: FnOnce(WalletSettings, &String) -> Result<W, String>,
    W,
>(ln_network: &str, ln_api_key: Option<String>, read: &R, keep: &K, open_with: O) -> (res: Result<
    W,
    String,
>)
    requires
        forall|name: &str| #[trigger] read.requires((name,)),
        forall|name: &str, text: &String|
            client_settings_of(ln_network@, optional_text(ln_api_key)) is Ok && may_keep_words(
                Seq::empty(),
                *read,
                name,
            ) ==> #[trigger] keep.requires((name, text)),
        client_settings_of(ln_network@, optional_text(ln_api_key)) is Ok ==> forall|s: WalletSettings, w: &String| #[trigger]
            open_with.requires((s, w)),
    ensures
        connects(
            client_settings_of(ln_network@, optional_text(ln_api_key)),
            Seq::empty(),
            *read,
            *keep,
            open_with,
            res,
        ),
{
    proof {
        reveal_strlit("");
        assert(""@ =~= Seq::<char>::empty());
    }
    let settings = client_wallet_settings(ln_network, ln_api_key);
    connect_with(settings, "", read, keep, open_with)
}

/// Words that were kept in their file are those that the next connection finds there.
pub proof fn law_kept_words_come_again<
    R: Fn(&str) -> Result<Option<String>, String>,
    K: Fn(&str, &String) -> Result<(), String>,
>(read: R, keep: K, words: Seq<char>, res: Result<Seq<char>, Seq<char>>)
    requires
        trimmed(words) == words,
        forall|file: Result<Option<String>, String>| #[trigger]
            read.ensures((MNEMONIC_FILE,), file) ==> (file matches Ok(Some(text)) && text@ == words),
        words_come(Seq::empty(), read, keep, res),
    ensures
        res == Ok::<Seq<char>, Seq<char>>(words),
{
}

/// Real money takes a key: neither a server nor a client connects to mainnet without an API
/// key, and a test network needs none.
pub proof fn law_mainnet_needs_key(
    network: Seq<char>,
    configured: Seq<char>,
    environment: Option<Seq<char>>,
)
    ensures
        server_settings_of(network, configured, environment) matches Ok((n, key)) ==> (n is Mainnet
            ==> key is Some),
        client_settings_of(network, environment) matches Ok((n, key)) ==> (n is Mainnet ==> key
            is Some),
        lowercase(network) == "regtest"@ ==> (server_settings_of(
            network,
            configured,
            environment,
        ) matches Ok((n, _)) && n is Regtest),
        lowercase(network) == "regtest"@ ==> client_settings_of(network, environment) == Ok::<
            (LiquidNetwork, Option<Seq<char>>),
            Seq<char>,
        >((LiquidNetwork::Regtest, environment)),
        lowercase(network) != "regtest"@ && lowercase(network) != "mainnet"@
            ==> server_settings_of(network, configured, environment) is Err && client_settings_of(
            network,
            environment,
        ) is Err,
{
    reveal_strlit("regtest");
    reveal_strlit("mainnet");
    assert("regtest"@[0] != "mainnet"@[0]);
}

/// With a key, mainnet is connected to, with that key: the configured one before the one of the
/// environment, and neither where it is empty.
pub proof fn law_mainnet_takes_key(
    network: Seq<char>,
    configured: Seq<char>,
    environment: Option<Seq<char>>,
)
    requires
        lowercase(network) == "mainnet"@,
    ensures
        configured.len() > 0 ==> server_settings_of(network, configured, environment) == Ok::<
            (LiquidNetwork, Option<Seq<char>>),
            Seq<char>,
        >((LiquidNetwork::Mainnet, Some(configured))),
        configured.len() == 0 && (environment matches Some(key) && key.len() > 0)
            ==> server_settings_of(network, configured, environment) == Ok::<
            (LiquidNetwork, Option<Seq<char>>),
            Seq<char>,
        >((LiquidNetwork::Mainnet, environment)),
        environment is Some ==> client_settings_of(network, environment) == Ok::<
            (LiquidNetwork, Option<Seq<char>>),
            Seq<char>,
        >((LiquidNetwork::Mainnet, environment)),
{
    reveal_strlit("regtest");
    reveal_strlit("mainnet");
    assert("regtest"@[0] != "mainnet"@[0]);
}

/// A secret that is configured is used as it is, whatever a file holds; else the one of the file,
/// without white space around it; and only where there is neither, a new one is made.
pub proof fn law_configured_secret_first(configured: Seq<char>, file: Option<Seq<char>>)
    ensures
        configured.len() > 0 ==> known_secret(configured, file) == Some(configured),
        configured.len() == 0 && file is Some ==> known_secret(configured, file) == Some(
            trimmed(file->0),
        ),
        configured.len() == 0 && file is None ==> known_secret(configured, file) is None,
{
}

/// Words that are configured are used, whatever a file holds; those of a file are used where none
/// are configured, and a file that cannot be read is told of.
pub proof fn law_configured_words_first<
    R: Fn(&str) -> Result<Option<String>, String>,
    K: Fn(&str, &String) -> Result<(), String>,
>(configured: Seq<char>, read: R, keep: K, res: Result<Seq<char>, Seq<char>>)
    requires
        words_come(configured, read, keep, res),
    ensures
        configured.len() > 0 ==> res == Ok::<Seq<char>, Seq<char>>(configured),
        configured.len() == 0 && (forall|file: Result<Option<String>, String>| #[trigger]
            read.ensures((MNEMONIC_FILE,), file) ==> file is Err) ==> res is Err,
        configured.len() == 0 && (forall|file: Result<Option<String>, String>| #[trigger]
            read.ensures((MNEMONIC_FILE,), file) ==> file matches Ok(None)) ==> (res matches Ok(
            words,
        ) ==> is_drawn_mnemonic(words)),
{
}

} // verus!
