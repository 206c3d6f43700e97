//! What the HTTP API answers.
use vstd::prelude::*;
use vstd::string::*;
use crate::announce::{
    announces, build_announcement_event, carries_event, publish, publishes, PublishOutcome,
    RelayResult,
};
use crate::json::{json_field, json_object, law_json_object_grows, write_field, write_object};
use crate::manifest::{
    optional_text, BackupKind, BackupManifest, ManifestView, PaymentRecord, PaymentView,
    ServiceAnnouncement, VersionView,
};
use crate::nostr::{copy_strings, public_hex_of, publish_text, valid_event, Event};
use crate::outside::{
    bech32_npub, clock_reading, drawn, json_quote, json_string, schnorr_public,
};
use crate::seeder::{status_views, SeedStatus, Seeder};
use crate::state::{
    backups_from, is_payment_now, lists_backups, lists_payments, manifest_views, payment_of,
    payment_outcome, payment_view, payment_views, payments_from, service_error_text, AppState, ServiceError,
    ServiceErrorView,
};
use crate::store::{StoreError, StoreErrorView, VersionedStore};
use crate::text::{decimal, texts};

verus! {

/// The status with which an error is answered.
pub open spec fn error_status(e: ServiceErrorView) -> u16 {
    match e {
        ServiceErrorView::NotFound(_) => 404,
        ServiceErrorView::TooLarge(..) => 413,
        ServiceErrorView::Store(StoreErrorView::Conflict(_)) => 409,
        ServiceErrorView::Forbidden(_) => 403,
        _ => 500,
    }
}

/// The body with which an error is answered.
pub open spec fn error_json(e: ServiceErrorView) -> Seq<char> {
    json_object(seq![json_field("error"@, json_string(service_error_text(e)))])
}

impl ServiceError {
    /// The status with which the error is answered.
    pub fn status(&self) -> (status: u16)
        ensures
            status == error_status(self@),
    {
        match self {
            ServiceError::NotFound(_) => 404,
            ServiceError::TooLarge(..) => 413,
            ServiceError::Store(StoreError::Conflict(_)) => 409,
            ServiceError::Forbidden(_) => 403,
            _ => 500,
        }
    }

    /// The body with which the error is answered.
    pub fn body(&self) -> (s: String)
        ensures
            s@ == error_json(self@),
    {
        let text = json_quote(self.to_string().as_str());
        let mut fields: Vec<String> = Vec::new();
        fields.push(write_field("error", text.as_str()));
        assert(texts(fields@) =~= seq![
            json_field("error"@, json_string(service_error_text(self@))),
        ]);
        write_object(&fields)
    }
}

/// The kind of an upload: the one that is asked for, or else no kind in
/// particular.
pub fn upload_kind(kind: Option<BackupKind>) -> (k: BackupKind)
    ensures
        k == (match kind {
            Some(k) => k,
            None => BackupKind::Other,
        }),
{
    match kind {
        Some(k) => k,
        None => BackupKind::Other,
    }
}

/// The bytes of versions.
pub open spec fn bytes_of_versions(v: Seq<VersionView>) -> nat
    decreases v.len(),
{
    if v.len() == 0 {
        0
    } else {
        bytes_of_versions(v.drop_last()) + v.last().size as nat
    }
}

/// The bytes of all versions of backups.
pub open spec fn bytes_of_backups(v: Seq<ManifestView>) -> nat
    decreases v.len(),
{
    if v.len() == 0 {
        0
    } else {
        bytes_of_backups(v.drop_last()) + bytes_of_versions(v.last().versions)
    }
}

/// The sum of payments.
pub open spec fn sum_of_payments(v: Seq<PaymentView>) -> nat
    decreases v.len(),
{
    if v.len() == 0 {
        0
    } else {
        sum_of_payments(v.drop_last()) + v.last().amount_msat as nat
    }
}

proof fn lemma_bytes_grow(v: Seq<VersionView>, i: int)
    requires
        0 <= i <= v.len(),
    ensures
        bytes_of_versions(v.take(i)) <= bytes_of_versions(v),
    decreases v.len(),
{
    if i < v.len() {
        assert(v.drop_last().take(i) =~= v.take(i));
        lemma_bytes_grow(v.drop_last(), i);
    } else {
        assert(v.take(i) =~= v);
    }
}

proof fn lemma_backups_grow(v: Seq<ManifestView>, i: int)
    requires
        0 <= i <= v.len(),
    ensures
        bytes_of_backups(v.take(i)) <= bytes_of_backups(v),
    decreases v.len(),
{
    if i < v.len() {
        assert(v.drop_last().take(i) =~= v.take(i));
        lemma_backups_grow(v.drop_last(), i);
    } else {
        assert(v.take(i) =~= v);
    }
}

proof fn lemma_sum_grows(v: Seq<PaymentView>, i: int)
    requires
        0 <= i <= v.len(),
    ensures
        sum_of_payments(v.take(i)) <= sum_of_payments(v),
    decreases v.len(),
{
    if i < v.len() {
        assert(v.drop_last().take(i) =~= v.take(i));
        lemma_sum_grows(v.drop_last(), i);
    } else {
        assert(v.take(i) =~= v);
    }
}

/// The bytes of all versions of backups; nothing where the number is over 64 bits.
pub fn stored_bytes(backups: &Vec<BackupManifest>) -> (sum: Option<u64>)
    ensures
        match sum {
            Some(n) => n == bytes_of_backups(manifest_views(backups@)),
            None => bytes_of_backups(manifest_views(backups@)) > u64::MAX,
        },
{
    let ghost all = manifest_views(backups@);
    let mut sum: u64 = 0;
    let mut i: usize = 0;
    while i < backups.len()
        invariant
            i <= backups@.len(),
            all == manifest_views(backups@),
            sum == bytes_of_backups(all.take(i as int)),
        decreases backups.len() - i,
    {
        let m: &BackupManifest = &backups[i];
        let ghost before = sum as nat;
        proof {
            assert(all.take(i + 1).drop_last() =~= all.take(i as int));
            assert(all.take(i + 1).last() == m@);
            lemma_backups_grow(all, i + 1);
        }
        let mut j: usize = 0;
        while j < m.versions.len()
            invariant
                j <= m.versions@.len(),
                sum == before + bytes_of_versions(m@.versions.take(j as int)),
                before + bytes_of_versions(m@.versions) <= bytes_of_backups(all),
                all == manifest_views(backups@),
            decreases m.versions.len() - j,
        {
            proof {
                let v = m@.versions;
                assert(v.take(j + 1).drop_last() =~= v.take(j as int));
                assert(v.take(j + 1).last() == m.versions@[j as int]@);
                lemma_bytes_grow(v, j + 1);
            }
            match sum.checked_add(m.versions[j].size) {
                Some(n) => {
                    sum = n;
                },
                None => {
                    return None;
                },
            }
            j = j + 1;
        }
        assert(m@.versions.take(j as int) =~= m@.versions);
        i = i + 1;
    }
    assert(all.take(i as int) =~= all);
    Some(sum)
}

/// The sum of payments; nothing where it is over 64 bits.
pub fn payments_total_msat(payments: &Vec<PaymentRecord>) -> (sum: Option<u64>)
    ensures
        match sum {
            Some(n) => n == sum_of_payments(payment_views(payments@)),
            None => sum_of_payments(payment_views(payments@)) > u64::MAX,
        },
{
    let ghost all = payment_views(payments@);
    let mut sum: u64 = 0;
    let mut i: usize = 0;
    while i < payments.len()
        invariant
            i <= payments@.len(),
            all == payment_views(payments@),
            sum == sum_of_payments(all.take(i as int)),
        decreases payments.len() - i,
    {
        proof {
            assert(all.take(i + 1).drop_last() =~= all.take(i as int));
            assert(all.take(i + 1).last() == payments@[i as int]@);
            lemma_sum_grows(all, i + 1);
        }
        match sum.checked_add(payments[i].amount_msat) {
            Some(n) => {
                sum = n;
            },
            None => {
                return None;
            },
        }
        i = i + 1;
    }
    assert(all.take(i as int) =~= all);
    Some(sum)
}

/// The method that a claimed payment is recorded with where the client names none.
pub open spec fn claimed_method(method: Option<Seq<char>>) -> Seq<char> {
    match method {
        Some(m) => m,
        None => "mock"@,
    }
}

impl AppState {
    /// How long the server has been running at a time.
    pub fn uptime_secs(&self, now: u64) -> (secs: u64)
        ensures
            secs == uptime_at(self.started_at, now),
    {
        if now >= self.started_at {
            now - self.started_at
        } else {
            0
        }
    }

    /// Records a payment that a client claims to have made. Where a wallet is
    /// connected, a claim counts for nothing and is refused.
    pub fn claim_payment<S: VersionedStore, D: Fn(&Vec<u8>) -> Result<BackupManifest, String>>(
        &self,
        store: &mut S,
        decode: &D,
        backup_id: &str,
        amount_msat: u64,
        method: Option<String>,
        note: Option<String>,
    ) -> (res: Result<PaymentRecord, ServiceError>)
        requires
            forall|b: &Vec<u8>| #[trigger] decode.requires((b,)),
        ensures
            self.wallet_offer is Some ==> {
                &&& payment_view(res) matches Err(e)
                &&& e == ServiceErrorView::Forbidden(
                    "payments are recorded from the wallet while one is connected"@,
                )
                &&& error_status(e) == 403
                &&& *final(store) == *old(store)
            },
            self.wallet_offer is None ==> exists|id: [u8; 8], now: u64| #[trigger]
                drawn(id) && #[trigger] clock_reading(now) && payment_outcome(
                    *decode,
                    *old(store),
                    payment_of(
                        id@,
                        backup_id@,
                        amount_msat,
                        now,
                        claimed_method(optional_text(method)),
                        optional_text(note),
                    ),
                    *final(store),
                    payment_view(res),
                ),
            res matches Ok(p) ==> is_payment_now(
                p@,
                backup_id@,
                amount_msat,
                claimed_method(optional_text(method)),
                optional_text(note),
            ),
    {
        if self.wallet_offer.is_some() {
            return Err(
                ServiceError::Forbidden(
                    "payments are recorded from the wallet while one is connected".to_owned(),
                ),
            );
        }
        let ghost wanted = claimed_method(optional_text(method));
        let method: String = match method {
            Some(m) => m,
            None => "mock".to_owned(),
        };
        assert(method@ == wanted);
        self.record_payment(store, decode, backup_id, amount_msat, method.as_str(), note)
    }
}

// ---------------------------------------------------------------------------
// The state of the service
// ---------------------------------------------------------------------------

/// What a server tells of itself.
pub struct ServiceInfo {
    /// What it advertises.
    pub announcement: ServiceAnnouncement,
    /// Its public key, in hexadecimal.
    pub nostr_pubkey: String,
    /// Its public key, as a bech32 text.
    pub npub: String,
    /// The name of the kind of store.
    pub storage_backend: String,
    /// The name of the kind of seeder.
    pub seeder: String,
    /// What has been seeded.
    pub seed_statuses: Vec<SeedStatus>,
    /// How many backups there are.
    pub backups_count: usize,
    /// The bytes of all their versions; nothing where the number is over 64 bits.
    pub stored_bytes: Option<u64>,
    /// How many payments there are.
    pub payments_count: usize,
    /// Their sum; nothing where it is over 64 bits.
    pub payments_total_msat: Option<u64>,
    /// How long the server has been running.
    pub uptime_secs: u64,
    /// The relays that it announces itself on.
    pub relays: Vec<String>,
}

/// How long a server has been running at a time.
pub open spec fn uptime_at(started_at: u64, now: u64) -> u64 {
    if now >= started_at {
        (now - started_at) as u64
    } else {
        0
    }
}

/// A number, where it is of 64 bits.
pub open spec fn in_64_bits(n: nat) -> Option<u64> {
    if n <= u64::MAX {
        Some(n as u64)
    } else {
        None
    }
}

/// Whether a server that holds backups and payments tells them, and the rest of what
/// it is to tell.
pub open spec fn tells<S: VersionedStore, E: Seeder>(
    app: AppState,
    store: S,
    seeder: E,
    now: u64,
    backups: Seq<ManifestView>,
    payments: Seq<PaymentView>,
    info: ServiceInfo,
) -> bool {
    &&& info.announcement@ == app.advertised()
    &&& info.nostr_pubkey@ == public_hex_of(app.keys@)
    &&& info.npub@ == bech32_npub(schnorr_public(app.keys@)@)
    &&& info.storage_backend@ == store.backend()
    &&& info.seeder@ == seeder.kind()
    &&& status_views(info.seed_statuses@) == seeder.recorded()
    &&& info.backups_count == backups.len()
    &&& info.stored_bytes == in_64_bits(bytes_of_backups(backups))
    &&& info.payments_count == payments.len()
    &&& info.payments_total_msat == in_64_bits(sum_of_payments(payments))
    &&& info.uptime_secs == uptime_at(app.started_at, now)
    &&& texts(info.relays@) == texts(app.config.nostr.relays@)
}

/// Whether what a server tells of itself may come to a result. A store that answers for
/// what it holds is told of as it is, and without fail.
pub open spec fn info_from<
    S: VersionedStore,
    E: Seeder,
    D: Fn(&Vec<u8>) -> Result<BackupManifest, String>,
    P: Fn(&Vec<u8>) -> Result<PaymentRecord, String>,
>(
    app: AppState,
    store: S,
    seeder: E,
    decode: D,
    decode_payment: P,
    now: u64,
    res: Result<ServiceInfo, ServiceError>,
) -> bool {
    match res {
        Ok(info) => exists|backups: Seq<ManifestView>, payments: Seq<PaymentView>|
            {
                &&& backups_from(store, decode, Ok(backups))
                &&& payments_from(store, decode_payment, Ok(payments))
                &&& store.exact() ==> lists_backups(decode, store.contents(), backups)
                &&& store.exact() ==> lists_payments(decode_payment, store.contents(), payments)
                &&& #[trigger] tells(app, store, seeder, now, backups, payments, info)
            },
        Err(e) => {
            &&& !store.exact()
            &&& {
                ||| backups_from(store, decode, Err(e@))
                ||| {
                    &&& exists|backups: Seq<ManifestView>| #[trigger]
                        backups_from(store, decode, Ok(backups))
                    &&& payments_from(store, decode_payment, Err(e@))
                }
            }
        },
    }
}

impl AppState {
    /// What the server tells of itself at a time.
    pub fn info<
        S: VersionedStore,
        E: Seeder,
        D: Fn(&Vec<u8>) -> Result<BackupManifest, String>,
        P: Fn(&Vec<u8>) -> Result<PaymentRecord, String>,
    >(&self, store: &S, seeder: &E, decode: &D, decode_payment: &P, now: u64) -> (res: Result<
        ServiceInfo,
        ServiceError,
    >)
        requires
            forall|b: &Vec<u8>| #[trigger] decode.requires((b,)),
            forall|b: &Vec<u8>| #[trigger] decode_payment.requires((b,)),
        ensures
            info_from(*self, *store, *seeder, *decode, *decode_payment, now, res),
    {
        let backups = match self.list_backups(store, decode) {
            Ok(backups) => backups,
            Err(e) => {
                return Err(e);
            },
        };
        let ghost b = manifest_views(backups@);
        assert(backups_from(*store, *decode, Ok(b)));
        let payments = match self.list_payments(store, decode_payment) {
            Ok(payments) => payments,
            Err(e) => {
                return Err(e);
            },
        };
        let ghost p = payment_views(payments@);
        let info = ServiceInfo {
            announcement: self.announcement(),
            nostr_pubkey: self.keys.public_hex(),
            npub: self.keys.npub(),
            storage_backend: store.backend_name().to_owned(),
            seeder: seeder.name().to_owned(),
            seed_statuses: seeder.statuses(),
            backups_count: backups.len(),
            stored_bytes: stored_bytes(&backups),
            payments_count: payments.len(),
            payments_total_msat: payments_total_msat(&payments),
            uptime_secs: self.uptime_secs(now),
            relays: copy_strings(&self.config.nostr.relays),
        };
        assert(tells(*self, *store, *seeder, now, b, p, info));
        Ok(info)
    }

    /// Announces the service at a time on the relays of the server, or on none where it
    /// is only to be seen what would be announced. `send` sends a message to a relay.
    pub fn announce<F: Fn(&String, &String) -> PublishOutcome>(
        &self,
        now: u64,
        dry_run: bool,
        send: F,
    ) -> (res: (Event, Vec<RelayResult>))
        requires
            !dry_run ==> forall|r: &String, m: &String|
                self.config.nostr.relays@.contains(*r) && carries_event(m@)
                    ==> #[trigger] send.requires((r, m)),
        ensures
            valid_event(res.0@),
            announces(res.0@, self.keys@, self.advertised(), now),
            if dry_run {
                res.1@.len() == 0
            } else {
                publishes(send, res.0@, self.config.nostr.relays@, res.1@)
            },
    {
        let event = build_announcement_event(&self.keys, &self.announcement(), now);
        assert(carries_event(publish_text(event@)));
        let results: Vec<RelayResult> = if dry_run {
            Vec::new()
        } else {
            publish(&event, &self.config.nostr.relays, send)
        };
        (event, results)
    }
}

/// What is not there is answered with 404, what is too large with 413, what was written meanwhile
/// with 409, what is not allowed with 403, and every other error with 500.
pub proof fn law_error_statuses(e: ServiceErrorView)
    ensures
        error_status(e) == 404 <==> e is NotFound,
        error_status(e) == 413 <==> e is TooLarge,
        error_status(e) == 409 <==> e matches ServiceErrorView::Store(StoreErrorView::Conflict(_)),
        error_status(e) == 403 <==> e is Forbidden,
        error_status(e) == 500 || error_status(e) == 404 || error_status(e) == 413 || error_status(
            e,
        ) == 409 || error_status(e) == 403,
{
}

/// Every version of every backup is counted with its size.
pub proof fn law_stored_bytes_count_every_version(
    backups: Seq<ManifestView>,
    m: ManifestView,
    versions: Seq<VersionView>,
    v: VersionView,
)
    ensures
        bytes_of_versions(Seq::empty()) == 0,
        bytes_of_versions(versions.push(v)) == bytes_of_versions(versions) + v.size,
        bytes_of_backups(Seq::empty()) == 0,
        bytes_of_backups(backups.push(m)) == bytes_of_backups(backups) + bytes_of_versions(
            m.versions,
        ),
{
    assert(versions.push(v).drop_last() =~= versions);
    assert(backups.push(m).drop_last() =~= backups);
}

/// Every payment is counted with its amount.
pub proof fn law_total_counts_every_payment(payments: Seq<PaymentView>, p: PaymentView)
    ensures
        sum_of_payments(Seq::empty()) == 0,
        sum_of_payments(payments.push(p)) == sum_of_payments(payments) + p.amount_msat,
{
    assert(payments.push(p).drop_last() =~= payments);
}

/// A server has been running for the time since it was started, and not at all on a clock that went
/// back.
pub proof fn law_uptime_since_start(started_at: u64, now: u64)
    ensures
        started_at <= now ==> started_at + uptime_at(started_at, now) == now,
        now < started_at ==> uptime_at(started_at, now) == 0,
{
}

/// What a server tells of itself is what it holds and is: how many backups and payments there are,
/// their bytes and their sum, its identity, and how long it has been running.
pub proof fn law_info_tells_what_is_held<S: VersionedStore, E: Seeder>(
    app: AppState,
    store: S,
    seeder: E,
    now: u64,
    backups: Seq<ManifestView>,
    payments: Seq<PaymentView>,
    info: ServiceInfo,
)
    requires
        tells(app, store, seeder, now, backups, payments, info),
    ensures
        info.backups_count == backups.len(),
        info.payments_count == payments.len(),
        bytes_of_backups(backups) <= u64::MAX ==> (info.stored_bytes matches Some(n) && n
            == bytes_of_backups(backups)),
        bytes_of_backups(backups) > u64::MAX ==> info.stored_bytes is None,
        sum_of_payments(payments) <= u64::MAX ==> (info.payments_total_msat matches Some(n) && n
            == sum_of_payments(payments)),
        sum_of_payments(payments) > u64::MAX ==> info.payments_total_msat is None,
        info.announcement@ == app.advertised(),
        info.nostr_pubkey@ == public_hex_of(app.keys@),
        info.npub@ == bech32_npub(schnorr_public(app.keys@)@),
        app.started_at <= now ==> app.started_at + info.uptime_secs == now,
        status_views(info.seed_statuses@) == seeder.recorded(),
        texts(info.relays@) == texts(app.config.nostr.relays@),
{
}

/// A claim is recorded with the method that the client names, and as `mock` where it names none.
pub proof fn law_claimed_method(method: Option<Seq<char>>)
    ensures
        method is Some ==> claimed_method(method) == method->0,
        method is None ==> claimed_method(method) == "mock"@,
{
}

/// An error is answered with its words.
pub proof fn law_error_told_in_words(e: ServiceErrorView)
    ensures
        error_json(e) == seq!['{'] + json_string("error"@) + seq![':'] + json_string(
            service_error_text(e),
        ) + seq!['}'],
        e matches ServiceErrorView::NotFound(what) ==> service_error_text(e)
            == "backup not found: "@ + what,
        e matches ServiceErrorView::TooLarge(n, max) ==> service_error_text(e)
            == "backup too large: "@ + decimal(n as nat) + " bytes (max "@ + decimal(max as nat)
            + ")"@,
        e matches ServiceErrorView::Internal(text) ==> service_error_text(e) == text,
        e matches ServiceErrorView::Forbidden(text) ==> service_error_text(e) == text,
        e matches ServiceErrorView::Store(StoreErrorView::Conflict(key)) ==> service_error_text(e)
            == "version conflict on key "@ + key,
        e matches ServiceErrorView::Store(StoreErrorView::NoSuchKey(key)) ==> service_error_text(e)
            == "no such key: "@ + key,
        e matches ServiceErrorView::Store(StoreErrorView::Backend(text)) ==> service_error_text(e)
            == "storage backend error: "@ + text,
{
    let field = json_field("error"@, json_string(service_error_text(e)));
    law_json_object_grows(Seq::empty(), field);
    assert(error_json(e) =~= seq!['{'] + json_string("error"@) + seq![':'] + json_string(
        service_error_text(e),
    ) + seq!['}']);
}

} // verus!
