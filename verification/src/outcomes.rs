//! What single requests come to: uploads, restores, challenges, payments and lists, on a store that
//! answers for what it holds and on one that fails.
use vstd::prelude::*;
use crate::manifest::{
    manifest_bytes, payment_bytes, BackupManifest, ManifestView, PaymentRecord, PaymentView,
    VersionView,
};
use crate::proto::KeyValueView;
use crate::seeder::{SeedStatusView, Seeder};
use crate::state::{
    answered, backup_comes_to, backup_id_of, backup_in, backups_from, data_in, data_key_of, finds,
    is_stamped, law_meta_key_apart, law_payment_kept_apart, law_upload_adds_version,
    law_upload_keeps_history, law_upload_keeps_identity, law_upload_stamped,
    law_upload_then_restore, manifest_from, meta_key_of, payment_key_of, payment_outcome,
    payment_runs, payments_from, plan_from, recorded_payment, restored, seed_write_text,
    upload_comes_to, upload_outcome, upload_proceeds, upload_runs, upload_seals, upload_succeeds,
    with_data, with_payment, with_upload, writes, AppState, PlanView, SeedFiles, SeedFilesView,
    SeedPaths, SeedWriteError, ServiceErrorView, Upload,
};
use crate::storage_proof::{proof_of, ChallengeView, ProofView};
use crate::store::{looked_up, next_version, Contents, StoreErrorView, VersionedStore};
use crate::text::decimal;

verus! {

/// An upload that succeeds is stored: its bytes can be restored, the manifest that it returns is
/// the one in the store, both are stamped with its time, the seeder was told of its torrent, and
/// every other version of every backup is as it was.
pub proof fn law_upload_is_stored<
    S: VersionedStore,
    E: Seeder,
    D: Fn(&Vec<u8>) -> Result<BackupManifest, String>,
    W: FnOnce(&SeedFiles) -> Result<SeedPaths, SeedWriteError>,
>(
    u: Upload,
    quote: u64,
    decode: D,
    write: W,
    store: S,
    seeder: E,
    store_after: S,
    seeder_after: E,
    m: ManifestView,
    v: VersionView,
    status: SeedStatusView,
    told_quote: u64,
    id: Seq<char>,
    version: u64,
)
    requires
        store.exact(),
        u.data.len() <= u64::MAX,
        upload_outcome(
            u,
            quote,
            decode,
            write,
            store,
            seeder,
            store_after,
            seeder_after,
            Ok((m, v, status, told_quote)),
        ),
    ensures
        store_after.exact(),
        restored(
            store_after.contents(),
            backup_id_of(u.filename, u.kind),
            v.version,
        ) == Ok::<Seq<u8>, ServiceErrorView>(u.data),
        looked_up(
            store_after.contents(),
            meta_key_of(backup_id_of(u.filename, u.kind)),
        ) matches Some(kv) && kv.value == manifest_bytes(m),
        is_stamped(m, v, u.data, u.now),
        told_quote == quote,
        seeder_after.recorded() == seeder.recorded().push(status),
        status.infohash == v.infohash,
        exists|files: SeedFilesView, paths: SeedPaths|
            {
                &&& #[trigger] writes(write, files, Ok::<SeedPaths, SeedWriteError>(paths))
                &&& files.payload == u.data
                &&& status.torrent_path == paths.torrent_path@
                &&& seeder.may_seed(
                    v.infohash,
                    paths.torrent_path@,
                    paths.data_dir@,
                    status,
                    &seeder_after,
                )
            },
        id != backup_id_of(u.filename, u.kind) || version != v.version ==> restored(
            store_after.contents(),
            id,
            version,
        ) == restored(store.contents(), id, version),
{
    let own = backup_id_of(u.filename, u.kind);
    let c = store.contents();
    let res: Result<(ManifestView, VersionView, SeedStatusView, u64), ServiceErrorView> = Ok(
        (m, v, status, told_quote),
    );
    let found = choose|found: Result<Option<(ManifestView, i64)>, ServiceErrorView>|
        {
            &&& #[trigger] finds(decode, c, own, found)
            &&& upload_comes_to(
                u,
                quote,
                found,
                write,
                (c, seeder),
                (store_after.contents(), seeder_after),
                res,
            )
        };
    assert(plan_from(u, found) is Ok);
    let plan = plan_from(u, found)->Ok_0;
    let f = found->Ok_0;
    assert(upload_succeeds(u, f, plan, c));
    let w = choose|w: Result<SeedPaths, SeedWriteError>|
        {
            &&& #[trigger] writes(write, plan.files, w)
            &&& w matches Ok(paths) && {
                &&& status.torrent_path == paths.torrent_path@
                &&& seeder.may_seed(
                    v.infohash,
                    paths.torrent_path@,
                    paths.data_dir@,
                    status,
                    &seeder_after,
                )
            }
        };
    assert(writes(write, plan.files, Ok::<SeedPaths, SeedWriteError>(w->Ok_0)));
    assert(m == plan.manifest && v == plan.version);
    assert(store_after.contents() == with_upload(c, plan, u.data));
    law_upload_then_restore(u, f, plan, c);
    law_upload_adds_version(u, f, plan, c);
    law_upload_stamped(u, f, plan);
    law_upload_keeps_identity(u, f, plan, 0);
    if id != own || version != v.version {
        law_upload_keeps_history(u, f, plan, c, id, version);
    }
}

/// An upload that fails loses nothing: every version that could be restored still can, and every
/// manifest is as it was.
pub proof fn law_failed_upload_loses_nothing<
    S: VersionedStore,
    E: Seeder,
    D: Fn(&Vec<u8>) -> Result<BackupManifest, String>,
    W: FnOnce(&SeedFiles) -> Result<SeedPaths, SeedWriteError>,
>(
    u: Upload,
    quote: u64,
    decode: D,
    write: W,
    store: S,
    seeder: E,
    store_after: S,
    seeder_after: E,
    e: ServiceErrorView,
    id: Seq<char>,
    version: u64,
)
    requires
        store.exact(),
        upload_outcome(u, quote, decode, write, store, seeder, store_after, seeder_after, Err(e)),
        forall|key: Seq<char>| #[trigger]
            store.contents().contains_key(key) ==> store.contents()[key].version != 0,
    ensures
        store_after.exact(),
        restored(store.contents(), id, version) is Ok ==> restored(
            store_after.contents(),
            id,
            version,
        ) == restored(store.contents(), id, version),
        looked_up(store_after.contents(), meta_key_of(id)) == looked_up(
            store.contents(),
            meta_key_of(id),
        ),
{
    let own = backup_id_of(u.filename, u.kind);
    let c = store.contents();
    let res: Result<(ManifestView, VersionView, SeedStatusView, u64), ServiceErrorView> = Err(e);
    let found = choose|found: Result<Option<(ManifestView, i64)>, ServiceErrorView>|
        {
            &&& #[trigger] finds(decode, c, own, found)
            &&& upload_comes_to(
                u,
                quote,
                found,
                write,
                (c, seeder),
                (store_after.contents(), seeder_after),
                res,
            )
        };
    if plan_from(u, found) is Ok {
        let plan = plan_from(u, found)->Ok_0;
        law_meta_key_apart(id, own, plan.version.version as nat);
        if next_version(c, plan.data_key, 0) is Some {
            assert(store_after.contents() == with_data(c, plan, u.data));
            assert(!c.contains_key(plan.data_key));
        }
    }
}

/// An upload is owed: where the manifest can be read, its counters go on, the key of the next
/// version is free and the files can be written, it succeeds.
pub proof fn law_upload_owed<
    S: VersionedStore,
    E: Seeder,
    D: Fn(&Vec<u8>) -> Result<BackupManifest, String>,
    W: FnOnce(&SeedFiles) -> Result<SeedPaths, SeedWriteError>,
>(
    u: Upload,
    quote: u64,
    decode: D,
    write: W,
    store: S,
    seeder: E,
    store_after: S,
    seeder_after: E,
    res: Result<(ManifestView, VersionView, SeedStatusView, u64), ServiceErrorView>,
)
    requires
        store.exact(),
        upload_outcome(u, quote, decode, write, store, seeder, store_after, seeder_after, res),
        forall|found: Result<Option<(ManifestView, i64)>, ServiceErrorView>| #[trigger]
            finds(decode, store.contents(), backup_id_of(u.filename, u.kind), found) ==> (
            found matches Ok(f) && {
                let (latest, meta_version) = match f {
                    Some((m, version)) => (m.latest_version, version),
                    None => (0, 0),
                };
                &&& latest < u64::MAX
                &&& meta_version < i64::MAX
                &&& !store.contents().contains_key(
                    data_key_of(backup_id_of(u.filename, u.kind), (latest + 1) as nat),
                )
            }),
        forall|files: SeedFilesView, w: Result<SeedPaths, SeedWriteError>| #[trigger]
            writes(write, files, w) ==> w is Ok,
    ensures
        res is Ok,
{
    let own = backup_id_of(u.filename, u.kind);
    let c = store.contents();
    let found = choose|found: Result<Option<(ManifestView, i64)>, ServiceErrorView>|
        {
            &&& #[trigger] finds(decode, c, own, found)
            &&& upload_comes_to(
                u,
                quote,
                found,
                write,
                (c, seeder),
                (store_after.contents(), seeder_after),
                res,
            )
        };
    assert(finds(decode, c, own, found));
    assert(plan_from(u, found) is Ok);
    let plan = plan_from(u, found)->Ok_0;
    assert(next_version(c, plan.data_key, 0) is Some);
}

/// What nobody has uploaded cannot be had: a backup without a manifest is not found, and neither is
/// a version without bytes.
pub proof fn law_unknown_backup_not_found<D: Fn(&Vec<u8>) -> Result<BackupManifest, String>>(
    decode: D,
    c: Contents,
    id: Seq<char>,
    version: u64,
    out: Result<ManifestView, ServiceErrorView>,
)
    requires
        backup_comes_to(decode, c, id, out),
    ensures
        !c.contains_key("backups/"@ + id + "/meta"@) ==> out == Err::<
            ManifestView,
            ServiceErrorView,
        >(ServiceErrorView::NotFound(id)),
        !c.contains_key("backups/"@ + id + "/v"@ + decimal(version as nat)) ==> restored(
            c,
            id,
            version,
        ) == Err::<Seq<u8>, ServiceErrorView>(
            ServiceErrorView::NotFound(id + " v"@ + decimal(version as nat)),
        ),
        c.contains_key("backups/"@ + id + "/v"@ + decimal(version as nat)) ==> restored(
            c,
            id,
            version,
        ) == Ok::<Seq<u8>, ServiceErrorView>(
            c["backups/"@ + id + "/v"@ + decimal(version as nat)].value,
        ),
{
}

/// A challenge is answered from the bytes in the store: those of the version that is asked for, or
/// of the latest.
pub proof fn law_challenge_answered_from_store(
    c: Contents,
    id: Seq<char>,
    asked: Option<u64>,
    challenge: ChallengeView,
    m: ManifestView,
    version: u64,
)
    requires
        version == (if asked is Some {
            asked->0
        } else {
            m.latest_version
        }),
        c.contains_key("backups/"@ + id + "/v"@ + decimal(version as nat)),
    ensures
        answered(c, id, asked, challenge, Ok(m)) == Ok::<(ProofView, u64), ServiceErrorView>(
            (
                proof_of(
                    challenge,
                    c["backups/"@ + id + "/v"@ + decimal(version as nat)].value,
                ),
                version,
            ),
        ),
{
}

/// A payment is owed: for a backup that can be read, under an id that is new, it is recorded, stands
/// in the store, and changes nothing of any backup.
pub proof fn law_payment_owed<
    S: VersionedStore,
    D: Fn(&Vec<u8>) -> Result<BackupManifest, String>,
>(
    decode: D,
    before: S,
    p: PaymentView,
    after: S,
    out: Result<PaymentView, ServiceErrorView>,
    id: Seq<char>,
    version: u64,
)
    requires
        before.exact(),
        payment_outcome(decode, before, p, after, out),
        forall|m: Result<ManifestView, ServiceErrorView>| #[trigger]
            backup_comes_to(decode, before.contents(), p.backup_id, m) ==> m is Ok,
        !before.contents().contains_key("payments/"@ + p.payment_id),
    ensures
        out == Ok::<PaymentView, ServiceErrorView>(p),
        after.exact(),
        looked_up(after.contents(), "payments/"@ + p.payment_id) matches Some(kv) && kv.value
            == payment_bytes(p),
        restored(after.contents(), id, version) == restored(before.contents(), id, version),
        looked_up(after.contents(), meta_key_of(id)) == looked_up(
            before.contents(),
            meta_key_of(id),
        ),
{
    let c = before.contents();
    let m = choose|m: Result<ManifestView, ServiceErrorView>|
        {
            &&& #[trigger] backup_comes_to(decode, c, p.backup_id, m)
            &&& out == recorded_payment(c, m, p)
            &&& after.contents() == with_payment(c, m, p)
        };
    assert(backup_comes_to(decode, c, p.backup_id, m));
    assert(payment_key_of(p.payment_id) == "payments/"@ + p.payment_id);
    law_payment_kept_apart(c, m->Ok_0, p, id, version);
}

/// A payment for a backup that nobody has uploaded is not recorded.
pub proof fn law_payment_for_unknown_backup_refused<
    S: VersionedStore,
    D: Fn(&Vec<u8>) -> Result<BackupManifest, String>,
>(
    decode: D,
    before: S,
    p: PaymentView,
    after: S,
    out: Result<PaymentView, ServiceErrorView>,
)
    requires
        before.exact(),
        payment_outcome(decode, before, p, after, out),
        !before.contents().contains_key("backups/"@ + p.backup_id + "/meta"@),
    ensures
        out == Err::<PaymentView, ServiceErrorView>(ServiceErrorView::NotFound(p.backup_id)),
        after.contents() == before.contents(),
{
    let c = before.contents();
    let m = choose|m: Result<ManifestView, ServiceErrorView>|
        {
            &&& #[trigger] backup_comes_to(decode, c, p.backup_id, m)
            &&& out == recorded_payment(c, m, p)
            &&& after.contents() == with_payment(c, m, p)
        };
    law_unknown_backup_not_found(decode, c, p.backup_id, 0, m);
}

/// A server advertises what it is configured for: its name, its address, its price and its limits,
/// all three kinds, and the offer of its wallet before the configured one.
pub proof fn law_advertised_as_configured(app: AppState)
    ensures
        app.advertised().name == app.config.name@,
        app.advertised().description == app.config.description@,
        app.advertised().endpoint == app.config.public_endpoint@,
        app.advertised().price_sats_per_mib == app.config.price_sats_per_mib,
        app.advertised().billing_period_secs == app.config.billing_period_secs,
        app.advertised().max_backup_bytes == app.config.max_backup_bytes,
        app.wallet_offer is Some ==> app.advertised().bolt12_offer == app.wallet_offer->0@,
        app.wallet_offer is None ==> app.advertised().bolt12_offer == app.config.bolt12_offer@,
        app.advertised().kinds.len() == 3,
        app.advertised().kinds.no_duplicates(),
{
}

/// A store that fails is told of, and is not taken for one that holds nothing: what could not be read
/// is neither a missing manifest nor a missing version; and a manifest that is no JSON is corrupt,
/// not missing.
pub proof fn law_failed_read_is_told<D: Fn(&Vec<u8>) -> Result<BackupManifest, String>>(
    decode: D,
    e: StoreErrorView,
    kv: KeyValueView,
    id: Seq<char>,
    version: u64,
    failed: Result<Option<(ManifestView, i64)>, ServiceErrorView>,
    read: Result<Option<(ManifestView, i64)>, ServiceErrorView>,
)
    requires
        manifest_from(decode, Err(e), failed),
        manifest_from(decode, Ok(Some(kv)), read),
    ensures
        failed == Err::<Option<(ManifestView, i64)>, ServiceErrorView>(ServiceErrorView::Store(e)),
        read matches Ok(found) ==> (found matches Some((_, v)) && v == kv.version),
        read matches Err(f) ==> f is Internal,
        backup_in(id, failed) == Err::<ManifestView, ServiceErrorView>(ServiceErrorView::Store(e)),
        data_in(id, version, Err(e)) == Err::<Seq<u8>, ServiceErrorView>(
            ServiceErrorView::Store(e),
        ),
{
}

/// An upload whose manifest cannot be read from the store fails with what the store says, and writes
/// nothing.
pub proof fn law_upload_stops_at_failed_read<
    S: VersionedStore,
    E: Seeder,
    D: Fn(&Vec<u8>) -> Result<BackupManifest, String>,
    W: FnOnce(&SeedFiles) -> Result<SeedPaths, SeedWriteError>,
>(
    u: Upload,
    quote: u64,
    decode: D,
    write: W,
    store: S,
    seeder: E,
    store_after: S,
    seeder_after: E,
    res: Result<(ManifestView, VersionView, SeedStatusView, u64), ServiceErrorView>,
)
    requires
        upload_runs(u, quote, decode, write, store, seeder, store_after, seeder_after, res),
        forall|got: Result<Option<KeyValueView>, StoreErrorView>| #[trigger]
            store.may_get(meta_key_of(backup_id_of(u.filename, u.kind)), got) ==> got is Err,
    ensures
        res matches Err(e) && e is Store,
        store_after == store,
        seeder_after == seeder,
{
}

/// An upload whose bytes the store refuses fails with what the store says, and neither seeds nor
/// writes a manifest; one whose manifest the store refuses fails with what the store says.
pub proof fn law_upload_stops_at_refused_write<
    S: VersionedStore,
    E: Seeder,
    W: FnOnce(&SeedFiles) -> Result<SeedPaths, SeedWriteError>,
>(
    plan: PlanView,
    quote: u64,
    write: W,
    store: S,
    seeder: E,
    status: SeedStatusView,
    store_after: S,
    seeder_after: E,
    res: Result<(ManifestView, VersionView, SeedStatusView, u64), ServiceErrorView>,
    e: StoreErrorView,
)
    ensures
        upload_proceeds(plan, quote, write, store, seeder, store_after, seeder_after, res) && (
        forall|put: Result<i64, StoreErrorView>, mid: S| #[trigger]
            store.may_put(plan.data_key, 0, plan.files.payload, put, &mid) ==> put == Err::<
                i64,
                StoreErrorView,
            >(e)) ==> res == Err::<
            (ManifestView, VersionView, SeedStatusView, u64),
            ServiceErrorView,
        >(ServiceErrorView::Store(e)) && seeder_after == seeder,
        upload_seals(plan, quote, status, store, store_after, res) && (forall|
            put: Result<i64, StoreErrorView>,
            after: S,
        | #[trigger]
            store.may_put(
                plan.meta_key,
                plan.meta_version,
                manifest_bytes(plan.manifest),
                put,
                &after,
            ) ==> put == Err::<i64, StoreErrorView>(e)) ==> res == Err::<
            (ManifestView, VersionView, SeedStatusView, u64),
            ServiceErrorView,
        >(ServiceErrorView::Store(e)),
{
}

/// A payment is recorded only where the store has the backup and takes the payment: where the store
/// cannot be read it fails with what the store says and writes nothing, and so it does where the
/// store refuses the write.
pub proof fn law_payment_stops_at_failure<
    S: VersionedStore,
    D: Fn(&Vec<u8>) -> Result<BackupManifest, String>,
>(
    decode: D,
    before: S,
    p: PaymentView,
    after: S,
    out: Result<PaymentView, ServiceErrorView>,
    e: StoreErrorView,
)
    requires
        payment_runs(decode, before, p, after, out),
    ensures
        (forall|got: Result<Option<KeyValueView>, StoreErrorView>| #[trigger]
            before.may_get(meta_key_of(p.backup_id), got) ==> got == Err::<
                Option<KeyValueView>,
                StoreErrorView,
            >(e)) ==> out == Err::<PaymentView, ServiceErrorView>(ServiceErrorView::Store(e))
            && after == before,
        (forall|got: Result<Option<KeyValueView>, StoreErrorView>| #[trigger]
            before.may_get(meta_key_of(p.backup_id), got) ==> got == Ok::<
                Option<KeyValueView>,
                StoreErrorView,
            >(None)) ==> out == Err::<PaymentView, ServiceErrorView>(
            ServiceErrorView::NotFound(p.backup_id),
        ) && after == before,
        (forall|put: Result<i64, StoreErrorView>, then: S| #[trigger]
            before.may_put(
                "payments/"@ + p.payment_id,
                0,
                payment_bytes(p),
                put,
                &then,
            ) ==> put is Err) ==> out is Err,
        out matches Ok(q) ==> q == p,
{
}

/// A list that the store fails at fails with what the store says.
pub proof fn law_list_stops_at_failure<
    S: VersionedStore,
    D: Fn(&Vec<u8>) -> Result<BackupManifest, String>,
    P: Fn(&Vec<u8>) -> Result<PaymentRecord, String>,
>(
    store: S,
    decode: D,
    decode_payment: P,
    backups: Result<Seq<ManifestView>, ServiceErrorView>,
    payments: Result<Seq<PaymentView>, ServiceErrorView>,
    e: StoreErrorView,
)
    requires
        backups_from(store, decode, backups),
        payments_from(store, decode_payment, payments),
        forall|prefix: Seq<char>, listed: Result<Seq<KeyValueView>, StoreErrorView>| #[trigger]
            store.may_list(prefix, listed) ==> listed == Err::<Seq<KeyValueView>, StoreErrorView>(
                e,
            ),
    ensures
        backups == Err::<Seq<ManifestView>, ServiceErrorView>(ServiceErrorView::Store(e)),
        payments == Err::<Seq<PaymentView>, ServiceErrorView>(ServiceErrorView::Store(e)),
{
}

/// A list fails only where the store does: what is gone when it is read, or cannot be read as a record,
/// is passed over.
pub proof fn law_list_fails_only_with_store<
    S: VersionedStore,
    D: Fn(&Vec<u8>) -> Result<BackupManifest, String>,
    P: Fn(&Vec<u8>) -> Result<PaymentRecord, String>,
>(
    store: S,
    decode: D,
    decode_payment: P,
    backups: Result<Seq<ManifestView>, ServiceErrorView>,
    payments: Result<Seq<PaymentView>, ServiceErrorView>,
)
    requires
        backups_from(store, decode, backups),
        payments_from(store, decode_payment, payments),
        forall|prefix: Seq<char>, listed: Result<Seq<KeyValueView>, StoreErrorView>| #[trigger]
            store.may_list(prefix, listed) ==> listed is Ok,
        forall|key: Seq<char>, got: Result<Option<KeyValueView>, StoreErrorView>| #[trigger]
            store.may_get(key, got) ==> got is Ok,
    ensures
        backups is Ok,
        payments is Ok,
{
}

/// Files that cannot be written are told of, with which of them it was.
pub proof fn law_unwritten_files_told(e: SeedWriteError)
    ensures
        e matches SeedWriteError::Dir(text) ==> seed_write_text(e) == "seed dir: "@ + text@,
        e matches SeedWriteError::Payload(text) ==> seed_write_text(e) == "seed file: "@ + text@,
        e matches SeedWriteError::Torrent(text) ==> seed_write_text(e) == "torrent file: "@ + text@,
{
}

} // verus!
