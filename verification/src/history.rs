//! What holds of a server over several requests: series of uploads, and the lists of
//! backups and of payments.
use vstd::prelude::*;
use crate::manifest::{
    manifest_bytes, payment_bytes, BackupManifest, ManifestView, PaymentRecord, PaymentView,
};
use crate::order::{at_places, is_descending_order, law_order_complete};
use crate::state::{
    added_version, backup_id_of, data_key_of, finds, found_in, law_data_key_determines,
    law_meta_key_apart, law_upload_adds_version, law_upload_keeps_history,
    law_upload_then_restore, lists_backups, lists_payments, meta_key_of, payment_key_of,
    payment_times, planned, reads, reads_back, reads_manifests, reads_payment, reads_payments,
    restored, update_times, upload_succeeds, with_payment, with_upload, PlanView,
    ServiceErrorView, Upload,
};
use crate::store::{ascending, is_listing, looked_up, next_version, text_before, Contents};
use crate::proto::KeyValueView;
use crate::text::{begins_with, decimal, ends_in, is_digit, lemma_concat_split, lemma_decimal_digits};

verus! {

// ---------------------------------------------------------------------------
// Series of uploads
// ---------------------------------------------------------------------------

/// The manifest that uploads leave behind, each made from the one before, with its version
/// in the store; nothing before the first.
pub open spec fn series(us: Seq<Upload>) -> Result<Option<(ManifestView, i64)>, ServiceErrorView>
    decreases us.len(),
{
    if us.len() == 0 {
        Ok(None)
    } else {
        match series(us.drop_last()) {
            Err(e) => Err(e),
            Ok(found) => match planned(us.last(), found) {
                Err(e) => Err(e),
                Ok(plan) => Ok(Some((plan.manifest, (plan.meta_version + 1) as i64))),
            },
        }
    }
}

/// The manifest that uploads leave behind, where there are any.
pub open spec fn series_manifest(us: Seq<Upload>) -> ManifestView {
    let (m, _) = series(us)->Ok_0->0;
    m
}

/// What a store holds after uploads, one after the other.
pub open spec fn carried(us: Seq<Upload>, c: Contents) -> Contents
    decreases us.len(),
{
    if us.len() == 0 {
        c
    } else {
        let before = carried(us.drop_last(), c);
        match series(us.drop_last()) {
            Err(_) => before,
            Ok(found) => match planned(us.last(), found) {
                Err(_) => before,
                Ok(plan) => with_upload(before, plan, us.last().data),
            },
        }
    }
}

/// Every series of uploads is numbered from one on, without a gap: its manifest has a
/// version for each upload, in their order.
pub proof fn law_series_numbered(us: Seq<Upload>)
    requires
        series(us) is Ok,
    ensures
        us.len() == 0 ==> series(us)->Ok_0 is None,
        us.len() > 0 ==> {
            &&& series(us)->Ok_0 matches Some((m, v))
            &&& v == us.len()
            &&& m.latest_version == us.len()
            &&& m.versions.len() == us.len()
            &&& forall|i: int|
                0 <= i < us.len() ==> #[trigger] m.versions[i] == added_version(
                    us[i],
                    (i + 1) as u64,
                )
        },
    decreases us.len(),
{
    if us.len() > 0 {
        let rest = us.drop_last();
        law_series_numbered(rest);
        let found = series(rest)->Ok_0;
        let plan = planned(us.last(), found)->Ok_0;
        let m = plan.manifest;
        assert forall|i: int| 0 <= i < us.len() implies #[trigger] m.versions[i] == added_version(
            us[i],
            (i + 1) as u64,
        ) by {
            if i < rest.len() {
                assert(rest[i] == us[i]);
                let (base, _) = found->0;
                assert(base.versions[i] == m.versions[i]);
            }
        }
    }
}

/// Every version of a series can be restored, byte for byte, after all its uploads: a
/// series that starts in a store that holds nothing of it is carried through.
pub proof fn law_series_kept(us: Seq<Upload>, c: Contents, id: Seq<char>)
    requires
        series(us) is Ok,
        forall|i: int|
            0 <= i < us.len() ==> backup_id_of((#[trigger] us[i]).filename, us[i].kind) == id,
        !c.contains_key(meta_key_of(id)),
        forall|v: nat| !c.contains_key(#[trigger] data_key_of(id, v)),
    ensures
        forall|i: int|
            0 <= i < us.len() ==> #[trigger] restored(carried(us, c), id, (i + 1) as u64) == Ok::<
                Seq<u8>,
                ServiceErrorView,
            >(us[i].data),
        us.len() > 0 ==> (looked_up(carried(us, c), meta_key_of(id)) matches Some(kv) && kv.version
            == us.len() && kv.value == manifest_bytes(series_manifest(us))),
        us.len() == 0 ==> !carried(us, c).contains_key(meta_key_of(id)),
        forall|v: nat| v > us.len() ==> !carried(us, c).contains_key(#[trigger] data_key_of(id, v)),
    decreases us.len(),
{
    if us.len() > 0 {
        let rest = us.drop_last();
        let u = us.last();
        let before = carried(rest, c);
        let after = carried(us, c);
        assert forall|i: int| 0 <= i < rest.len() implies backup_id_of(
            (#[trigger] rest[i]).filename,
            rest[i].kind,
        ) == id by {
            assert(rest[i] == us[i]);
        }
        assert(us[us.len() - 1] == u);
        assert(backup_id_of(u.filename, u.kind) == id);
        law_series_kept(rest, c, id);
        law_series_numbered(rest);
        law_series_numbered(us);
        let found = series(rest)->Ok_0;
        let plan = planned(u, found)->Ok_0;
        let n = us.len();
        assert(plan.version.version == n);
        assert(plan.data_key == data_key_of(id, n));
        assert(!before.contains_key(data_key_of(id, n)));
        assert(found_in(before, id, found));
        assert(upload_succeeds(u, found, plan, before));
        law_upload_then_restore(u, found, plan, before);
        law_upload_adds_version(u, found, plan, before);
        law_meta_key_apart(id, id, n);
        assert forall|i: int| 0 <= i < us.len() implies #[trigger] restored(
            after,
            id,
            (i + 1) as u64,
        ) == Ok::<Seq<u8>, ServiceErrorView>(us[i].data) by {
            if i < rest.len() {
                assert(rest[i] == us[i]);
                law_upload_keeps_history(u, found, plan, before, id, (i + 1) as u64);
                assert(restored(before, id, (i + 1) as u64) == Ok::<Seq<u8>, ServiceErrorView>(
                    rest[i].data,
                ));
            }
        }
        assert forall|v: nat| v > us.len() implies !after.contains_key(
            #[trigger] data_key_of(id, v),
        ) by {
            law_meta_key_apart(id, id, v);
            if data_key_of(id, v) == plan.data_key {
                law_data_key_determines(id, v, id, n);
            }
        }
    }
}

// ---------------------------------------------------------------------------
// The list of backups
// ---------------------------------------------------------------------------

/// Whether a key is that of a manifest.
pub open spec fn is_manifest_key(key: Seq<char>) -> bool {
    begins_with(key, "backups/"@) && ends_in(key, "/meta"@)
}

/// Whether every manifest of a store can be read, and stands under the key of its backup.
pub open spec fn well_kept<D: Fn(&Vec<u8>) -> Result<BackupManifest, String>>(
    decode: D,
    c: Contents,
) -> bool {
    forall|key: Seq<char>, r: Result<ManifestView, Seq<char>>|
        #![trigger c.contains_key(key), reads(decode, c[key].value, r)]
        c.contains_key(key) && is_manifest_key(key) && reads(decode, c[key].value, r) ==> (
        r matches Ok(m) && meta_key_of(m.backup_id) == key)
}

proof fn lemma_text_not_before_itself(a: Seq<char>)
    ensures
        !text_before(a, a),
    decreases a.len(),
{
    if a.len() > 0 {
        lemma_text_not_before_itself(a.drop_first());
    }
}

/// What was read of listed keys stands under them, each once, and nothing is missing.
#[verifier::rlimit(60)]
proof fn lemma_manifests_of_keys<D: Fn(&Vec<u8>) -> Result<BackupManifest, String>>(
    decode: D,
    c: Contents,
    keys: Seq<KeyValueView>,
    found: Seq<ManifestView>,
)
    requires
        well_kept(decode, c),
        reads_manifests(decode, c, keys, found),
        ascending(keys),
        forall|i: int|
            0 <= i < keys.len() ==> c.contains_key((#[trigger] keys[i]).key) && begins_with(
                keys[i].key,
                "backups/"@,
            ),
    ensures
        forall|j: int|
            0 <= j < found.len() ==> exists|i: int|
                0 <= i < keys.len() && (#[trigger] keys[i]).key == meta_key_of(
                    (#[trigger] found[j]).backup_id,
                ) && reads(decode, c[keys[i].key].value, Ok(found[j])),
        forall|i: int|
            0 <= i < keys.len() && ends_in((#[trigger] keys[i]).key, "/meta"@) ==> exists|j: int|
                0 <= j < found.len() && meta_key_of((#[trigger] found[j]).backup_id) == keys[i].key,
        forall|j: int, k: int|
            0 <= j < k < found.len() ==> (#[trigger] found[j]).backup_id != (
            #[trigger] found[k]).backup_id,
    decreases keys.len(),
{
    if keys.len() > 0 {
        let rest = keys.drop_last();
        let last = keys.last().key;
        let n = keys.len() - 1;
        assert(keys[n].key == last);
        assert forall|i: int| 0 <= i < rest.len() implies c.contains_key((#[trigger] rest[i]).key)
            && begins_with(rest[i].key, "backups/"@) by {
            assert(rest[i] == keys[i]);
        }
        assert forall|i: int, j: int| 0 <= i < j < rest.len() implies text_before(
            #[trigger] rest[i].key,
            #[trigger] rest[j].key,
        ) by {
            assert(text_before(keys[i].key, keys[j].key));
        }
        let read = ends_in(last, "/meta"@);
        if read {
            let r = choose|r: Result<ManifestView, Seq<char>>|
                {
                    &&& #[trigger] reads(decode, c[last].value, r)
                    &&& match r {
                        Ok(m) => found.len() > 0 && found.last() == m && reads_manifests(
                            decode,
                            c,
                            keys.drop_last(),
                            found.drop_last(),
                        ),
                        Err(_) => reads_manifests(decode, c, keys.drop_last(), found),
                    }
                };
            assert(c.contains_key(last) && is_manifest_key(last));
            assert(r is Ok);
            assert(meta_key_of(found.last().backup_id) == last);
        }
        let front = if read {
            found.drop_last()
        } else {
            found
        };
        lemma_manifests_of_keys(decode, c, rest, front);
        assert forall|j: int| 0 <= j < found.len() implies exists|i: int|
            0 <= i < keys.len() && (#[trigger] keys[i]).key == meta_key_of(
                (#[trigger] found[j]).backup_id,
            ) && reads(decode, c[keys[i].key].value, Ok(found[j])) by {
            if j < front.len() {
                assert(front[j] == found[j]);
                let i = choose|i: int|
                    0 <= i < rest.len() && (#[trigger] rest[i]).key == meta_key_of(
                        front[j].backup_id,
                    ) && reads(decode, c[rest[i].key].value, Ok(front[j]));
                assert(rest[i] == keys[i]);
            } else {
                assert(keys[n].key == meta_key_of(found[j].backup_id));
            }
        }
        assert forall|i: int|
            0 <= i < keys.len() && ends_in((#[trigger] keys[i]).key, "/meta"@) implies exists|
            j: int,
        |
            0 <= j < found.len() && meta_key_of((#[trigger] found[j]).backup_id)
                == keys[i].key by {
            if i < rest.len() {
                assert(rest[i] == keys[i]);
                let j = choose|j: int|
                    0 <= j < front.len() && meta_key_of((#[trigger] front[j]).backup_id)
                        == rest[i].key;
                assert(front[j] == found[j]);
            } else {
                assert(meta_key_of(found[found.len() - 1].backup_id) == keys[i].key);
            }
        }
        assert forall|j: int, k: int| 0 <= j < k < found.len() implies (
        #[trigger] found[j]).backup_id != (#[trigger] found[k]).backup_id by {
            assert(front[j] == found[j]);
            if k < front.len() {
                assert(front[k] == found[k]);
            } else {
                let i = choose|i: int|
                    0 <= i < rest.len() && (#[trigger] rest[i]).key == meta_key_of(
                        front[j].backup_id,
                    ) && reads(decode, c[rest[i].key].value, Ok(front[j]));
                assert(text_before(keys[i].key, keys[n].key));
                lemma_text_not_before_itself(last);
            }
        }
    }
}

/// The list of backups holds every series once, and none is missing: each manifest of the
/// store is in it, as it can be read there.
#[verifier::rlimit(60)]
pub proof fn law_every_backup_listed_once<D: Fn(&Vec<u8>) -> Result<BackupManifest, String>>(
    decode: D,
    c: Contents,
    out: Seq<ManifestView>,
)
    requires
        well_kept(decode, c),
        lists_backups(decode, c, out),
    ensures
        forall|key: Seq<char>| #[trigger]
            c.contains_key(key) && is_manifest_key(key) ==> exists|i: int|
                0 <= i < out.len() && meta_key_of((#[trigger] out[i]).backup_id) == key,
        forall|i: int|
            0 <= i < out.len() ==> {
                let key = meta_key_of((#[trigger] out[i]).backup_id);
                c.contains_key(key) && reads(decode, c[key].value, Ok(out[i]))
            },
        forall|i: int, j: int|
            0 <= i < j < out.len() ==> (#[trigger] out[i]).backup_id != (
            #[trigger] out[j]).backup_id,
{
    let (keys, found, p) = choose|keys: Seq<KeyValueView>, found: Seq<ManifestView>, p: Seq<int>|
        {
            &&& is_listing(c, "backups/"@, keys)
            &&& #[trigger] reads_manifests(decode, c, keys, found)
            &&& #[trigger] is_descending_order(update_times(found), p)
            &&& out == at_places(found, p)
        };
    lemma_manifests_of_keys(decode, c, keys, found);
    law_order_complete(update_times(found), p);
    assert forall|key: Seq<char>| #[trigger]
        c.contains_key(key) && is_manifest_key(key) implies exists|i: int|
        0 <= i < out.len() && meta_key_of((#[trigger] out[i]).backup_id) == key by {
        let at = choose|i: int| 0 <= i < keys.len() && #[trigger] keys[i].key == key;
        assert(ends_in(keys[at].key, "/meta"@));
        let j = choose|j: int|
            0 <= j < found.len() && meta_key_of((#[trigger] found[j]).backup_id) == keys[at].key;
        assert(p.contains(j));
        let i = choose|i: int| 0 <= i < p.len() && p[i] == j;
        assert(out[i] == found[j]);
    }
    assert forall|i: int| 0 <= i < out.len() implies {
        let key = meta_key_of((#[trigger] out[i]).backup_id);
        c.contains_key(key) && reads(decode, c[key].value, Ok(out[i]))
    } by {
        assert(0 <= p[i] < update_times(found).len());
        assert(out[i] == found[p[i]]);
        let at = choose|k: int|
            0 <= k < keys.len() && (#[trigger] keys[k]).key == meta_key_of(found[p[i]].backup_id)
                && reads(decode, c[keys[k].key].value, Ok(found[p[i]]));
        assert(c.contains_key(keys[at].key));
    }
    assert forall|i: int, j: int| 0 <= i < j < out.len() implies (#[trigger] out[i]).backup_id != (
    #[trigger] out[j]).backup_id by {
        assert(0 <= p[i] < update_times(found).len() && 0 <= p[j] < update_times(found).len());
        assert(p[i] != p[j]);
        assert(out[i] == found[p[i]] && out[j] == found[p[j]]);
        if p[i] < p[j] {
            assert(found[p[i]].backup_id != found[p[j]].backup_id);
        } else {
            assert(found[p[j]].backup_id != found[p[i]].backup_id);
        }
    }
}

/// An upload leaves every manifest under the key of its backup.
pub proof fn law_upload_keeps_manifests_in_place<
    D: Fn(&Vec<u8>) -> Result<BackupManifest, String>,
>(decode: D, u: Upload, found: Option<(ManifestView, i64)>, plan: PlanView, c: Contents)
    requires
        reads_back(decode),
        well_kept(decode, c),
        finds(decode, c, backup_id_of(u.filename, u.kind), Ok(found)),
        planned(u, found) == Ok::<PlanView, ServiceErrorView>(plan),
        next_version(c, plan.data_key, 0) is Some,
    ensures
        well_kept(decode, with_upload(c, plan, u.data)),
{
    let id = backup_id_of(u.filename, u.kind);
    let after = with_upload(c, plan, u.data);
    let own = meta_key_of(id);
    assert(upload_succeeds(u, found, plan, c));
    law_upload_adds_version(u, found, plan, c);
    law_meta_key_apart(id, id, plan.version.version as nat);
    assert(is_manifest_key(own)) by {
        assert(own.take("backups/"@.len() as int) =~= "backups/"@);
        assert(own.skip(own.len() - "/meta"@.len()) =~= "/meta"@);
    }
    assert(plan.manifest.backup_id == id) by {
        if let Some((m, v)) = found {
            assert(c.contains_key(own));
            assert(reads(decode, c[own].value, Ok(m)));
            assert(meta_key_of(m.backup_id) == own);
            lemma_concat_split("backups/"@ + m.backup_id, "/meta"@, "backups/"@ + id, "/meta"@);
            lemma_concat_split("backups/"@, m.backup_id, "backups/"@, id);
        }
    }
    assert forall|key: Seq<char>, r: Result<ManifestView, Seq<char>>|
        #![trigger after.contains_key(key), reads(decode, after[key].value, r)]
        after.contains_key(key) && is_manifest_key(key) && reads(
            decode,
            after[key].value,
            r,
        ) implies (r matches Ok(m) && meta_key_of(m.backup_id) == key) by {
        if key == own {
            assert(after[key].value == manifest_bytes(plan.manifest));
        } else {
            lemma_data_key_no_manifest_key(id, plan.version.version as nat);
            assert(c.contains_key(key) && after[key] == c[key]);
            assert(reads(decode, c[key].value, r));
        }
    }
}

proof fn lemma_data_key_no_manifest_key(id: Seq<char>, version: nat)
    ensures
        !is_manifest_key(data_key_of(id, version)),
{
    reveal_strlit("/meta");
    lemma_decimal_digits(version);
    let k = data_key_of(id, version);
    let d = decimal(version);
    assert(is_digit(d[d.len() - 1]));
    assert(k.last() == d[d.len() - 1]);
    if ends_in(k, "/meta"@) {
        assert(k.skip(k.len() - 5).last() == 'a');
    }
}

// ---------------------------------------------------------------------------
// The list of payments
// ---------------------------------------------------------------------------

/// Whether a reader of payments gives back what was stored.
pub open spec fn reads_back_payments<P: Fn(&Vec<u8>) -> Result<PaymentRecord, String>>(
    decode: P,
) -> bool {
    forall|p: PaymentView, r: Option<PaymentView>| #[trigger]
        reads_payment(decode, payment_bytes(p), r) ==> r == Some(p)
}

/// Whether a reader of payments makes the same of the same bytes.
pub open spec fn reads_steadily<P: Fn(&Vec<u8>) -> Result<PaymentRecord, String>>(
    decode: P,
) -> bool {
    forall|bytes: Seq<u8>, r: Option<PaymentView>, s: Option<PaymentView>| #[trigger]
        reads_payment(decode, bytes, r) && #[trigger] reads_payment(decode, bytes, s) ==> r == s
}

/// Whether a store holds a payment.
pub open spec fn holds_payment<P: Fn(&Vec<u8>) -> Result<PaymentRecord, String>>(
    decode: P,
    c: Contents,
    p: PaymentView,
) -> bool {
    exists|key: Seq<char>| #[trigger]
        c.contains_key(key) && begins_with(key, "payments/"@) && reads_payment(
            decode,
            c[key].value,
            Some(p),
        )
}

proof fn lemma_payments_of_keys<P: Fn(&Vec<u8>) -> Result<PaymentRecord, String>>(
    decode: P,
    c: Contents,
    keys: Seq<KeyValueView>,
    found: Seq<PaymentView>,
    p: PaymentView,
)
    requires
        reads_steadily(decode),
        reads_payments(decode, c, keys, found),
    ensures
        found.contains(p) <==> exists|i: int|
            0 <= i < keys.len() && reads_payment(
                decode,
                c[(#[trigger] keys[i]).key].value,
                Some(p),
            ),
    decreases keys.len(),
{
    if keys.len() > 0 {
        let rest = keys.drop_last();
        let n = keys.len() - 1;
        let r = choose|r: Option<PaymentView>|
            {
                &&& #[trigger] reads_payment(decode, c[keys.last().key].value, r)
                &&& match r {
                    Some(p) => found.len() > 0 && found.last() == p && reads_payments(
                        decode,
                        c,
                        keys.drop_last(),
                        found.drop_last(),
                    ),
                    None => reads_payments(decode, c, keys.drop_last(), found),
                }
            };
        let front = if r is Some {
            found.drop_last()
        } else {
            found
        };
        lemma_payments_of_keys(decode, c, rest, front, p);
        if found.contains(p) {
            let j = choose|j: int| 0 <= j < found.len() && found[j] == p;
            if j < front.len() {
                assert(front[j] == p);
                assert(front.contains(p));
                let i = choose|i: int|
                    0 <= i < rest.len() && reads_payment(
                        decode,
                        c[(#[trigger] rest[i]).key].value,
                        Some(p),
                    );
                assert(keys[i] == rest[i]);
            } else {
                assert(keys[n] == keys.last());
            }
        }
        if exists|i: int|
            0 <= i < keys.len() && reads_payment(
                decode,
                c[(#[trigger] keys[i]).key].value,
                Some(p),
            ) {
            let i = choose|i: int|
                0 <= i < keys.len() && reads_payment(
                    decode,
                    c[(#[trigger] keys[i]).key].value,
                    Some(p),
                );
            if i < rest.len() {
                assert(rest[i] == keys[i]);
                assert(front.contains(p));
                let j = choose|j: int| 0 <= j < front.len() && front[j] == p;
                assert(found[j] == p);
            } else {
                assert(r == Some(p));
                assert(found[found.len() - 1] == p);
            }
        }
    }
}

/// The list of payments holds what the store does, and nothing else.
pub proof fn law_payments_listed_as_held<P: Fn(&Vec<u8>) -> Result<PaymentRecord, String>>(
    decode: P,
    c: Contents,
    out: Seq<PaymentView>,
    p: PaymentView,
)
    requires
        reads_steadily(decode),
        lists_payments(decode, c, out),
    ensures
        out.contains(p) <==> holds_payment(decode, c, p),
{
    let (keys, found, places) = choose|
        keys: Seq<KeyValueView>,
        found: Seq<PaymentView>,
        places: Seq<int>,
    |
        {
            &&& is_listing(c, "payments/"@, keys)
            &&& #[trigger] reads_payments(decode, c, keys, found)
            &&& #[trigger] is_descending_order(payment_times(found), places)
            &&& out == at_places(found, places)
        };
    lemma_payments_of_keys(decode, c, keys, found, p);
    law_order_complete(payment_times(found), places);
    if out.contains(p) {
        let i = choose|i: int| 0 <= i < out.len() && out[i] == p;
        assert(0 <= places[i] < payment_times(found).len());
        assert(found[places[i]] == p);
        assert(found.contains(p));
        let k = choose|k: int|
            0 <= k < keys.len() && reads_payment(
                decode,
                c[(#[trigger] keys[k]).key].value,
                Some(p),
            );
        assert(c.contains_key(keys[k].key));
    }
    if holds_payment(decode, c, p) {
        let key = choose|key: Seq<char>| #[trigger]
            c.contains_key(key) && begins_with(key, "payments/"@) && reads_payment(
                decode,
                c[key].value,
                Some(p),
            );
        let k = choose|i: int| 0 <= i < keys.len() && #[trigger] keys[i].key == key;
        assert(reads_payment(decode, c[keys[k].key].value, Some(p)));
        assert(found.contains(p));
        let j = choose|j: int| 0 <= j < found.len() && found[j] == p;
        assert(places.contains(j));
        let i = choose|i: int| 0 <= i < places.len() && places[i] == j;
        assert(out[i] == p);
    }
}

/// A payment that is recorded under a new id is listed then, and the others are listed as
/// before.
pub proof fn law_recorded_payment_listed<P: Fn(&Vec<u8>) -> Result<PaymentRecord, String>>(
    decode: P,
    c: Contents,
    backup: ManifestView,
    p: PaymentView,
    before: Seq<PaymentView>,
    after: Seq<PaymentView>,
    q: PaymentView,
)
    requires
        reads_steadily(decode),
        reads_back_payments(decode),
        exists|r: Option<PaymentView>| reads_payment(decode, payment_bytes(p), r),
        !c.contains_key(payment_key_of(p.payment_id)),
        lists_payments(decode, c, before),
        lists_payments(decode, with_payment(c, Ok(backup), p), after),
    ensures
        after.contains(q) <==> before.contains(q) || q == p,
{
    let own = payment_key_of(p.payment_id);
    let then = with_payment(c, Ok(backup), p);
    law_payments_listed_as_held(decode, c, before, q);
    law_payments_listed_as_held(decode, then, after, q);
    assert(begins_with(own, "payments/"@)) by {
        assert(own.take("payments/"@.len() as int) =~= "payments/"@);
    }
    assert(then.contains_key(own) && then[own].value == payment_bytes(p));
    let r = choose|r: Option<PaymentView>| reads_payment(decode, payment_bytes(p), r);
    assert(r == Some(p));
    if holds_payment(decode, c, q) {
        let key = choose|key: Seq<char>| #[trigger]
            c.contains_key(key) && begins_with(key, "payments/"@) && reads_payment(
                decode,
                c[key].value,
                Some(q),
            );
        assert(then.contains_key(key) && then[key] == c[key]);
    }
    if holds_payment(decode, then, q) {
        let key = choose|key: Seq<char>| #[trigger]
            then.contains_key(key) && begins_with(key, "payments/"@) && reads_payment(
                decode,
                then[key].value,
                Some(q),
            );
        if key == own {
            assert(Some(q) == Some(p));
        } else {
            assert(c.contains_key(key) && then[key] == c[key]);
        }
    }
}

} // verus!
