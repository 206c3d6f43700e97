//! What the lists of backups and of payments hold after two requests, and in which order.
use vstd::prelude::*;
use crate::history::{holds_payment, law_payments_listed_as_held, reads_back_payments, reads_steadily};
use crate::manifest::{payment_bytes, BackupManifest, ManifestView, PaymentRecord, PaymentView};
use crate::order::{at_places, is_descending_order};
use crate::proto::KeyValueView;
use crate::state::{
    backup_id_of, law_meta_key_apart, law_payments_of_two_draws_both_recorded,
    law_upload_adds_version, law_upload_stamped, lemma_manifest_listed, lists_backups,
    lists_payments, meta_key_of, payment_of, payment_times, reads_back, reads_manifests,
    reads_payment, reads_payments, update_times, upload_succeeds, with_payment, with_upload,
    PlanView, Upload,
};
use crate::store::{is_listing, lemma_before_irreflexive, looked_up, text_before, Contents};
use crate::text::{begins_with, ends_in, lemma_concat_split, to_hex};

verus! {

/// The list of backups goes from the one that was updated last to the one that was first.
pub proof fn law_backups_newest_first<D: Fn(&Vec<u8>) -> Result<BackupManifest, String>>(
    decode: D,
    c: Contents,
    out: Seq<ManifestView>,
    i: int,
    j: int,
)
    requires
        lists_backups(decode, c, out),
        0 <= i < j < out.len(),
    ensures
        out[i].updated_at >= out[j].updated_at,
{
    let (keys, found, p) = choose|keys: Seq<KeyValueView>, found: Seq<ManifestView>, p: Seq<int>|
        {
            &&& is_listing(c, "backups/"@, keys)
            &&& #[trigger] reads_manifests(decode, c, keys, found)
            &&& #[trigger] is_descending_order(update_times(found), p)
            &&& out == at_places(found, p)
        };
    let times = update_times(found);
    assert(0 <= p[i] < times.len() && 0 <= p[j] < times.len());
    assert(times[p[i]] >= times[p[j]]);
    assert(out[i] == found[p[i]] && out[j] == found[p[j]]);
}

/// The list of payments goes from the latest to the earliest.
pub proof fn law_payments_latest_first<P: Fn(&Vec<u8>) -> Result<PaymentRecord, String>>(
    decode: P,
    c: Contents,
    out: Seq<PaymentView>,
    i: int,
    j: int,
)
    requires
        lists_payments(decode, c, out),
        0 <= i < j < out.len(),
    ensures
        out[i].paid_at >= out[j].paid_at,
{
    let (keys, found, p) = choose|keys: Seq<KeyValueView>, found: Seq<PaymentView>, p: Seq<int>|
        {
            &&& is_listing(c, "payments/"@, keys)
            &&& #[trigger] reads_payments(decode, c, keys, found)
            &&& #[trigger] is_descending_order(payment_times(found), p)
            &&& out == at_places(found, p)
        };
    let times = payment_times(found);
    assert(0 <= p[i] < times.len() && 0 <= p[j] < times.len());
    assert(times[p[i]] >= times[p[j]]);
    assert(out[i] == found[p[i]] && out[j] == found[p[j]]);
}

/// Of two uploads of different backups, one after the other on a clock that moves on, the later
/// has the later time and is listed first.
pub proof fn law_later_upload_listed_first<D: Fn(&Vec<u8>) -> Result<BackupManifest, String>>(
    decode: D,
    c: Contents,
    first: Upload,
    first_found: Option<(ManifestView, i64)>,
    first_plan: PlanView,
    second: Upload,
    second_found: Option<(ManifestView, i64)>,
    second_plan: PlanView,
    out: Seq<ManifestView>,
) -> (at: (int, int))
    requires
        reads_back(decode),
        backup_id_of(first.filename, first.kind) != backup_id_of(second.filename, second.kind),
        upload_succeeds(first, first_found, first_plan, c),
        upload_succeeds(
            second,
            second_found,
            second_plan,
            with_upload(c, first_plan, first.data),
        ),
        first.now < second.now,
        lists_backups(
            decode,
            with_upload(with_upload(c, first_plan, first.data), second_plan, second.data),
            out,
        ),
    ensures
        first_plan.manifest.updated_at == first.now,
        second_plan.manifest.updated_at == second.now,
        0 <= at.0 < at.1 < out.len(),
        out[at.0] == second_plan.manifest,
        out[at.1] == first_plan.manifest,
{
    let mid = with_upload(c, first_plan, first.data);
    let end = with_upload(mid, second_plan, second.data);
    let (id, other) = (
        backup_id_of(first.filename, first.kind),
        backup_id_of(second.filename, second.kind),
    );
    let (key, next) = (meta_key_of(id), meta_key_of(other));
    law_upload_stamped(first, first_found, first_plan);
    law_upload_stamped(second, second_found, second_plan);
    law_upload_adds_version(first, first_found, first_plan, c);
    law_upload_adds_version(second, second_found, second_plan, mid);
    law_meta_key_apart(id, other, second_plan.version.version as nat);
    if key == next {
        lemma_concat_split("backups/"@ + id, "/meta"@, "backups/"@ + other, "/meta"@);
        lemma_concat_split("backups/"@, id, "backups/"@, other);
    }
    assert(looked_up(end, key) == looked_up(mid, key));
    assert(begins_with(key, "backups/"@) && ends_in(key, "/meta"@)) by {
        assert(key.take("backups/"@.len() as int) =~= "backups/"@);
        assert(key.skip(key.len() - "/meta"@.len()) =~= "/meta"@);
    }
    assert(begins_with(next, "backups/"@) && ends_in(next, "/meta"@)) by {
        assert(next.take("backups/"@.len() as int) =~= "backups/"@);
        assert(next.skip(next.len() - "/meta"@.len()) =~= "/meta"@);
    }
    lemma_manifest_listed(decode, end, key, first_plan.manifest, out);
    lemma_manifest_listed(decode, end, next, second_plan.manifest, out);
    let i = choose|i: int| 0 <= i < out.len() && out[i] == second_plan.manifest;
    let j = choose|j: int| 0 <= j < out.len() && out[j] == first_plan.manifest;
    if j < i {
        law_backups_newest_first(decode, end, out, j, i);
    }
    (i, j)
}

/// Two payments whose draws differ are both listed, whatever else they have in common, the later
/// one first.
pub proof fn law_payments_of_two_draws_both_listed<
    P: Fn(&Vec<u8>) -> Result<PaymentRecord, String>,
>(
    decode: P,
    c: Contents,
    backup_a: ManifestView,
    backup_b: ManifestView,
    a: Seq<u8>,
    b: Seq<u8>,
    first: PaymentView,
    second: PaymentView,
    out: Seq<PaymentView>,
)
    requires
        reads_steadily(decode),
        reads_back_payments(decode),
        exists|r: Option<PaymentView>| reads_payment(decode, payment_bytes(first), r),
        exists|r: Option<PaymentView>| reads_payment(decode, payment_bytes(second), r),
        a != b,
        !c.contains_key("payments/"@ + to_hex(a)),
        !c.contains_key("payments/"@ + to_hex(b)),
        first == payment_of(
            a,
            first.backup_id,
            first.amount_msat,
            first.paid_at,
            first.method,
            first.note,
        ),
        second == payment_of(
            b,
            second.backup_id,
            second.amount_msat,
            second.paid_at,
            second.method,
            second.note,
        ),
        lists_payments(
            decode,
            with_payment(with_payment(c, Ok(backup_a), first), Ok(backup_b), second),
            out,
        ),
    ensures
        out.contains(first),
        out.contains(second),
        forall|i: int, j: int|
            0 <= i < out.len() && 0 <= j < out.len() && #[trigger] out[i] == first
                && #[trigger] out[j] == second && first.paid_at < second.paid_at ==> j < i,
{
    let end = with_payment(with_payment(c, Ok(backup_a), first), Ok(backup_b), second);
    law_payments_of_two_draws_both_recorded(c, backup_a, backup_b, a, b, first, second);
    lemma_payment_held(decode, end, a, first);
    lemma_payment_held(decode, end, b, second);
    law_payments_listed_as_held(decode, end, out, first);
    law_payments_listed_as_held(decode, end, out, second);
    assert forall|i: int, j: int|
        0 <= i < out.len() && 0 <= j < out.len() && #[trigger] out[i] == first
            && #[trigger] out[j] == second && first.paid_at < second.paid_at implies j < i by {
        if i < j {
            law_payments_latest_first(decode, end, out, i, j);
        }
    }
}

proof fn lemma_payment_held<P: Fn(&Vec<u8>) -> Result<PaymentRecord, String>>(
    decode: P,
    c: Contents,
    id: Seq<u8>,
    p: PaymentView,
)
    requires
        reads_back_payments(decode),
        exists|r: Option<PaymentView>| reads_payment(decode, payment_bytes(p), r),
        looked_up(c, "payments/"@ + to_hex(id)) matches Some(kv) && kv.value == payment_bytes(p),
    ensures
        holds_payment(decode, c, p),
{
    let key = "payments/"@ + to_hex(id);
    assert(key.take("payments/"@.len() as int) =~= "payments/"@);
    let r = choose|r: Option<PaymentView>| reads_payment(decode, payment_bytes(p), r);
    assert(reads_payment(decode, payment_bytes(p), r));
    assert(c.contains_key(key) && reads_payment(decode, c[key].value, Some(p)));
}

/// Whether every payment of a store can be read, and stands under the key of its id.
pub open spec fn payments_well_kept<P: Fn(&Vec<u8>) -> Result<PaymentRecord, String>>(
    decode: P,
    c: Contents,
) -> bool {
    forall|key: Seq<char>, r: Option<PaymentView>|
        #![trigger c.contains_key(key), reads_payment(decode, c[key].value, r)]
        c.contains_key(key) && begins_with(key, "payments/"@) && reads_payment(
            decode,
            c[key].value,
            r,
        ) ==> (r matches Some(p) && "payments/"@ + p.payment_id == key)
}

proof fn lemma_payments_once<P: Fn(&Vec<u8>) -> Result<PaymentRecord, String>>(
    decode: P,
    c: Contents,
    keys: Seq<KeyValueView>,
    found: Seq<PaymentView>,
)
    requires
        payments_well_kept(decode, c),
        reads_payments(decode, c, keys, found),
        forall|i: int|
            0 <= i < keys.len() ==> c.contains_key((#[trigger] keys[i]).key) && begins_with(
                keys[i].key,
                "payments/"@,
            ),
    ensures
        found.len() == keys.len(),
        forall|i: int|
            0 <= i < keys.len() ==> "payments/"@ + (#[trigger] found[i]).payment_id == keys[i].key,
    decreases keys.len(),
{
    if keys.len() > 0 {
        let rest = keys.drop_last();
        let n = keys.len() - 1;
        assert forall|i: int| 0 <= i < rest.len() implies c.contains_key((#[trigger] rest[i]).key)
            && begins_with(rest[i].key, "payments/"@) by {
            assert(rest[i] == keys[i]);
        }
        let r = choose|r: Option<PaymentView>|
            {
                &&& #[trigger] reads_payment(decode, c[keys.last().key].value, r)
                &&& match r {
                    Some(p) => found.len() > 0 && found.last() == p && reads_payments(
                        decode,
                        c,
                        keys.drop_last(),
                        found.drop_last(),
                    ),
                    None => reads_payments(decode, c, keys.drop_last(), found),
                }
            };
        assert(c.contains_key(keys[n].key));
        assert(r is Some);
        lemma_payments_once(decode, c, rest, found.drop_last());
        assert forall|i: int| 0 <= i < keys.len() implies "payments/"@ + (
        #[trigger] found[i]).payment_id == keys[i].key by {
            if i < rest.len() {
                assert(found.drop_last()[i] == found[i]);
                assert(rest[i] == keys[i]);
            }
        }
    }
}

/// Every payment is listed once: no two of the list have one id.
pub proof fn law_every_payment_listed_once<P: Fn(&Vec<u8>) -> Result<PaymentRecord, String>>(
    decode: P,
    c: Contents,
    out: Seq<PaymentView>,
    i: int,
    j: int,
)
    requires
        payments_well_kept(decode, c),
        lists_payments(decode, c, out),
        0 <= i < j < out.len(),
    ensures
        out[i].payment_id != out[j].payment_id,
{
    let (keys, found, p) = choose|keys: Seq<KeyValueView>, found: Seq<PaymentView>, p: Seq<int>|
        {
            &&& is_listing(c, "payments/"@, keys)
            &&& #[trigger] reads_payments(decode, c, keys, found)
            &&& #[trigger] is_descending_order(payment_times(found), p)
            &&& out == at_places(found, p)
        };
    lemma_payments_once(decode, c, keys, found);
    let n = payment_times(found).len();
    assert(0 <= p[i] < n && 0 <= p[j] < n);
    assert(p[i] != p[j]);
    assert(out[i] == found[p[i]] && out[j] == found[p[j]]);
    let (a, b) = if p[i] < p[j] {
        (p[i], p[j])
    } else {
        (p[j], p[i])
    };
    assert(text_before(keys[a].key, keys[b].key));
    lemma_before_irreflexive(keys[a].key);
}

} // verus!
