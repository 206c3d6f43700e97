//! The records of the service: backups, payments, the announcement, prices.
use vstd::prelude::*;
use vstd::string::*;
use vstd::utf8::*;
use crate::json::{
    json_field, json_list, json_object, json_optional_string, lemma_coded_field,
    lemma_json_list_delimited, lemma_json_string_delimited, lemma_number_field,
    lemma_objects_agree, lemma_string_field, write_field, write_list, write_object,
    write_optional_string,
};
use crate::outside::{json_quote, json_string};
use crate::text::{decimal, decimal_text, lemma_concat_split, lemma_utf8_injective, texts};

verus! {

/// What a backup holds.
#[derive(Debug, Clone, Copy, PartialEq, Eq, Structural)]
pub enum BackupKind {
    /// Lightning channel state.
    Lightning,
    /// RGB state.
    Rgb,
    /// Anything else.
    Other,
}

/// The name of a kind, in texts and on the wire.
pub open spec fn kind_name(kind: BackupKind) -> Seq<char> {
    match kind {
        BackupKind::Lightning => "lightning"@,
        BackupKind::Rgb => "rgb"@,
        BackupKind::Other => "other"@,
    }
}

/// Kinds with one name are the same.
pub proof fn lemma_kind_name_injective(a: BackupKind, b: BackupKind)
    requires
        kind_name(a) == kind_name(b),
    ensures
        a == b,
{
    reveal_strlit("lightning");
    reveal_strlit("rgb");
    reveal_strlit("other");
    assert("lightning"@.len() == 9 && "rgb"@.len() == 3 && "other"@.len() == 5);
}

impl BackupKind {
    /// The name of the kind.
    pub fn to_string(&self) -> (s: String)
        ensures
            s@ == kind_name(*self),
    {
        match self {
            BackupKind::Lightning => "lightning".to_owned(),
            BackupKind::Rgb => "rgb".to_owned(),
            BackupKind::Other => "other".to_owned(),
        }
    }
}

/// One stored version of a backup.
#[derive(Debug)]
pub struct BackupVersion {
    /// Its number, from one on.
    pub version: u64,
    /// Its size in bytes.
    pub size: u64,
    /// Its SHA-256 in hexadecimal.
    pub sha256: String,
    /// When it was stored.
    pub created_at: u64,
    /// The infohash of the torrent that seeds it.
    pub infohash: String,
    /// The magnet link of that torrent.
    pub magnet: String,
}

/// A version in mathematical terms.
pub struct VersionView {
    /// See [`BackupVersion::version`].
    pub version: u64,
    /// See [`BackupVersion::size`].
    pub size: u64,
    /// See [`BackupVersion::sha256`].
    pub sha256: Seq<char>,
    /// See [`BackupVersion::created_at`].
    pub created_at: u64,
    /// See [`BackupVersion::infohash`].
    pub infohash: Seq<char>,
    /// See [`BackupVersion::magnet`].
    pub magnet: Seq<char>,
}

impl View for BackupVersion {
    type V = VersionView;

    open spec fn view(&self) -> VersionView {
        VersionView {
            version: self.version,
            size: self.size,
            sha256: self.sha256@,
            created_at: self.created_at,
            infohash: self.infohash@,
            magnet: self.magnet@,
        }
    }
}

impl Clone for BackupVersion {
    fn clone(&self) -> (r: BackupVersion)
        ensures
            r@ == self@,
    {
        BackupVersion {
            version: self.version,
            size: self.size,
            sha256: self.sha256.clone(),
            created_at: self.created_at,
            infohash: self.infohash.clone(),
            magnet: self.magnet.clone(),
        }
    }
}

/// A backup: a series of versions.
#[derive(Debug)]
pub struct BackupManifest {
    /// What the series is known by.
    pub backup_id: String,
    /// A label of the owner's.
    pub label: String,
    /// The name of the file.
    pub filename: String,
    /// What it holds.
    pub kind: BackupKind,
    /// The number of the latest version.
    pub latest_version: u64,
    /// The versions, the oldest first.
    pub versions: Vec<BackupVersion>,
    /// When the first version was stored.
    pub created_at: u64,
    /// When the latest version was stored.
    pub updated_at: u64,
}

/// A manifest in mathematical terms.
#[verifier::ext_equal]
pub struct ManifestView {
    /// See [`BackupManifest::backup_id`].
    pub backup_id: Seq<char>,
    /// See [`BackupManifest::label`].
    pub label: Seq<char>,
    /// See [`BackupManifest::filename`].
    pub filename: Seq<char>,
    /// See [`BackupManifest::kind`].
    pub kind: BackupKind,
    /// See [`BackupManifest::latest_version`].
    pub latest_version: u64,
    /// See [`BackupManifest::versions`].
    pub versions: Seq<VersionView>,
    /// See [`BackupManifest::created_at`].
    pub created_at: u64,
    /// See [`BackupManifest::updated_at`].
    pub updated_at: u64,
}

/// Versions in mathematical terms.
pub open spec fn version_views(v: Seq<BackupVersion>) -> Seq<VersionView> {
    v.map_values(|x: BackupVersion| x@)
}

impl View for BackupManifest {
    type V = ManifestView;

    open spec fn view(&self) -> ManifestView {
        ManifestView {
            backup_id: self.backup_id@,
            label: self.label@,
            filename: self.filename@,
            kind: self.kind,
            latest_version: self.latest_version,
            versions: version_views(self.versions@),
            created_at: self.created_at,
            updated_at: self.updated_at,
        }
    }
}

impl Clone for BackupManifest {
    fn clone(&self) -> (r: BackupManifest)
        ensures
            r@ == self@,
    {
        let mut versions: Vec<BackupVersion> = Vec::new();
        let mut i: usize = 0;
        while i < self.versions.len()
            invariant
                i <= self.versions@.len(),
                versions@.len() == i,
                forall|j: int| 0 <= j < i ==> (#[trigger] versions@[j])@ == self.versions@[j]@,
            decreases self.versions.len() - i,
        {
            versions.push(self.versions[i].clone());
            i = i + 1;
        }
        assert(version_views(versions@) =~= version_views(self.versions@));
        BackupManifest {
            backup_id: self.backup_id.clone(),
            label: self.label.clone(),
            filename: self.filename.clone(),
            kind: self.kind,
            latest_version: self.latest_version,
            versions,
            created_at: self.created_at,
            updated_at: self.updated_at,
        }
    }
}

/// What a server advertises.
#[derive(Debug)]
pub struct ServiceAnnouncement {
    /// The name of the service.
    pub name: String,
    /// What it is.
    pub description: String,
    /// The base URL of its HTTP API.
    pub endpoint: String,
    /// The BOLT12 offer that storage is paid with.
    pub bolt12_offer: String,
    /// The price of a stored MiB for a billing period, in sats.
    pub price_sats_per_mib: u64,
    /// The billing period in seconds.
    pub billing_period_secs: u64,
    /// The largest backup that is accepted, in bytes.
    pub max_backup_bytes: u64,
    /// The kinds that are accepted.
    pub kinds: Vec<BackupKind>,
    /// The version of the protocol.
    pub pivss_version: String,
}

/// An announcement in mathematical terms.
pub struct AnnouncementView {
    /// See [`ServiceAnnouncement::name`].
    pub name: Seq<char>,
    /// See [`ServiceAnnouncement::description`].
    pub description: Seq<char>,
    /// See [`ServiceAnnouncement::endpoint`].
    pub endpoint: Seq<char>,
    /// See [`ServiceAnnouncement::bolt12_offer`].
    pub bolt12_offer: Seq<char>,
    /// See [`ServiceAnnouncement::price_sats_per_mib`].
    pub price_sats_per_mib: u64,
    /// See [`ServiceAnnouncement::billing_period_secs`].
    pub billing_period_secs: u64,
    /// See [`ServiceAnnouncement::max_backup_bytes`].
    pub max_backup_bytes: u64,
    /// See [`ServiceAnnouncement::kinds`].
    pub kinds: Seq<BackupKind>,
    /// See [`ServiceAnnouncement::pivss_version`].
    pub pivss_version: Seq<char>,
}

impl View for ServiceAnnouncement {
    type V = AnnouncementView;

    open spec fn view(&self) -> AnnouncementView {
        AnnouncementView {
            name: self.name@,
            description: self.description@,
            endpoint: self.endpoint@,
            bolt12_offer: self.bolt12_offer@,
            price_sats_per_mib: self.price_sats_per_mib,
            billing_period_secs: self.billing_period_secs,
            max_backup_bytes: self.max_backup_bytes,
            kinds: self.kinds@,
            pivss_version: self.pivss_version@,
        }
    }
}

/// A payment that was received.
#[derive(Debug)]
pub struct PaymentRecord {
    /// What it is known by.
    pub payment_id: String,
    /// The backup that was paid for.
    pub backup_id: String,
    /// The amount in thousandths of a sat.
    pub amount_msat: u64,
    /// When it was recorded.
    pub paid_at: u64,
    /// How it was paid: `mock`, or over the wallet.
    pub method: String,
    /// A note.
    pub note: Option<String>,
}

/// A payment in mathematical terms.
pub struct PaymentView {
    /// See [`PaymentRecord::payment_id`].
    pub payment_id: Seq<char>,
    /// See [`PaymentRecord::backup_id`].
    pub backup_id: Seq<char>,
    /// See [`PaymentRecord::amount_msat`].
    pub amount_msat: u64,
    /// See [`PaymentRecord::paid_at`].
    pub paid_at: u64,
    /// See [`PaymentRecord::method`].
    pub method: Seq<char>,
    /// See [`PaymentRecord::note`].
    pub note: Option<Seq<char>>,
}

/// An optional text in mathematical terms.
pub open spec fn optional_text(s: Option<String>) -> Option<Seq<char>> {
    match s {
        Some(s) => Some(s@),
        None => None,
    }
}

impl View for PaymentRecord {
    type V = PaymentView;

    open spec fn view(&self) -> PaymentView {
        PaymentView {
            payment_id: self.payment_id@,
            backup_id: self.backup_id@,
            amount_msat: self.amount_msat,
            paid_at: self.paid_at,
            method: self.method@,
            note: optional_text(self.note),
        }
    }
}

impl Clone for PaymentRecord {
    fn clone(&self) -> (r: PaymentRecord)
        ensures
            r@ == self@,
    {
        PaymentRecord {
            payment_id: self.payment_id.clone(),
            backup_id: self.backup_id.clone(),
            amount_msat: self.amount_msat,
            paid_at: self.paid_at,
            method: self.method.clone(),
            note: match &self.note {
                Some(note) => Some(note.clone()),
                None => None,
            },
        }
    }
}

impl Clone for ServiceAnnouncement {
    fn clone(&self) -> (r: ServiceAnnouncement)
        ensures
            r@ == self@,
    {
        let mut kinds: Vec<BackupKind> = Vec::new();
        kinds.extend_from_slice(&self.kinds);
        assert(kinds@ =~= self.kinds@);
        ServiceAnnouncement {
            name: self.name.clone(),
            description: self.description.clone(),
            endpoint: self.endpoint.clone(),
            bolt12_offer: self.bolt12_offer.clone(),
            price_sats_per_mib: self.price_sats_per_mib,
            billing_period_secs: self.billing_period_secs,
            max_backup_bytes: self.max_backup_bytes,
            kinds,
            pivss_version: self.pivss_version.clone(),
        }
    }
}

/// The bytes of a MiB.
pub const MIB: u64 = 1_048_576;

/// The MiBs that a size is charged for: whole ones, rounded up, and at least one.
pub open spec fn charged_mib(size_bytes: u64) -> int {
    if size_bytes == 0 {
        1
    } else {
        (size_bytes + MIB - 1) / MIB as int
    }
}

/// The price of a size, in thousandths of a sat.
pub open spec fn price_msat(size_bytes: u64, price_sats_per_mib: u64) -> int {
    charged_mib(size_bytes) * price_sats_per_mib * 1000
}

/// The MiBs that a size is charged for.
fn charge_mib(size_bytes: u64) -> (mib: u64)
    ensures
        mib == charged_mib(size_bytes),
        mib >= 1,
{
    let whole: u64 = size_bytes / MIB;
    if size_bytes == 0 {
        1
    } else if size_bytes % MIB == 0 {
        whole
    } else {
        whole + 1
    }
}

/// The price for storing a backup of a size, in thousandths of a sat.
pub fn quote_msat(size_bytes: u64, price_sats_per_mib: u64) -> (quote: u64)
    requires
        price_msat(size_bytes, price_sats_per_mib) <= u64::MAX,
    ensures
        quote == price_msat(size_bytes, price_sats_per_mib),
{
    let mib: u64 = charge_mib(size_bytes);
    assert(mib * price_sats_per_mib <= mib * price_sats_per_mib * 1000) by (nonlinear_arith);
    mib * price_sats_per_mib * 1000
}

/// Whether the price for storing a backup of a size is a number of 64 bits, as
/// [`quote_msat`] asks.
pub fn quote_fits(size_bytes: u64, price_sats_per_mib: u64) -> (fits: bool)
    ensures
        fits == (price_msat(size_bytes, price_sats_per_mib) <= u64::MAX),
{
    let mib: u64 = charge_mib(size_bytes);
    assert(mib * price_sats_per_mib <= mib * price_sats_per_mib * 1000) by (nonlinear_arith);
    match mib.checked_mul(price_sats_per_mib) {
        Some(sats) => sats.checked_mul(1000).is_some(),
        None => false,
    }
}

/// A backup is charged for the fewest whole MiBs that hold it, and for at least one: where
/// `mib` is that number, the price is that of `mib` MiBs.
pub proof fn law_price_of_fewest_mibs(size_bytes: u64, price_sats_per_mib: u64, mib: int)
    requires
        mib >= 1,
        mib * 1048576 >= size_bytes,
        mib == 1 || (mib - 1) * 1048576 < size_bytes,
    ensures
        price_msat(size_bytes, price_sats_per_mib) == mib * price_sats_per_mib * 1000,
{
    assert(charged_mib(size_bytes) == mib);
}

/// What is charged for holds the backup, with less than a MiB to spare where it is more than
/// one.
pub proof fn law_charge_holds_backup(size_bytes: u64)
    ensures
        charged_mib(size_bytes) >= 1,
        charged_mib(size_bytes) * 1048576 >= size_bytes,
        charged_mib(size_bytes) > 1 ==> (charged_mib(size_bytes) - 1) * 1048576 < size_bytes,
{
}

/// Every further MiB costs the same: a backup that is larger by one MiB costs exactly the
/// price of one MiB more.
pub proof fn law_each_mib_costs_the_same(size_bytes: u64, larger: u64, price_sats_per_mib: u64)
    requires
        size_bytes > 0,
        larger == size_bytes + 1048576,
    ensures
        price_msat(larger, price_sats_per_mib) == price_msat(size_bytes, price_sats_per_mib)
            + price_sats_per_mib * 1000,
{
    let (a, p) = (charged_mib(size_bytes), price_sats_per_mib as int);
    assert(charged_mib(larger) == a + 1);
    assert((a + 1) * p * 1000 == a * p * 1000 + p * 1000) by (nonlinear_arith);
}

/// The price is in proportion to what a MiB costs.
pub proof fn law_price_in_proportion(size_bytes: u64, a: u64, b: u64, sum: u64)
    requires
        sum == a + b,
    ensures
        price_msat(size_bytes, sum) == price_msat(size_bytes, a) + price_msat(size_bytes, b),
{
    let n = charged_mib(size_bytes);
    assert(n * (a + b) * 1000 == n * a * 1000 + n * b * 1000) by (nonlinear_arith);
}

/// A larger backup never costs less, and nothing costs less than one MiB.
pub proof fn law_price_grows_with_size(small: u64, large: u64, price_sats_per_mib: u64)
    requires
        small <= large,
    ensures
        price_msat(small, price_sats_per_mib) <= price_msat(large, price_sats_per_mib),
        price_sats_per_mib * 1000 <= price_msat(small, price_sats_per_mib),
{
    let (a, b, p) = (charged_mib(small), charged_mib(large), price_sats_per_mib as int);
    assert(1 <= a <= b);
    assert(p * 1000 <= a * p * 1000 <= b * p * 1000) by (nonlinear_arith)
        requires
            1 <= a <= b,
            0 <= p,
    ;
}

// ---------------------------------------------------------------------------
// JSON
// ---------------------------------------------------------------------------

/// The fields of a version in JSON.
pub open spec fn version_fields(v: VersionView) -> Seq<Seq<char>> {
    seq![
        json_field("version"@, decimal(v.version as nat)),
        json_field("size"@, decimal(v.size as nat)),
        json_field("sha256"@, json_string(v.sha256)),
        json_field("created_at"@, decimal(v.created_at as nat)),
        json_field("infohash"@, json_string(v.infohash)),
        json_field("magnet"@, json_string(v.magnet)),
    ]
}

/// A version in JSON.
pub open spec fn version_json(v: VersionView) -> Seq<char> {
    json_object(version_fields(v))
}

/// The fields of a manifest in JSON.
pub open spec fn manifest_fields(m: ManifestView) -> Seq<Seq<char>> {
    seq![
        json_field("backup_id"@, json_string(m.backup_id)),
        json_field("label"@, json_string(m.label)),
        json_field("filename"@, json_string(m.filename)),
        json_field("kind"@, json_string(kind_name(m.kind))),
        json_field("latest_version"@, decimal(m.latest_version as nat)),
        json_field("versions"@, json_list(m.versions.map_values(|v: VersionView| version_json(v)))),
        json_field("created_at"@, decimal(m.created_at as nat)),
        json_field("updated_at"@, decimal(m.updated_at as nat)),
    ]
}

/// A manifest in JSON.
pub open spec fn manifest_json(m: ManifestView) -> Seq<char> {
    json_object(manifest_fields(m))
}

/// The bytes in which a manifest is stored.
pub open spec fn manifest_bytes(m: ManifestView) -> Seq<u8> {
    encode_utf8(manifest_json(m))
}

/// The fields of a payment in JSON.
pub open spec fn payment_fields(p: PaymentView) -> Seq<Seq<char>> {
    seq![
        json_field("payment_id"@, json_string(p.payment_id)),
        json_field("backup_id"@, json_string(p.backup_id)),
        json_field("amount_msat"@, decimal(p.amount_msat as nat)),
        json_field("paid_at"@, decimal(p.paid_at as nat)),
        json_field("method"@, json_string(p.method)),
        json_field("note"@, json_optional_string(p.note)),
    ]
}

/// A payment in JSON.
pub open spec fn payment_json(p: PaymentView) -> Seq<char> {
    json_object(payment_fields(p))
}

/// The bytes in which a payment is stored.
pub open spec fn payment_bytes(p: PaymentView) -> Seq<u8> {
    encode_utf8(payment_json(p))
}

/// Kinds in JSON.
pub open spec fn kinds_json(kinds: Seq<BackupKind>) -> Seq<char> {
    json_list(kinds.map_values(|k: BackupKind| json_string(kind_name(k))))
}

/// The fields of an announcement in JSON.
pub open spec fn announcement_fields(a: AnnouncementView) -> Seq<Seq<char>> {
    seq![
        json_field("name"@, json_string(a.name)),
        json_field("description"@, json_string(a.description)),
        json_field("endpoint"@, json_string(a.endpoint)),
        json_field("bolt12_offer"@, json_string(a.bolt12_offer)),
        json_field("price_sats_per_mib"@, decimal(a.price_sats_per_mib as nat)),
        json_field("billing_period_secs"@, decimal(a.billing_period_secs as nat)),
        json_field("max_backup_bytes"@, decimal(a.max_backup_bytes as nat)),
        json_field("kinds"@, kinds_json(a.kinds)),
        json_field("pivss_version"@, json_string(a.pivss_version)),
    ]
}

/// An announcement in JSON.
pub open spec fn announcement_json(a: AnnouncementView) -> Seq<char> {
    json_object(announcement_fields(a))
}

/// Appends a field with a string.
fn push_string_field(fields: &mut Vec<String>, key: &str, value: &str)
    ensures
        texts(final(fields)@) == texts(old(fields)@).push(json_field(key@, json_string(value@))),
{
    let quoted = json_quote(value);
    fields.push(write_field(key, quoted.as_str()));
    assert(texts(fields@) =~= texts(old(fields)@).push(json_field(key@, json_string(value@))));
}

/// Appends a field with a number.
fn push_number_field(fields: &mut Vec<String>, key: &str, value: u64)
    ensures
        texts(final(fields)@) == texts(old(fields)@).push(json_field(key@, decimal(value as nat))),
{
    let number = decimal_text(value);
    fields.push(write_field(key, number.as_str()));
    assert(texts(fields@) =~= texts(old(fields)@).push(json_field(key@, decimal(value as nat))));
}

/// Appends a field with a value that is JSON itself.
fn push_json_field(fields: &mut Vec<String>, key: &str, value: &str)
    ensures
        texts(final(fields)@) == texts(old(fields)@).push(json_field(key@, value@)),
{
    fields.push(write_field(key, value));
    assert(texts(fields@) =~= texts(old(fields)@).push(json_field(key@, value@)));
}

impl BackupVersion {
    /// The version in JSON.
    pub fn to_json(&self) -> (s: String)
        ensures
            s@ == version_json(self@),
    {
        let mut fields: Vec<String> = Vec::new();
        push_number_field(&mut fields, "version", self.version);
        push_number_field(&mut fields, "size", self.size);
        push_string_field(&mut fields, "sha256", self.sha256.as_str());
        push_number_field(&mut fields, "created_at", self.created_at);
        push_string_field(&mut fields, "infohash", self.infohash.as_str());
        push_string_field(&mut fields, "magnet", self.magnet.as_str());
        assert(texts(fields@) =~= version_fields(self@));
        write_object(&fields)
    }
}

impl BackupManifest {
    /// The manifest in JSON.
    pub fn to_json(&self) -> (s: String)
        ensures
            s@ == manifest_json(self@),
    {
        let mut versions: Vec<String> = Vec::new();
        let mut i: usize = 0;
        while i < self.versions.len()
            invariant
                i <= self.versions@.len(),
                versions@.len() == i,
                forall|j: int|
                    0 <= j < i ==> (#[trigger] versions@[j])@ == version_json(self.versions@[j]@),
            decreases self.versions.len() - i,
        {
            versions.push(self.versions[i].to_json());
            i = i + 1;
        }
        assert(texts(versions@) =~= self@.versions.map_values(|v: VersionView| version_json(v)));
        let list = write_list(&versions);
        let kind = self.kind.to_string();
        let mut fields: Vec<String> = Vec::new();
        push_string_field(&mut fields, "backup_id", self.backup_id.as_str());
        push_string_field(&mut fields, "label", self.label.as_str());
        push_string_field(&mut fields, "filename", self.filename.as_str());
        push_string_field(&mut fields, "kind", kind.as_str());
        push_number_field(&mut fields, "latest_version", self.latest_version);
        push_json_field(&mut fields, "versions", list.as_str());
        push_number_field(&mut fields, "created_at", self.created_at);
        push_number_field(&mut fields, "updated_at", self.updated_at);
        assert(texts(fields@) =~= manifest_fields(self@));
        write_object(&fields)
    }
}

impl PaymentRecord {
    /// The payment in JSON.
    pub fn to_json(&self) -> (s: String)
        ensures
            s@ == payment_json(self@),
    {
        let note = write_optional_string(&self.note);
        let mut fields: Vec<String> = Vec::new();
        push_string_field(&mut fields, "payment_id", self.payment_id.as_str());
        push_string_field(&mut fields, "backup_id", self.backup_id.as_str());
        push_number_field(&mut fields, "amount_msat", self.amount_msat);
        push_number_field(&mut fields, "paid_at", self.paid_at);
        push_string_field(&mut fields, "method", self.method.as_str());
        push_json_field(&mut fields, "note", note.as_str());
        assert(texts(fields@) =~= payment_fields(self@));
        write_object(&fields)
    }
}

impl ServiceAnnouncement {
    /// The announcement in JSON.
    pub fn to_json(&self) -> (s: String)
        ensures
            s@ == announcement_json(self@),
    {
        let mut kinds: Vec<String> = Vec::new();
        let mut i: usize = 0;
        while i < self.kinds.len()
            invariant
                i <= self.kinds@.len(),
                kinds@.len() == i,
                forall|j: int|
                    0 <= j < i ==> (#[trigger] kinds@[j])@ == json_string(
                        kind_name(self.kinds@[j]),
                    ),
            decreases self.kinds.len() - i,
        {
            kinds.push(json_quote(self.kinds[i].to_string().as_str()));
            i = i + 1;
        }
        assert(texts(kinds@) =~= self@.kinds.map_values(
            |k: BackupKind| json_string(kind_name(k)),
        ));
        let list = write_list(&kinds);
        let mut fields: Vec<String> = Vec::new();
        push_string_field(&mut fields, "name", self.name.as_str());
        push_string_field(&mut fields, "description", self.description.as_str());
        push_string_field(&mut fields, "endpoint", self.endpoint.as_str());
        push_string_field(&mut fields, "bolt12_offer", self.bolt12_offer.as_str());
        push_number_field(&mut fields, "price_sats_per_mib", self.price_sats_per_mib);
        push_number_field(&mut fields, "billing_period_secs", self.billing_period_secs);
        push_number_field(&mut fields, "max_backup_bytes", self.max_backup_bytes);
        push_json_field(&mut fields, "kinds", list.as_str());
        push_string_field(&mut fields, "pivss_version", self.pivss_version.as_str());
        assert(texts(fields@) =~= announcement_fields(self@));
        write_object(&fields)
    }
}

/// The JSON of a version can be told from what follows it, and gives the version
/// away.
pub proof fn law_version_json_determines(
    a: VersionView,
    x: Seq<char>,
    b: VersionView,
    y: Seq<char>,
)
    requires
        version_json(a) + x == version_json(b) + y,
    ensures
        a == b,
        x == y,
{
    let (fa, fb) = (version_fields(a), version_fields(b));
    lemma_objects_agree(fa, x, fb, y);
    lemma_number_field(fa, fb, 0, "version"@, a.version as nat, b.version as nat, x, y);
    lemma_number_field(fa, fb, 1, "size"@, a.size as nat, b.size as nat, x, y);
    lemma_string_field(fa, fb, 2, "sha256"@, a.sha256, b.sha256, x, y);
    lemma_number_field(fa, fb, 3, "created_at"@, a.created_at as nat, b.created_at as nat, x, y);
    lemma_string_field(fa, fb, 4, "infohash"@, a.infohash, b.infohash, x, y);
    lemma_string_field(fa, fb, 5, "magnet"@, a.magnet, b.magnet, x, y);
}

/// What is stored of a manifest gives the manifest away: no two are stored as the
/// same bytes.
pub proof fn law_manifest_bytes_determine(a: ManifestView, b: ManifestView)
    requires
        manifest_bytes(a) == manifest_bytes(b),
    ensures
        a == b,
{
    lemma_utf8_injective(manifest_json(a), manifest_json(b));
    let e = Seq::<char>::empty();
    let (fa, fb) = (manifest_fields(a), manifest_fields(b));
    lemma_objects_agree(fa, e, fb, e);
    lemma_string_field(fa, fb, 0, "backup_id"@, a.backup_id, b.backup_id, e, e);
    lemma_string_field(fa, fb, 1, "label"@, a.label, b.label, e, e);
    lemma_string_field(fa, fb, 2, "filename"@, a.filename, b.filename, e, e);
    lemma_string_field(fa, fb, 3, "kind"@, kind_name(a.kind), kind_name(b.kind), e, e);
    lemma_kind_name_injective(a.kind, b.kind);
    lemma_number_field(
        fa,
        fb,
        4,
        "latest_version"@,
        a.latest_version as nat,
        b.latest_version as nat,
        e,
        e,
    );
    let code = |v: VersionView| version_json(v);
    assert forall|p: VersionView, u: Seq<char>, q: VersionView, v: Seq<char>|
        #[trigger] (code(p) + u) == #[trigger] (code(q) + v) implies p == q && u == v by {
        law_version_json_determines(p, u, q, v);
    }
    let list = |v: Seq<VersionView>| json_list(v.map_values(code));
    assert forall|p: Seq<VersionView>, u: Seq<char>, q: Seq<VersionView>, v: Seq<char>|
        #[trigger] (list(p) + u) == #[trigger] (list(q) + v) implies p == q && u == v by {
        lemma_json_list_delimited(code, p, u, q, v);
    }
    lemma_coded_field(list, fa, fb, 5, "versions"@, a.versions, b.versions, e, e);
    lemma_number_field(fa, fb, 6, "created_at"@, a.created_at as nat, b.created_at as nat, e, e);
    lemma_number_field(fa, fb, 7, "updated_at"@, a.updated_at as nat, b.updated_at as nat, e, e);
}

/// What is stored of a payment gives the payment away.
pub proof fn law_payment_bytes_determine(a: PaymentView, b: PaymentView)
    requires
        payment_bytes(a) == payment_bytes(b),
    ensures
        a == b,
{
    lemma_utf8_injective(payment_json(a), payment_json(b));
    let e = Seq::<char>::empty();
    let (fa, fb) = (payment_fields(a), payment_fields(b));
    lemma_objects_agree(fa, e, fb, e);
    lemma_string_field(fa, fb, 0, "payment_id"@, a.payment_id, b.payment_id, e, e);
    lemma_string_field(fa, fb, 1, "backup_id"@, a.backup_id, b.backup_id, e, e);
    lemma_number_field(fa, fb, 2, "amount_msat"@, a.amount_msat as nat, b.amount_msat as nat, e, e);
    lemma_number_field(fa, fb, 3, "paid_at"@, a.paid_at as nat, b.paid_at as nat, e, e);
    lemma_string_field(fa, fb, 4, "method"@, a.method, b.method, e, e);
    let code = |n: Option<Seq<char>>| json_optional_string(n);
    assert forall|p: Option<Seq<char>>, u: Seq<char>, q: Option<Seq<char>>, v: Seq<char>|
        #[trigger] (code(p) + u) == #[trigger] (code(q) + v) implies p == q && u == v by {
        reveal_strlit("null");
        let (l, r) = (code(p) + u, code(q) + v);
        assert(l[0] == code(p)[0] && r[0] == code(q)[0]);
        match (p, q) {
            (Some(s), Some(t)) => {
                lemma_json_string_delimited(s, u, t, v);
            },
            (None, None) => {
                lemma_concat_split("null"@, u, "null"@, v);
            },
            _ => {},
        }
    }
    lemma_coded_field(code, fa, fb, 5, "note"@, a.note, b.note, e, e);
}

/// The JSON of an announcement gives the announcement away.
pub proof fn law_announcement_json_determines(a: AnnouncementView, b: AnnouncementView)
    requires
        announcement_json(a) == announcement_json(b),
    ensures
        a == b,
{
    let e = Seq::<char>::empty();
    let (fa, fb) = (announcement_fields(a), announcement_fields(b));
    lemma_objects_agree(fa, e, fb, e);
    lemma_string_field(fa, fb, 0, "name"@, a.name, b.name, e, e);
    lemma_string_field(fa, fb, 1, "description"@, a.description, b.description, e, e);
    lemma_string_field(fa, fb, 2, "endpoint"@, a.endpoint, b.endpoint, e, e);
    lemma_string_field(fa, fb, 3, "bolt12_offer"@, a.bolt12_offer, b.bolt12_offer, e, e);
    lemma_number_field(
        fa,
        fb,
        4,
        "price_sats_per_mib"@,
        a.price_sats_per_mib as nat,
        b.price_sats_per_mib as nat,
        e,
        e,
    );
    lemma_number_field(
        fa,
        fb,
        5,
        "billing_period_secs"@,
        a.billing_period_secs as nat,
        b.billing_period_secs as nat,
        e,
        e,
    );
    lemma_number_field(
        fa,
        fb,
        6,
        "max_backup_bytes"@,
        a.max_backup_bytes as nat,
        b.max_backup_bytes as nat,
        e,
        e,
    );
    let code = |k: BackupKind| json_string(kind_name(k));
    assert forall|p: BackupKind, u: Seq<char>, q: BackupKind, v: Seq<char>|
        #[trigger] (code(p) + u) == #[trigger] (code(q) + v) implies p == q && u == v by {
        lemma_json_string_delimited(kind_name(p), u, kind_name(q), v);
        lemma_kind_name_injective(p, q);
    }
    let list = |k: Seq<BackupKind>| kinds_json(k);
    assert forall|p: Seq<BackupKind>, u: Seq<char>, q: Seq<BackupKind>, v: Seq<char>|
        #[trigger] (list(p) + u) == #[trigger] (list(q) + v) implies p == q && u == v by {
        lemma_json_list_delimited(code, p, u, q, v);
    }
    lemma_coded_field(list, fa, fb, 7, "kinds"@, a.kinds, b.kinds, e, e);
    lemma_string_field(fa, fb, 8, "pivss_version"@, a.pivss_version, b.pivss_version, e, e);
}

/// The names of the kinds.
pub proof fn law_kind_names(kind: BackupKind)
    ensures
        kind is Lightning ==> kind_name(kind) == "lightning"@,
        kind is Rgb ==> kind_name(kind) == "rgb"@,
        kind is Other ==> kind_name(kind) == "other"@,
{
}

/// The fields of the records in JSON, by their names.
pub proof fn law_record_fields(
    v: VersionView,
    m: ManifestView,
    p: PaymentView,
    a: AnnouncementView,
)
    ensures
        version_json(v) == json_object(
            seq![
                json_field("version"@, decimal(v.version as nat)),
                json_field("size"@, decimal(v.size as nat)),
                json_field("sha256"@, json_string(v.sha256)),
                json_field("created_at"@, decimal(v.created_at as nat)),
                json_field("infohash"@, json_string(v.infohash)),
                json_field("magnet"@, json_string(v.magnet)),
            ],
        ),
        manifest_json(m) == json_object(
            seq![
                json_field("backup_id"@, json_string(m.backup_id)),
                json_field("label"@, json_string(m.label)),
                json_field("filename"@, json_string(m.filename)),
                json_field("kind"@, json_string(kind_name(m.kind))),
                json_field("latest_version"@, decimal(m.latest_version as nat)),
                json_field(
                    "versions"@,
                    json_list(Seq::new(m.versions.len(), |i: int| version_json(m.versions[i]))),
                ),
                json_field("created_at"@, decimal(m.created_at as nat)),
                json_field("updated_at"@, decimal(m.updated_at as nat)),
            ],
        ),
        payment_json(p) == json_object(
            seq![
                json_field("payment_id"@, json_string(p.payment_id)),
                json_field("backup_id"@, json_string(p.backup_id)),
                json_field("amount_msat"@, decimal(p.amount_msat as nat)),
                json_field("paid_at"@, decimal(p.paid_at as nat)),
                json_field("method"@, json_string(p.method)),
                json_field("note"@, json_optional_string(p.note)),
            ],
        ),
        json_optional_string(None) == "null"@,
        p.note matches Some(note) ==> json_optional_string(p.note) == json_string(note),
        announcement_json(a) == json_object(
            seq![
                json_field("name"@, json_string(a.name)),
                json_field("description"@, json_string(a.description)),
                json_field("endpoint"@, json_string(a.endpoint)),
                json_field("bolt12_offer"@, json_string(a.bolt12_offer)),
                json_field("price_sats_per_mib"@, decimal(a.price_sats_per_mib as nat)),
                json_field("billing_period_secs"@, decimal(a.billing_period_secs as nat)),
                json_field("max_backup_bytes"@, decimal(a.max_backup_bytes as nat)),
                json_field(
                    "kinds"@,
                    json_list(Seq::new(a.kinds.len(), |i: int| json_string(kind_name(a.kinds[i])))),
                ),
                json_field("pivss_version"@, json_string(a.pivss_version)),
            ],
        ),
{
    assert(m.versions.map_values(|v: VersionView| version_json(v)) =~= Seq::new(
        m.versions.len(),
        |i: int| version_json(m.versions[i]),
    ));
    assert(a.kinds.map_values(|k: BackupKind| json_string(kind_name(k))) =~= Seq::new(
        a.kinds.len(),
        |i: int| json_string(kind_name(a.kinds[i])),
    ));
}

} // verus!
