//! The versioned store behind the server.
//!
//! A store keeps one value for a key, and a version of it that counts the writes:
//! a write names the version that it replaces, and is refused where another was
//! faster. There are two: [`MemoryStore`], in memory, and [`VssHttpStore`], on a VSS
//! server.
//!
//! As a store keeps no history, every version of a backup has a key of its own.
use vstd::prelude::*;
use vstd::string::*;
use vstd::utf8::*;
use crate::manifest::optional_text;
use crate::nostr::{is_drawn_secret, secret_of_hex, KeyError, KeyErrorView};
use crate::outside::{
    clock_reading, compressed_public_key, drawn_secret_key, ecdsa_public, ecdsa_sign, ecdsa_signature, hex_decode, hex_encode,
    is_secret_key, now_secs, random_secret_key, secret_key_from_slice, sha256, sha256_digest,
};
use crate::proto::{
    code_number, decode_message, decoding, item_fits, law_get_object_request_roundtrip,
    law_list_request_roundtrip, law_put_object_request_roundtrip, optional_item,
    optional_text_fits, proto_error_text, text_fits, ErrorCode, ErrorResponse, GetObjectRequest,
    GetObjectRequestView, GetObjectResponse, KeyValue, KeyValueView,
    ListKeyVersionsRequest, ListKeyVersionsRequestView, ListKeyVersionsResponse,
    ListKeyVersionsResponseView, Message, PutObjectRequest, PutObjectRequestView,
    PutObjectResponse,
};
use crate::text::{
    begins_with, chars_of, copy_bytes, decimal, decimal_int, decimal_int_text, decimal_text,
    lemma_concat_split, lemma_decimal_injective, same_text, starts_with_text, to_hex,
    trim_trailing, without_trailing,
};

verus! {

/// Why a store refused a request.
#[derive(Debug)]
pub enum StoreError {
    /// The version that a write names is not the one of the key.
    Conflict(String),
    /// There is no such key.
    NoSuchKey(String),
    /// The store failed.
    Backend(String),
}

/// A [`StoreError`] in mathematical terms.
pub enum StoreErrorView {
    /// See [`StoreError::Conflict`].
    Conflict(Seq<char>),
    /// See [`StoreError::NoSuchKey`].
    NoSuchKey(Seq<char>),
    /// See [`StoreError::Backend`].
    Backend(Seq<char>),
}

impl View for StoreError {
    type V = StoreErrorView;

    open spec fn view(&self) -> StoreErrorView {
        match self {
            StoreError::Conflict(text) => StoreErrorView::Conflict(text@),
            StoreError::NoSuchKey(text) => StoreErrorView::NoSuchKey(text@),
            StoreError::Backend(text) => StoreErrorView::Backend(text@),
        }
    }
}

/// A [`StoreError`] in words.
pub open spec fn store_error_text(e: StoreErrorView) -> Seq<char> {
    match e {
        StoreErrorView::Conflict(key) => "version conflict on key "@ + key,
        StoreErrorView::NoSuchKey(key) => "no such key: "@ + key,
        StoreErrorView::Backend(text) => "storage backend error: "@ + text,
    }
}

impl StoreError {
    /// The error in words.
    pub fn to_string(&self) -> (s: String)
        ensures
            s@ == store_error_text(self@),
    {
        match self {
            StoreError::Conflict(key) => {
                let mut s = "version conflict on key ".to_owned();
                s.append(key.as_str());
                s
            },
            StoreError::NoSuchKey(key) => {
                let mut s = "no such key: ".to_owned();
                s.append(key.as_str());
                s
            },
            StoreError::Backend(text) => {
                let mut s = "storage backend error: ".to_owned();
                s.append(text.as_str());
                s
            },
        }
    }
}

// ---------------------------------------------------------------------------
// What a store does
// ---------------------------------------------------------------------------

/// What a store holds for a key.
#[verifier::ext_equal]
pub struct Held {
    /// The version.
    pub version: i64,
    /// The value.
    pub value: Seq<u8>,
}

/// What a store holds.
pub type Contents = Map<Seq<char>, Held>;

/// What a read of a key gives.
pub open spec fn looked_up(c: Contents, key: Seq<char>) -> Option<KeyValueView> {
    if c.contains_key(key) {
        Some(KeyValueView { key, version: c[key].version, value: c[key].value })
    } else {
        None
    }
}

/// The version that a key has after a write that names `version`; nothing where
/// the write is refused. A write of version `-1` is never refused, and starts the
/// count again; a first write names version zero.
pub open spec fn next_version(c: Contents, key: Seq<char>, version: i64) -> Option<int> {
    if version == -1 {
        Some(1)
    } else if !c.contains_key(key) {
        if version == 0 {
            Some(1)
        } else {
            None
        }
    } else if c[key].version == version {
        Some(version + 1)
    } else {
        None
    }
}

/// What a store holds after a write.
pub open spec fn written(c: Contents, key: Seq<char>, version: i64, value: Seq<u8>) -> Contents {
    match next_version(c, key, version) {
        Some(v) => c.insert(key, Held { version: v as i64, value }),
        None => c,
    }
}

/// Whether a write does not count past the last number.
pub open spec fn can_count(c: Contents, key: Seq<char>, version: i64) -> bool {
    next_version(c, key, version) != Some(i64::MAX + 1)
}

/// Whether the first text stands before the second, by their characters; the bytes
/// of their encodings are in the same order.
pub open spec fn text_before(a: Seq<char>, b: Seq<char>) -> bool
    decreases a.len(),
{
    if a.len() == 0 {
        b.len() > 0
    } else if b.len() == 0 {
        false
    } else if a[0] == b[0] {
        text_before(a.drop_first(), b.drop_first())
    } else {
        a[0] < b[0]
    }
}

/// Whether the keys of a list are in order, and no key is in it twice.
pub open spec fn ascending(s: Seq<KeyValueView>) -> bool {
    forall|i: int, j: int| 0 <= i < j < s.len() ==> text_before(#[trigger] s[i].key, #[trigger] s[j].key)
}

/// Whether a list is what a store gives for a prefix: the keys that begin with it,
/// in order, each with its version and without its value.
pub open spec fn is_listing(c: Contents, prefix: Seq<char>, s: Seq<KeyValueView>) -> bool {
    &&& ascending(s)
    &&& forall|i: int|
        0 <= i < s.len() ==> {
            &&& begins_with(#[trigger] s[i].key, prefix)
            &&& c.contains_key(s[i].key)
            &&& c[s[i].key].version == s[i].version
            &&& s[i].value.len() == 0
        }
    &&& forall|k: Seq<char>| #[trigger]
        c.contains_key(k) && begins_with(k, prefix) ==> exists|i: int|
            0 <= i < s.len() && #[trigger] s[i].key == k
}

/// The views of a list of values.
pub open spec fn views(v: Seq<KeyValue>) -> Seq<KeyValueView> {
    v.map_values(|x: KeyValue| x@)
}

/// What a read returns, in mathematical terms.
pub open spec fn got_view(res: Result<Option<KeyValue>, StoreError>) -> Result<
    Option<KeyValueView>,
    StoreErrorView,
> {
    match res {
        Ok(kv) => Ok(optional_item(kv)),
        Err(e) => Err(e@),
    }
}

/// What a write returns, in mathematical terms.
pub open spec fn put_view(res: Result<i64, StoreError>) -> Result<i64, StoreErrorView> {
    match res {
        Ok(v) => Ok(v),
        Err(e) => Err(e@),
    }
}

/// What a listing returns, in mathematical terms.
pub open spec fn list_view(res: Result<Vec<KeyValue>, StoreError>) -> Result<
    Seq<KeyValueView>,
    StoreErrorView,
> {
    match res {
        Ok(v) => Ok(views(v@)),
        Err(e) => Err(e@),
    }
}

/// What a write comes to in a store that answers for what it holds.
pub open spec fn exact_put(c: Contents, key: Seq<char>, version: i64) -> Result<
    i64,
    StoreErrorView,
> {
    match next_version(c, key, version) {
        Some(v) => Ok(v as i64),
        None => Err(StoreErrorView::Conflict(key)),
    }
}

/// A versioned store.
pub trait VersionedStore {
    /// Whether a read of a key may come to a result.
    spec fn may_get(
        &self,
        key: Seq<char>,
        res: Result<Option<KeyValueView>, StoreErrorView>,
    ) -> bool;

    /// Whether a write may come to a result, and to a store.
    spec fn may_put(
        &self,
        key: Seq<char>,
        version: i64,
        value: Seq<u8>,
        res: Result<i64, StoreErrorView>,
        after: &Self,
    ) -> bool;

    /// Whether a listing may come to a result.
    spec fn may_list(
        &self,
        prefix: Seq<char>,
        res: Result<Seq<KeyValueView>, StoreErrorView>,
    ) -> bool;

    /// Whether the store answers for what it holds: no call of it fails, and
    /// nothing else writes to it.
    spec fn exact(&self) -> bool;

    /// What the store holds, where it is exact.
    spec fn contents(&self) -> Contents;

    /// The name of the kind of store.
    spec fn backend(&self) -> Seq<char>;

    /// Reads the value and the version of a key.
    fn get(&self, key: &str) -> (res: Result<Option<KeyValue>, StoreError>)
        ensures
            self.may_get(key@, got_view(res)),
            self.exact() ==> got_view(res) == Ok::<Option<KeyValueView>, StoreErrorView>(
                looked_up(self.contents(), key@),
            ),
    ;

    /// Writes a value where `version` is the version of the key: zero for a first
    /// write, `-1` for a write whatever the version is. Returns the new version.
    fn put(&mut self, key: &str, version: i64, value: Vec<u8>) -> (res: Result<i64, StoreError>)
        requires
            version < i64::MAX || (old(self).exact() && can_count(
                old(self).contents(),
                key@,
                version,
            )),
        ensures
            old(self).may_put(key@, version, value@, put_view(res), final(self)),
            old(self).exact() ==> {
                &&& final(self).exact()
                &&& final(self).contents() == written(old(self).contents(), key@, version, value@)
                &&& put_view(res) == exact_put(old(self).contents(), key@, version)
            },
    ;

    /// Lists the keys that begin with a prefix, with their versions.
    fn list(&self, prefix: &str) -> (res: Result<Vec<KeyValue>, StoreError>)
        ensures
            self.may_list(prefix@, list_view(res)),
            self.exact() ==> (list_view(res) matches Ok(v) && is_listing(
                self.contents(),
                prefix@,
                v,
            )),
    ;

    /// The name of the kind of store.
    fn backend_name(&self) -> (name: &'static str)
        ensures
            name@ == self.backend(),
    ;
}

// ---------------------------------------------------------------------------
// The store in memory
// ---------------------------------------------------------------------------

/// A store in memory, for demonstrations and tests.
pub struct MemoryStore {
    entries: Vec<KeyValue>,
}

/// What a list of entries holds.
pub open spec fn held(s: Seq<KeyValueView>) -> Contents {
    Map::new(
        |k: Seq<char>| exists|i: int| 0 <= i < s.len() && #[trigger] s[i].key == k,
        |k: Seq<char>|
            {
                let i = choose|i: int| 0 <= i < s.len() && #[trigger] s[i].key == k;
                Held { version: s[i].version, value: s[i].value }
            },
    )
}

/// No text stands before itself.
pub proof fn lemma_before_irreflexive(a: Seq<char>)
    ensures
        !text_before(a, a),
    decreases a.len(),
{
    if a.len() > 0 {
        lemma_before_irreflexive(a.drop_first());
    }
}

proof fn lemma_before_transitive(a: Seq<char>, b: Seq<char>, c: Seq<char>)
    requires
        text_before(a, b),
        text_before(b, c),
    ensures
        text_before(a, c),
    decreases a.len(),
{
    if a.len() > 0 && a[0] == b[0] && b[0] == c[0] {
        lemma_before_transitive(a.drop_first(), b.drop_first(), c.drop_first());
    }
}

proof fn lemma_before_total(a: Seq<char>, b: Seq<char>)
    ensures
        text_before(a, b) || a == b || text_before(b, a),
    decreases a.len(),
{
    if a.len() == 0 {
        if b.len() == 0 {
            assert(a =~= b);
        }
    } else if b.len() > 0 && a[0] == b[0] {
        lemma_before_total(a.drop_first(), b.drop_first());
        if a.drop_first() == b.drop_first() {
            assert(a =~= seq![a[0]] + a.drop_first());
            assert(b =~= seq![b[0]] + b.drop_first());
        }
    }
}

/// An entry of an ascending list is what the list holds for its key.
proof fn lemma_held(s: Seq<KeyValueView>, i: int)
    requires
        ascending(s),
        0 <= i < s.len(),
    ensures
        held(s).contains_key(s[i].key),
        held(s)[s[i].key] == (Held { version: s[i].version, value: s[i].value }),
{
    let k = s[i].key;
    assert(s[i].key == k);
    let j = choose|j: int| 0 <= j < s.len() && #[trigger] s[j].key == k;
    lemma_before_irreflexive(k);
    if i < j {
        assert(text_before(s[i].key, s[j].key));
    } else if j < i {
        assert(text_before(s[j].key, s[i].key));
    }
}

/// Whether `a` stands before `b`.
pub fn text_less(a: &str, b: &str) -> (r: bool)
    ensures
        r == text_before(a@, b@),
{
    let x = chars_of(a);
    let y = chars_of(b);
    let mut i: usize = 0;
    assert(x@.skip(0) =~= a@);
    assert(y@.skip(0) =~= b@);
    while i < x.len() && i < y.len()
        invariant
            i <= x@.len(),
            i <= y@.len(),
            text_before(x@.skip(i as int), y@.skip(i as int)) == text_before(a@, b@),
        decreases x.len() - i,
    {
        if x[i] != y[i] {
            return x[i] < y[i];
        }
        assert(x@.skip(i as int).drop_first() =~= x@.skip(i + 1));
        assert(y@.skip(i as int).drop_first() =~= y@.skip(i + 1));
        i = i + 1;
    }
    i >= x.len() && i < y.len()
}

impl MemoryStore {
    /// The entries, in the order of their keys.
    spec fn rows(&self) -> Seq<KeyValueView> {
        views(self.entries@)
    }

    /// The place of a key: where it stands, or where it would.
    fn place(&self, key: &str) -> (at: usize)
        ensures
            at <= self.rows().len(),
            forall|i: int| 0 <= i < at ==> text_before(#[trigger] self.rows()[i].key, key@),
            at < self.rows().len() ==> !text_before(self.rows()[at as int].key, key@),
    {
        let mut at: usize = 0;
        while at < self.entries.len()
            invariant
                at <= self.entries@.len(),
                forall|i: int| 0 <= i < at ==> text_before(#[trigger] self.rows()[i].key, key@),
            decreases self.entries.len() - at,
        {
            if !text_less(self.entries[at].key.as_str(), key) {
                return at;
            }
            at = at + 1;
        }
        at
    }

    /// Where the key does not stand at its place, it stands nowhere.
    proof fn lemma_absent(&self, key: Seq<char>, at: int)
        requires
            ascending(self.rows()),
            0 <= at <= self.rows().len(),
            forall|i: int| 0 <= i < at ==> text_before(#[trigger] self.rows()[i].key, key),
            at < self.rows().len() ==> !text_before(self.rows()[at].key, key)
                && self.rows()[at].key != key,
        ensures
            !held(self.rows()).contains_key(key),
            forall|i: int|
                at <= i < self.rows().len() ==> text_before(key, #[trigger] self.rows()[i].key),
    {
        let rows = self.rows();
        assert forall|i: int| at <= i < rows.len() implies text_before(
            key,
            #[trigger] rows[i].key,
        ) by {
            lemma_before_total(rows[at].key, key);
            if at < i {
                assert(text_before(rows[at].key, rows[i].key));
                lemma_before_transitive(key, rows[at].key, rows[i].key);
            }
        }
        assert forall|i: int| 0 <= i < rows.len() implies #[trigger] rows[i].key != key by {
            lemma_before_irreflexive(key);
        }
    }
}

impl Default for MemoryStore {
    fn default() -> (s: MemoryStore)
        ensures
            s.exact(),
            s.contents() == Map::<Seq<char>, Held>::empty(),
    {
        let s = MemoryStore { entries: Vec::new() };
        assert(s.contents() =~= Map::<Seq<char>, Held>::empty());
        s
    }
}

impl VersionedStore for MemoryStore {
    open spec fn may_get(
        &self,
        key: Seq<char>,
        res: Result<Option<KeyValueView>, StoreErrorView>,
    ) -> bool {
        self.exact() ==> res == Ok::<Option<KeyValueView>, StoreErrorView>(
            looked_up(self.contents(), key),
        )
    }

    open spec fn may_put(
        &self,
        key: Seq<char>,
        version: i64,
        value: Seq<u8>,
        res: Result<i64, StoreErrorView>,
        after: &Self,
    ) -> bool {
        self.exact() ==> {
            &&& after.exact()
            &&& after.contents() == written(self.contents(), key, version, value)
            &&& res == exact_put(self.contents(), key, version)
        }
    }

    open spec fn may_list(
        &self,
        prefix: Seq<char>,
        res: Result<Seq<KeyValueView>, StoreErrorView>,
    ) -> bool {
        self.exact() ==> (res matches Ok(v) && is_listing(self.contents(), prefix, v))
    }

    closed spec fn exact(&self) -> bool {
        ascending(self.rows())
    }

    open spec fn backend(&self) -> Seq<char> {
        "memory"@
    }

    closed spec fn contents(&self) -> Contents {
        held(self.rows())
    }

    fn get(&self, key: &str) -> (res: Result<Option<KeyValue>, StoreError>) {
        let at: usize = self.place(key);
        if at < self.entries.len() && same_text(self.entries[at].key.as_str(), key) {
            proof {
                if self.exact() {
                    lemma_held(self.rows(), at as int);
                }
            }
            return Ok(Some(self.entries[at].clone()));
        }
        proof {
            if self.exact() {
                self.lemma_absent(key@, at as int);
            }
        }
        Ok(None)
    }

    fn put(&mut self, key: &str, version: i64, value: Vec<u8>) -> (res: Result<i64, StoreError>) {
        let at: usize = self.place(key);
        let ghost rows = self.rows();
        if at < self.entries.len() && same_text(self.entries[at].key.as_str(), key) {
            proof {
                if self.exact() {
                    lemma_held(rows, at as int);
                }
            }
            let current: i64 = self.entries[at].version;
            let new_version: i64 = if version == -1 {
                1
            } else if version == current {
                current + 1
            } else {
                return Err(StoreError::Conflict(key.to_owned()));
            };
            let kv = KeyValue { key: key.to_owned(), version: new_version, value };
            self.entries.set(at, kv);
            proof {
                assert(self.rows() =~= rows.update(at as int, kv@));
                if old(self).exact() {
                    lemma_replaced(rows, at as int, kv@);
                }
            }
            return Ok(new_version);
        }
        proof {
            if self.exact() {
                self.lemma_absent(key@, at as int);
            }
        }
        if version != -1 && version != 0 {
            return Err(StoreError::Conflict(key.to_owned()));
        }
        let kv = KeyValue { key: key.to_owned(), version: 1, value };
        self.entries.insert(at, kv);
        proof {
            assert(self.rows() =~= rows.insert(at as int, kv@));
            if old(self).exact() {
                lemma_inserted(rows, at as int, kv@);
            }
        }
        Ok(1)
    }

    fn list(&self, prefix: &str) -> (res: Result<Vec<KeyValue>, StoreError>) {
        let mut out: Vec<KeyValue> = Vec::new();
        let ghost mut from: Seq<int> = Seq::empty();
        let mut i: usize = 0;
        while i < self.entries.len()
            invariant
                i <= self.entries@.len(),
                from.len() == out@.len(),
                forall|j: int|
                    0 <= j < out@.len() ==> {
                        &&& 0 <= #[trigger] from[j] < i
                        &&& out@[j]@.key == self.rows()[from[j]].key
                        &&& out@[j]@.version == self.rows()[from[j]].version
                        &&& out@[j]@.value.len() == 0
                        &&& begins_with(out@[j]@.key, prefix@)
                    },
                forall|j: int, k: int| 0 <= j < k < from.len() ==> from[j] < from[k],
                forall|k: int|
                    0 <= k < i && begins_with(#[trigger] self.rows()[k].key, prefix@)
                        ==> from.contains(k),
            decreases self.entries.len() - i,
        {
            if starts_with_text(self.entries[i].key.as_str(), prefix) {
                let ghost before = from;
                out.push(
                    KeyValue {
                        key: self.entries[i].key.clone(),
                        version: self.entries[i].version,
                        value: Vec::new(),
                    },
                );
                proof {
                    from = from.push(i as int);
                    assert(from[before.len() as int] == i);
                    assert forall|k: int|
                        0 <= k <= i && begins_with(
                            #[trigger] self.rows()[k].key,
                            prefix@,
                        ) implies from.contains(k) by {
                        if k < i {
                            let j = choose|j: int| 0 <= j < before.len() && before[j] == k;
                            assert(from[j] == k);
                        }
                    }
                }
            }
            i = i + 1;
        }
        proof {
            if self.exact() {
                let rows = self.rows();
                let s = views(out@);
                assert forall|a: int, b: int| 0 <= a < b < s.len() implies text_before(
                    #[trigger] s[a].key,
                    #[trigger] s[b].key,
                ) by {
                    assert(from[a] < from[b]);
                    assert(text_before(rows[from[a]].key, rows[from[b]].key));
                }
                assert forall|a: int| 0 <= a < s.len() implies {
                    &&& begins_with(#[trigger] s[a].key, prefix@)
                    &&& held(rows).contains_key(s[a].key)
                    &&& held(rows)[s[a].key].version == s[a].version
                    &&& s[a].value.len() == 0
                } by {
                    assert(0 <= from[a] < i);
                    lemma_held(rows, from[a]);
                }
                assert forall|k: Seq<char>| #[trigger]
                    held(rows).contains_key(k) && begins_with(k, prefix@) implies exists|a: int|
                    0 <= a < s.len() && #[trigger] s[a].key == k by {
                    let r = choose|r: int| 0 <= r < rows.len() && #[trigger] rows[r].key == k;
                    assert(begins_with(rows[r].key, prefix@));
                    let a = choose|a: int| 0 <= a < from.len() && from[a] == r;
                    assert(s[a].key == k);
                }
            }
        }
        Ok(out)
    }

    fn backend_name(&self) -> (name: &'static str) {
        "memory"
    }
}

/// Replacing an entry replaces what is held for its key.
proof fn lemma_replaced(s: Seq<KeyValueView>, at: int, kv: KeyValueView)
    requires
        ascending(s),
        0 <= at < s.len(),
        s[at].key == kv.key,
    ensures
        ascending(s.update(at, kv)),
        held(s.update(at, kv)) == held(s).insert(
            kv.key,
            Held { version: kv.version, value: kv.value },
        ),
{
    let t = s.update(at, kv);
    assert forall|i: int, j: int| 0 <= i < j < t.len() implies text_before(
        #[trigger] t[i].key,
        #[trigger] t[j].key,
    ) by {
        assert(text_before(s[i].key, s[j].key));
    }
    lemma_same_held(t, held(s).insert(kv.key, Held { version: kv.version, value: kv.value }), s, at);
}

/// A list that differs from another at one place only holds what the other does,
/// but for that key.
proof fn lemma_same_held(t: Seq<KeyValueView>, c: Contents, s: Seq<KeyValueView>, at: int)
    requires
        ascending(t),
        ascending(s),
        0 <= at < s.len(),
        t == s.update(at, t[at]),
        s[at].key == t[at].key,
        c == held(s).insert(t[at].key, Held { version: t[at].version, value: t[at].value }),
    ensures
        held(t) == c,
{
    assert forall|k: Seq<char>| #[trigger] held(t).contains_key(k) <==> c.contains_key(k) by {
        if held(t).contains_key(k) {
            let i = choose|i: int| 0 <= i < t.len() && #[trigger] t[i].key == k;
            assert(s[i].key == k);
        }
        if held(s).contains_key(k) {
            let i = choose|i: int| 0 <= i < s.len() && #[trigger] s[i].key == k;
            assert(t[i].key == k);
        }
        assert(t[at].key == s[at].key);
    }
    assert forall|k: Seq<char>| held(t).contains_key(k) implies #[trigger] held(t)[k] == c[k] by {
        let i = choose|i: int| 0 <= i < t.len() && #[trigger] t[i].key == k;
        lemma_held(t, i);
        lemma_held(s, i);
        lemma_held(t, at);
    }
    assert(held(t) =~= c);
}

/// Inserting an entry at its place adds what is held for its key.
proof fn lemma_inserted(s: Seq<KeyValueView>, at: int, kv: KeyValueView)
    requires
        ascending(s),
        0 <= at <= s.len(),
        forall|i: int| 0 <= i < at ==> text_before(#[trigger] s[i].key, kv.key),
        forall|i: int| at <= i < s.len() ==> text_before(kv.key, #[trigger] s[i].key),
    ensures
        ascending(s.insert(at, kv)),
        held(s.insert(at, kv)) == held(s).insert(
            kv.key,
            Held { version: kv.version, value: kv.value },
        ),
{
    let t = s.insert(at, kv);
    let c = held(s).insert(kv.key, Held { version: kv.version, value: kv.value });
    assert forall|i: int, j: int| 0 <= i < j < t.len() implies text_before(
        #[trigger] t[i].key,
        #[trigger] t[j].key,
    ) by {
        let a = if i < at {
            i
        } else {
            i - 1
        };
        let b = if j < at {
            j
        } else {
            j - 1
        };
        if i != at && j != at {
            assert(text_before(s[a].key, s[b].key));
        } else if i == at {
            assert(t[j] == s[b]);
        } else {
            assert(t[i] == s[a]);
        }
    }
    assert forall|k: Seq<char>| #[trigger] held(t).contains_key(k) <==> c.contains_key(k) by {
        if held(t).contains_key(k) {
            let i = choose|i: int| 0 <= i < t.len() && #[trigger] t[i].key == k;
            if i < at {
                assert(s[i].key == k);
            } else if i > at {
                assert(s[i - 1].key == k);
            }
        }
        if held(s).contains_key(k) {
            let i = choose|i: int| 0 <= i < s.len() && #[trigger] s[i].key == k;
            if i < at {
                assert(t[i].key == k);
            } else {
                assert(t[i + 1].key == k);
            }
        }
        assert(t[at].key == kv.key);
    }
    assert forall|k: Seq<char>| held(t).contains_key(k) implies #[trigger] held(t)[k] == c[k] by {
        let i = choose|i: int| 0 <= i < t.len() && #[trigger] t[i].key == k;
        lemma_held(t, i);
        if i < at {
            lemma_held(s, i);
            lemma_before_irreflexive(kv.key);
        } else if i > at {
            lemma_held(s, i - 1);
            lemma_before_irreflexive(kv.key);
            assert(text_before(kv.key, s[i - 1].key));
        }
    }
    assert(held(t) =~= c);
}

/// A write that is not refused is what the next read of its key gives, and leaves
/// every other key as it is.
pub proof fn law_read_after_write(
    c: Contents,
    key: Seq<char>,
    version: i64,
    value: Seq<u8>,
    other: Seq<char>,
)
    requires
        next_version(c, key, version) is Some,
        can_count(c, key, version),
    ensures
        looked_up(written(c, key, version, value), key) == Some(
            KeyValueView { key, version: next_version(c, key, version)->0 as i64, value },
        ),
        other != key ==> looked_up(written(c, key, version, value), other) == looked_up(c, other),
{
}

/// A version can be written once only: of two writes that name the same version,
/// the second is refused, and what the first wrote stays. A write of version `-1`
/// names no version.
pub proof fn law_stale_write_refused(
    c: Contents,
    key: Seq<char>,
    version: i64,
    first: Seq<u8>,
    second: Seq<u8>,
)
    requires
        version != -1,
        next_version(c, key, version) is Some,
        can_count(c, key, version),
    ensures
        next_version(written(c, key, version, first), key, version) is None,
        written(written(c, key, version, first), key, version, second) == written(
            c,
            key,
            version,
            first,
        ),
{
}

// ---------------------------------------------------------------------------
// A VSS server
// ---------------------------------------------------------------------------

/// What is signed, before the public key and the time, to prove to a VSS server
/// that the client knows its private key.
pub const VSS_SIGNING_CONSTANT: &'static str =
    "VSS Signature Authorizer Signing Salt Constant..................";

/// The key that signs the requests to a VSS server. Its view is the secret key.
pub struct SigningKey {
    secret: [u8; 32],
}

impl View for SigningKey {
    type V = Seq<u8>;

    closed spec fn view(&self) -> Seq<u8> {
        self.secret@
    }
}

impl SigningKey {
    #[verifier::type_invariant]
    spec fn well_formed(self) -> bool {
        is_secret_key(self.secret@)
    }

    /// A random key.
    pub fn generate() -> (key: SigningKey)
        ensures
            is_secret_key(key@),
            is_drawn_secret(key@),
    {
        let secret: [u8; 32] = random_secret_key();
        assert(drawn_secret_key(secret));
        SigningKey { secret }
    }

    /// The key of a secret key in hexadecimal.
    pub fn from_secret_hex(hex_sk: &str) -> (res: Result<SigningKey, KeyError>)
        ensures
            match res {
                Ok(key) => secret_of_hex(hex_sk@) == Ok::<Seq<u8>, KeyErrorView>(key@),
                Err(e) => secret_of_hex(hex_sk@) == Err::<Seq<u8>, KeyErrorView>(e@),
            },
    {
        match hex_decode(hex_sk) {
            Ok(bytes) => match secret_key_from_slice(&bytes) {
                Ok(secret) => Ok(SigningKey { secret }),
                Err(_) => Err(KeyError::NotASecretKey),
            },
            Err(e) => Err(KeyError::NotHex(e)),
        }
    }

    /// The secret key in hexadecimal.
    pub fn secret_hex(&self) -> (s: String)
        ensures
            s@ == to_hex(self@),
    {
        hex_encode(&self.secret)
    }
}

/// The digest that proves to a VSS server, at a time, that the client knows its
/// private key.
pub open spec fn auth_digest(secret: Seq<u8>, secs: u64) -> [u8; 32] {
    sha256(
        encode_utf8(VSS_SIGNING_CONSTANT@) + ecdsa_public(secret)@ + encode_utf8(
            decimal(secs as nat),
        ),
    )
}

/// The value of the `Authorization` header at a time: the public key and the
/// signature in hexadecimal, and the time in decimal.
pub open spec fn auth_header(secret: Seq<u8>, secs: u64) -> Seq<char> {
    to_hex(ecdsa_public(secret)@) + to_hex(
        ecdsa_signature(secret, auth_digest(secret, secs)@)@,
    ) + decimal(secs as nat)
}

/// The value of the `Authorization` header at a time.
pub fn vss_auth_header_at(signing_key: &SigningKey, secs: u64) -> (s: String)
    ensures
        s@ == auth_header(signing_key@, secs),
{
    proof {
        use_type_invariant(signing_key);
    }
    let pubkey = compressed_public_key(&signing_key.secret);
    let time = decimal_text(secs);
    let mut signed: Vec<u8> = copy_bytes(VSS_SIGNING_CONSTANT.as_bytes());
    signed.extend_from_slice(&pubkey);
    signed.extend_from_slice(time.as_str().as_bytes());
    assert(signed@ =~= encode_utf8(VSS_SIGNING_CONSTANT@) + pubkey@ + encode_utf8(time@));
    let digest = sha256_digest(&signed);
    let sig = ecdsa_sign(&signing_key.secret, &digest);
    let mut s = hex_encode(&pubkey);
    s.append(hex_encode(&sig).as_str());
    s.append(time.as_str());
    s
}

/// The value of the `Authorization` header now.
pub fn vss_auth_header(signing_key: &SigningKey) -> (s: String)
    ensures
        exists|secs: u64|
            clock_reading(secs) && s@ == #[trigger] auth_header(signing_key@, secs),
{
    vss_auth_header_at(signing_key, now_secs())
}

/// A request to a VSS server: a POST of bytes.
pub struct VssRequest {
    /// Where it goes.
    pub url: String,
    /// The value of the `Content-Type` header.
    pub content_type: &'static str,
    /// The value of the `Authorization` header.
    pub authorization: String,
    /// The bytes.
    pub body: Vec<u8>,
}

/// Whether a request is the one for an endpoint and bytes, at a time that was read from the
/// clock.
pub open spec fn is_request(
    req: VssRequest,
    base_url: Seq<char>,
    secret: Seq<u8>,
    endpoint: Seq<char>,
    body: Seq<u8>,
) -> bool {
    &&& req.url@ == base_url + "/"@ + endpoint
    &&& req.content_type@ == "application/octet-stream"@
    &&& req.body@ == body
    &&& exists|secs: u64|
        clock_reading(secs) && req.authorization@ == #[trigger] auth_header(secret, secs)
}

/// The reply of a VSS server.
pub struct VssReply {
    /// The number of the status.
    pub status: u16,
    /// The status as it is shown.
    pub status_text: String,
    /// The bytes.
    pub body: Vec<u8>,
}

/// Whether a reply says that the request succeeded.
pub open spec fn succeeded(status: u16) -> bool {
    200 <= status <= 299
}

/// What a reply says that is no success.
pub open spec fn failure(reply: VssReply) -> StoreErrorView {
    match decoding::<ErrorResponse>(reply.body@) {
        Ok(err) => if err.error_code == code_number(ErrorCode::ConflictException) {
            StoreErrorView::Conflict(err.message)
        } else if err.error_code == code_number(ErrorCode::NoSuchKeyException) {
            StoreErrorView::NoSuchKey(err.message)
        } else {
            StoreErrorView::Backend(
                "vss error "@ + decimal_int(err.error_code as int) + ": "@ + err.message,
            )
        },
        Err(_) => StoreErrorView::Backend("vss http "@ + reply.status_text@),
    }
}

/// What a reply says.
pub open spec fn answer<M: Message>(reply: VssReply) -> Result<M::V, StoreErrorView> {
    if succeeded(reply.status) {
        match decoding::<M>(reply.body@) {
            Ok(m) => Ok(m),
            Err(e) => Err(StoreErrorView::Backend(proto_error_text(e))),
        }
    } else {
        Err(failure(reply))
    }
}

/// Reads a reply.
pub fn read_reply<M: Message>(reply: &VssReply) -> (res: Result<M, StoreError>)
    ensures
        match res {
            Ok(m) => answer::<M>(*reply) == Ok::<M::V, StoreErrorView>(m@),
            Err(e) => answer::<M>(*reply) == Err::<M::V, StoreErrorView>(e@),
        },
{
    if 200 <= reply.status && reply.status <= 299 {
        return match decode_message::<M>(&reply.body) {
            Ok(m) => Ok(m),
            Err(e) => Err(StoreError::Backend(e.to_string())),
        };
    }
    match ErrorResponse::decode(&reply.body) {
        Ok(err) => {
            if err.error_code == ErrorCode::ConflictException.number() {
                Err(StoreError::Conflict(err.message))
            } else if err.error_code == ErrorCode::NoSuchKeyException.number() {
                Err(StoreError::NoSuchKey(err.message))
            } else {
                let mut text = "vss error ".to_owned();
                text.append(decimal_int_text(err.error_code as i64).as_str());
                text.append(": ");
                text.append(err.message.as_str());
                Err(StoreError::Backend(text))
            }
        },
        Err(_) => {
            let mut text = "vss http ".to_owned();
            text.append(reply.status_text.as_str());
            Err(StoreError::Backend(text))
        },
    }
}

/// What a read comes to: a key that the server does not know is no error.
pub open spec fn read_outcome(reply: VssReply) -> Result<Option<KeyValueView>, StoreErrorView> {
    match answer::<GetObjectResponse>(reply) {
        Ok(m) => Ok(m.value),
        Err(StoreErrorView::NoSuchKey(_)) => Ok(None),
        Err(e) => Err(e),
    }
}

/// What a write of a version comes to: the server counts on from it.
pub open spec fn write_outcome(version: i64, reply: VssReply) -> Result<i64, StoreErrorView> {
    match answer::<PutObjectResponse>(reply) {
        Ok(_) => Ok(
            if version == -1 {
                1
            } else {
                (version + 1) as i64
            },
        ),
        Err(e) => Err(e),
    }
}

/// The most keys that one answer may list.
pub const PAGE_SIZE: i32 = 500;

/// A listing under way.
pub struct Listing {
    /// What was listed so far.
    pub listed: Vec<KeyValue>,
    /// Where the next request goes on from.
    pub page_token: Option<String>,
    /// Whether there is nothing more to ask for.
    pub done: bool,
}

/// The token to go on from, where an answer has one.
pub open spec fn token_in(m: ListKeyVersionsResponseView) -> Option<Seq<char>> {
    match m.next_page_token {
        Some(t) => if t.len() > 0 {
            Some(t)
        } else {
            None
        },
        None => None,
    }
}

/// The page of a listing in a reply.
pub open spec fn page(reply: VssReply) -> ListKeyVersionsResponseView {
    answer::<ListKeyVersionsResponse>(reply)->Ok_0
}

/// The token that the request after pages goes on from.
pub open spec fn token_of(replies: Seq<VssReply>) -> Option<Seq<char>> {
    if replies.len() == 0 {
        None
    } else {
        token_in(page(replies.last()))
    }
}

/// Whether a listing goes on after its pages.
pub open spec fn goes_on(replies: Seq<VssReply>) -> bool {
    replies.len() == 0 || token_in(page(replies.last())) is Some
}

/// What pages list, one after the other.
pub open spec fn listed_in(replies: Seq<VssReply>) -> Seq<KeyValueView>
    decreases replies.len(),
{
    if replies.len() == 0 {
        Seq::empty()
    } else {
        listed_in(replies.drop_last()) + page(replies.last()).key_versions
    }
}

/// A store on a VSS server. It makes the requests and reads the replies; `send`
/// carries a request to the server and brings its reply, or says why it could not.
pub struct VssHttpStore<F: Fn(&VssRequest) -> Result<VssReply, String>> {
    base_url: String,
    store_id: String,
    signing_key: SigningKey,
    send: F,
}

impl<F: Fn(&VssRequest) -> Result<VssReply, String>> VssHttpStore<F> {
    #[verifier::type_invariant]
    spec fn well_formed(self) -> bool {
        forall|req: &VssRequest| #[trigger] self.send.requires((req,))
    }

    /// The address of the server, without a slash at its end.
    pub closed spec fn base(&self) -> Seq<char> {
        self.base_url@
    }

    /// The name of the store.
    pub closed spec fn store(&self) -> Seq<char> {
        self.store_id@
    }

    /// The secret key.
    pub closed spec fn secret(&self) -> Seq<u8> {
        self.signing_key@
    }

    /// What carries the requests.
    pub closed spec fn carrier(&self) -> F {
        self.send
    }

    /// Whether `sent` may come of a request of bytes to an endpoint.
    #[verifier::opaque]
    pub open spec fn may_bring(
        &self,
        endpoint: Seq<char>,
        body: Seq<u8>,
        sent: Result<VssReply, String>,
    ) -> bool {
        exists|req: VssRequest|
            {
                &&& is_request(req, self.base(), self.secret(), endpoint, body)
                &&& #[trigger] self.carrier().ensures((&req,), sent)
            }
    }

    /// The bytes of the request for a key.
    pub open spec fn get_body(&self, key: Seq<char>) -> Seq<u8> {
        GetObjectRequest::encoding(GetObjectRequestView { store_id: self.store(), key })
    }

    /// The bytes of the request for a write.
    pub open spec fn put_body(&self, key: Seq<char>, version: i64, value: Seq<u8>) -> Seq<u8> {
        PutObjectRequest::encoding(
            PutObjectRequestView {
                store_id: self.store(),
                global_version: None,
                transaction_items: seq![KeyValueView { key, version, value }],
                delete_items: Seq::empty(),
            },
        )
    }

    /// The bytes of the request for a page of a listing.
    pub open spec fn list_body(&self, prefix: Seq<char>, token: Option<Seq<char>>) -> Seq<u8> {
        ListKeyVersionsRequest::encoding(
            ListKeyVersionsRequestView {
                store_id: self.store(),
                key_prefix: Some(prefix),
                page_size: Some(PAGE_SIZE),
                page_token: token,
            },
        )
    }

    /// Whether a reply may be the next page of a listing, after others.
    pub open spec fn may_follow(
        &self,
        prefix: Seq<char>,
        replies: Seq<VssReply>,
        reply: VssReply,
    ) -> bool {
        &&& goes_on(replies)
        &&& self.may_bring("listKeyVersions"@, self.list_body(prefix, token_of(replies)), Ok(reply))
        &&& answer::<ListKeyVersionsResponse>(reply) is Ok
    }

    /// Whether replies may be the pages of a listing: each is asked for with the
    /// token of the one before it, and only the last may be without one.
    pub open spec fn may_page(&self, prefix: Seq<char>, replies: Seq<VssReply>) -> bool
        decreases replies.len(),
    {
        replies.len() > 0 ==> {
            &&& self.may_page(prefix, replies.drop_last())
            &&& self.may_follow(prefix, replies.drop_last(), replies.last())
        }
    }

    /// A store on the server at an address.
    pub fn new(base_url: &str, store_id: &str, signing_key: SigningKey, send: F) -> (s:
        VssHttpStore<F>)
        requires
            forall|req: &VssRequest| #[trigger] send.requires((req,)),
        ensures
            s.base() == without_trailing(base_url@, '/'),
            s.store() == store_id@,
            s.secret() == signing_key@,
            s.carrier() == send,
    {
        VssHttpStore {
            base_url: trim_trailing(base_url, '/'),
            store_id: store_id.to_owned(),
            signing_key,
            send,
        }
    }

    /// The request of bytes to an endpoint.
    fn request(&self, endpoint: &str, body: Vec<u8>) -> (req: VssRequest)
        ensures
            is_request(req, self.base(), self.secret(), endpoint@, body@),
    {
        let mut url = self.base_url.clone();
        url.append("/");
        url.append(endpoint);
        VssRequest {
            url,
            content_type: "application/octet-stream",
            authorization: vss_auth_header(&self.signing_key),
            body,
        }
    }

    /// Carries a request of bytes to an endpoint.
    fn call(&self, endpoint: &str, body: Vec<u8>) -> (sent: Result<VssReply, String>)
        ensures
            self.may_bring(endpoint@, body@, sent),
    {
        proof {
            use_type_invariant(self);
        }
        let req = self.request(endpoint, body);
        let send = &self.send;
        let sent = send(&req);
        proof {
            reveal(VssHttpStore::may_bring);
            assert(self.carrier().ensures((&req,), sent));
        }
        sent
    }

    /// What a read comes to.
    pub fn get_reply(&self, reply: &VssReply) -> (res: Result<Option<KeyValue>, StoreError>)
        ensures
            got_view(res) == read_outcome(*reply),
    {
        match read_reply::<GetObjectResponse>(reply) {
            Ok(m) => Ok(m.value),
            Err(StoreError::NoSuchKey(_)) => Ok(None),
            Err(e) => Err(e),
        }
    }

    /// What a write of a version comes to.
    pub fn put_reply(&self, version: i64, reply: &VssReply) -> (res: Result<i64, StoreError>)
        requires
            version < i64::MAX,
        ensures
            put_view(res) == write_outcome(version, *reply),
    {
        match read_reply::<PutObjectResponse>(reply) {
            Ok(_) => Ok(
                if version == -1 {
                    1
                } else {
                    version + 1
                },
            ),
            Err(e) => Err(e),
        }
    }

    /// Takes a reply into a listing: what it lists is added, and the listing is
    /// done where the reply has no token to go on from.
    pub fn list_reply(&self, listing: Listing, reply: &VssReply) -> (res: Result<
        Listing,
        StoreError,
    >)
        ensures
            match (res, answer::<ListKeyVersionsResponse>(*reply)) {
                (Ok(l), Ok(m)) => {
                    &&& views(l.listed@) == views(listing.listed@) + m.key_versions
                    &&& l.done == (token_in(m) is None)
                    &&& optional_text(l.page_token) == token_in(m)
                },
                (Err(e), Err(f)) => e@ == f,
                _ => false,
            },
    {
        match read_reply::<ListKeyVersionsResponse>(reply) {
            Ok(m) => {
                let mut listed = listing.listed;
                let mut more = m.key_versions;
                let ghost added = views(more@);
                let ghost before = views(listed@);
                listed.append(&mut more);
                assert(views(listed@) =~= before + added);
                match m.next_page_token {
                    Some(t) => if same_text(t.as_str(), "") {
                        proof {
                            reveal_strlit("");
                        }
                        Ok(Listing { listed, page_token: None, done: true })
                    } else {
                        proof {
                            reveal_strlit("");
                            if t@.len() == 0 {
                                assert(t@ =~= ""@);
                            }
                        }
                        Ok(Listing { listed, page_token: Some(t), done: false })
                    },
                    None => Ok(Listing { listed, page_token: None, done: true }),
                }
            },
            Err(e) => Err(e),
        }
    }
}

impl<F: Fn(&VssRequest) -> Result<VssReply, String>> VersionedStore for VssHttpStore<F> {
    /// The server is asked, and its answer is read.
    open spec fn may_get(
        &self,
        key: Seq<char>,
        res: Result<Option<KeyValueView>, StoreErrorView>,
    ) -> bool {
        exists|sent: Result<VssReply, String>|
            {
                &&& #[trigger] self.may_bring("getObject"@, self.get_body(key), sent)
                &&& res == (match sent {
                    Ok(reply) => read_outcome(reply),
                    Err(text) => Err(StoreErrorView::Backend(text@)),
                })
            }
    }

    open spec fn may_put(
        &self,
        key: Seq<char>,
        version: i64,
        value: Seq<u8>,
        res: Result<i64, StoreErrorView>,
        after: &Self,
    ) -> bool {
        &&& *after == *self
        &&& exists|sent: Result<VssReply, String>|
            {
                &&& #[trigger] self.may_bring(
                    "putObjects"@,
                    self.put_body(key, version, value),
                    sent,
                )
                &&& res == (match sent {
                    Ok(reply) => write_outcome(version, reply),
                    Err(text) => Err(StoreErrorView::Backend(text@)),
                })
            }
    }

    /// Page after page, until one is the last. A listing of more pages than can be
    /// counted is given up.
    open spec fn may_list(
        &self,
        prefix: Seq<char>,
        res: Result<Seq<KeyValueView>, StoreErrorView>,
    ) -> bool {
        exists|replies: Seq<VssReply>|
            {
                &&& #[trigger] self.may_page(prefix, replies)
                &&& match res {
                    Ok(v) => !goes_on(replies) && v == listed_in(replies),
                    Err(e) => goes_on(replies) && (self.fails_after(prefix, replies, e) || (
                    replies.len() == u64::MAX && e == StoreErrorView::Backend(
                        "the listing does not end"@,
                    ))),
                }
            }
    }

    /// Another client may write to the server, and the server may fail.
    open spec fn exact(&self) -> bool {
        false
    }

    open spec fn backend(&self) -> Seq<char> {
        "vss"@
    }

    open spec fn contents(&self) -> Contents {
        Map::empty()
    }

    fn get(&self, key: &str) -> (res: Result<Option<KeyValue>, StoreError>) {
        let message = GetObjectRequest { store_id: self.store_id.clone(), key: key.to_owned() };
        let sent = self.call("getObject", message.encode_to_vec());
        assert(self.may_bring("getObject"@, self.get_body(key@), sent));
        match sent {
            Ok(reply) => self.get_reply(&reply),
            Err(text) => Err(StoreError::Backend(text)),
        }
    }

    fn put(&mut self, key: &str, version: i64, value: Vec<u8>) -> (res: Result<i64, StoreError>) {
        let item = KeyValue { key: key.to_owned(), version, value };
        let mut transaction_items: Vec<KeyValue> = Vec::new();
        transaction_items.push(item);
        let message = PutObjectRequest {
            store_id: self.store_id.clone(),
            global_version: None,
            transaction_items,
            delete_items: Vec::new(),
        };
        assert(message@.transaction_items =~= seq![
            KeyValueView { key: key@, version, value: value@ },
        ]);
        assert(message@.delete_items =~= Seq::<KeyValueView>::empty());
        let sent = self.call("putObjects", message.encode_to_vec());
        assert(self.may_bring("putObjects"@, self.put_body(key@, version, value@), sent));
        match sent {
            Ok(reply) => self.put_reply(version, &reply),
            Err(text) => Err(StoreError::Backend(text)),
        }
    }

    fn list(&self, prefix: &str) -> (res: Result<Vec<KeyValue>, StoreError>) {
        let mut listing = Listing { listed: Vec::new(), page_token: None, done: false };
        let ghost mut replies: Seq<VssReply> = Seq::empty();
        let mut left: u64 = u64::MAX;
        assert(views(listing.listed@) =~= listed_in(replies));
        while left > 0
            invariant
                self.may_page(prefix@, replies),
                goes_on(replies),
                views(listing.listed@) == listed_in(replies),
                optional_text(listing.page_token) == token_of(replies),
                replies.len() + left == u64::MAX,
            decreases left,
        {
            let page_token: Option<String> = match &listing.page_token {
                Some(t) => Some(t.clone()),
                None => None,
            };
            let message = ListKeyVersionsRequest {
                store_id: self.store_id.clone(),
                key_prefix: Some(prefix.to_owned()),
                page_size: Some(PAGE_SIZE),
                page_token,
            };
            let ghost token = token_of(replies);
            match self.call("listKeyVersions", message.encode_to_vec()) {
                Ok(reply) => {
                    let ghost before = replies;
                    assert(self.may_bring(
                        "listKeyVersions"@,
                        self.list_body(prefix@, token),
                        Ok(reply),
                    ));
                    match self.list_reply(listing, &reply) {
                        Ok(next) => {
                            proof {
                                replies = before.push(reply);
                                assert(replies.drop_last() =~= before);
                                assert(replies.last() == reply);
                                assert(self.may_page(prefix@, replies));
                                assert(views(next.listed@) =~= listed_in(replies));
                            }
                            if next.done {
                                return Ok(next.listed);
                            }
                            listing = next;
                        },
                        Err(e) => {
                            assert(self.fails_after(prefix@, before, e@));
                            return Err(e);
                        },
                    }
                },
                Err(text) => {
                    let ghost sent: Result<VssReply, String> = Err(text);
                    assert(self.may_bring(
                        "listKeyVersions"@,
                        self.list_body(prefix@, token),
                        sent,
                    ));
                    assert(self.fails_after(prefix@, replies, StoreErrorView::Backend(text@)));
                    return Err(StoreError::Backend(text));
                },
            }
            left = left - 1;
        }
        Err(StoreError::Backend("the listing does not end".to_owned()))
    }

    fn backend_name(&self) -> (name: &'static str) {
        "vss"
    }
}

impl<F: Fn(&VssRequest) -> Result<VssReply, String>> VssHttpStore<F> {
    /// Whether a listing may fail when it goes on after its pages.
    pub open spec fn fails_after(
        &self,
        prefix: Seq<char>,
        replies: Seq<VssReply>,
        e: StoreErrorView,
    ) -> bool {
        exists|sent: Result<VssReply, String>|
            {
                &&& #[trigger] self.may_bring(
                    "listKeyVersions"@,
                    self.list_body(prefix, token_of(replies)),
                    sent,
                )
                &&& match sent {
                    Ok(reply) => answer::<ListKeyVersionsResponse>(reply) == Err::<
                        ListKeyVersionsResponseView,
                        StoreErrorView,
                    >(e),
                    Err(text) => e == StoreErrorView::Backend(text@),
                }
            }
    }
}

/// A first write names version zero, and gives version one; one that names another version, as if
/// something were there, is refused.
pub proof fn law_first_write(c: Contents, key: Seq<char>, version: i64, value: Seq<u8>)
    requires
        !c.contains_key(key),
    ensures
        version == 0 || version == -1 ==> exact_put(c, key, version) == Ok::<i64, StoreErrorView>(1)
            && looked_up(written(c, key, version, value), key) == Some(
            KeyValueView { key, version: 1, value },
        ),
        version != 0 && version != -1 ==> exact_put(c, key, version) == Err::<i64, StoreErrorView>(
            StoreErrorView::Conflict(key),
        ) && written(c, key, version, value) == c,
{
}

/// A write over what is there names its version, and counts on from it; one that names any other
/// version is refused and changes nothing. A write of version `-1` always goes through, and counts
/// from one again.
pub proof fn law_write_over(c: Contents, key: Seq<char>, version: i64, value: Seq<u8>)
    requires
        c.contains_key(key),
        0 < c[key].version < i64::MAX,
    ensures
        version == c[key].version ==> exact_put(c, key, version) == Ok::<i64, StoreErrorView>(
            (version + 1) as i64,
        ) && looked_up(written(c, key, version, value), key) == Some(
            KeyValueView { key, version: (version + 1) as i64, value },
        ),
        version == -1 ==> exact_put(c, key, version) == Ok::<i64, StoreErrorView>(1) && looked_up(
            written(c, key, version, value),
            key,
        ) == Some(KeyValueView { key, version: 1, value }),
        version != c[key].version && version != -1 ==> exact_put(c, key, version) == Err::<
            i64,
            StoreErrorView,
        >(StoreErrorView::Conflict(key)) && written(c, key, version, value) == c,
{
}

/// What holds writes, each of which names the version that the one before gave.
pub open spec fn written_in_turn(c: Contents, key: Seq<char>, values: Seq<Seq<u8>>) -> Contents
    decreases values.len(),
{
    if values.len() == 0 {
        c
    } else {
        written(
            written_in_turn(c, key, values.drop_last()),
            key,
            (values.len() - 1) as i64,
            values.last(),
        )
    }
}

/// Writes are counted: after writes of a new key, each of which names the version that the one
/// before gave, the key has as many versions as there were writes, and the value of the last.
pub proof fn law_writes_counted(c: Contents, key: Seq<char>, values: Seq<Seq<u8>>)
    requires
        !c.contains_key(key),
        0 < values.len() < i64::MAX,
    ensures
        looked_up(written_in_turn(c, key, values), key) == Some(
            KeyValueView { key, version: values.len() as i64, value: values.last() },
        ),
    decreases values.len(),
{
    if values.len() > 1 {
        law_writes_counted(c, key, values.drop_last());
    } else {
        assert(written_in_turn(c, key, values.drop_last()) == c);
    }
}

/// Texts are in the order of a dictionary: the first stands before the second where it is a proper
/// start of it, or has the smaller character at the first place where they differ.
pub proof fn law_texts_in_dictionary_order(a: Seq<char>, b: Seq<char>, n: int)
    requires
        0 <= n <= a.len(),
        n <= b.len(),
        a.take(n) == b.take(n),
        n < a.len() && n < b.len() ==> a[n] != b[n],
    ensures
        text_before(a, b) <==> (n == a.len() && n < b.len()) || (n < a.len() && n < b.len() && a[n]
            < b[n]),
    decreases a.len(),
{
    if n > 0 {
        let (s, t) = (a.drop_first(), b.drop_first());
        assert(a[0] == a.take(n)[0] && b[0] == b.take(n)[0]);
        assert(s.take(n - 1) =~= a.take(n).drop_first());
        assert(t.take(n - 1) =~= b.take(n).drop_first());
        law_texts_in_dictionary_order(s, t, n - 1);
    } else if n < a.len() && n < b.len() {
        assert(a[0] != b[0]);
    }
}

/// The header that proves who asks is the public key, a signature and the time; what is signed is
/// the digest of a fixed text, the public key and the time, so it is good for one time only.
pub proof fn law_auth_header_signs_time(secret: Seq<u8>, secs: u64)
    ensures
        auth_header(secret, secs) == to_hex(ecdsa_public(secret)@) + to_hex(
            ecdsa_signature(
                secret,
                sha256(
                    encode_utf8("VSS Signature Authorizer Signing Salt Constant.................."@)
                        + ecdsa_public(secret)@ + encode_utf8(decimal(secs as nat)),
                )@,
            )@,
        ) + decimal(secs as nat),
{
}

/// Headers of two times differ.
pub proof fn law_other_time_other_header(secret: Seq<u8>, first: u64, second: u64)
    requires
        auth_header(secret, first) == auth_header(secret, second),
    ensures
        first == second,
{
    let key = to_hex(ecdsa_public(secret)@);
    let a = to_hex(ecdsa_signature(secret, auth_digest(secret, first)@)@);
    let b = to_hex(ecdsa_signature(secret, auth_digest(secret, second)@)@);
    lemma_concat_split(key + a, decimal(first as nat), key + b, decimal(second as nat));
    lemma_decimal_injective(first as nat, second as nat);
}

/// A reply is read as what it says: with a status of success its message; else a conflict where the
/// server says so, a missing key where it says so, and any other failure as a failure.
pub proof fn law_reply_says<M: Message>(reply: VssReply)
    ensures
        200 <= reply.status <= 299 ==> match decoding::<M>(reply.body@) {
            Ok(m) => answer::<M>(reply) == Ok::<M::V, StoreErrorView>(m),
            Err(_) => answer::<M>(reply) matches Err(e) && e is Backend,
        },
        !(200 <= reply.status <= 299) ==> {
            &&& answer::<M>(reply) matches Err(e)
            &&& match decoding::<ErrorResponse>(reply.body@) {
                Ok(told) => {
                    &&& told.error_code == 1 ==> e == StoreErrorView::Conflict(told.message)
                    &&& told.error_code == 4 ==> e == StoreErrorView::NoSuchKey(told.message)
                    &&& told.error_code != 1 && told.error_code != 4 ==> e is Backend
                },
                Err(_) => e is Backend,
            }
        },
{
}

/// A read of a key that the server does not know finds nothing; every other failure is an error. A
/// write that the server takes counts on from the version that it names, and one of version `-1`
/// from one.
pub proof fn law_read_and_write_outcomes(version: i64, reply: VssReply)
    requires
        version < i64::MAX,
    ensures
        match answer::<GetObjectResponse>(reply) {
            Ok(m) => read_outcome(reply) == Ok::<Option<KeyValueView>, StoreErrorView>(m.value),
            Err(StoreErrorView::NoSuchKey(_)) => read_outcome(reply) == Ok::<
                Option<KeyValueView>,
                StoreErrorView,
            >(None),
            Err(e) => read_outcome(reply) == Err::<Option<KeyValueView>, StoreErrorView>(e),
        },
        match answer::<PutObjectResponse>(reply) {
            Ok(_) => write_outcome(version, reply) matches Ok(v) && v == (if version == -1 {
                1
            } else {
                version + 1
            }),
            Err(e) => write_outcome(version, reply) == Err::<i64, StoreErrorView>(e),
        },
{
}

/// A listing holds every page, in their order, and goes on while a page has a token that is not
/// empty.
pub proof fn law_listing_holds_every_page(replies: Seq<VssReply>, reply: VssReply)
    ensures
        listed_in(Seq::empty()) == Seq::<KeyValueView>::empty(),
        listed_in(replies.push(reply)) == listed_in(replies) + page(reply).key_versions,
        goes_on(replies.push(reply)) <==> (page(reply).next_page_token matches Some(token)
            && token.len() > 0),
        goes_on(replies.push(reply)) ==> token_of(replies.push(reply))
            == page(reply).next_page_token,
{
    assert(replies.push(reply).drop_last() =~= replies);
    assert(replies.push(reply).last() == reply);
}

/// A request goes to the endpoint below the address of the server, as bytes, with a header of a time
/// that was read from the clock.
pub proof fn law_request_addressed(
    req: VssRequest,
    base_url: Seq<char>,
    secret: Seq<u8>,
    endpoint: Seq<char>,
    body: Seq<u8>,
)
    requires
        is_request(req, base_url, secret, endpoint, body),
    ensures
        req.url@ == base_url + "/"@ + endpoint,
        req.content_type@ == "application/octet-stream"@,
        req.body@ == body,
        exists|secs: u64|
            clock_reading(secs) && req.authorization@ == #[trigger] auth_header(secret, secs),
{
}

impl<F: Fn(&VssRequest) -> Result<VssReply, String>> VssHttpStore<F> {
    /// A request says what is asked: a read names the store and the key; a write the key, the
    /// version that it replaces and the value, and nothing to delete; a listing the prefix and
    /// where it goes on from.
    pub proof fn law_bodies_say_what_is_asked(
        &self,
        key: Seq<char>,
        version: i64,
        value: Seq<u8>,
        token: Option<Seq<char>>,
    )
        requires
            text_fits(self.store()),
            item_fits(KeyValueView { key, version, value }),
            optional_text_fits(token),
        ensures
            decoding::<GetObjectRequest>(self.get_body(key)) matches Ok(m) && m.store_id
                == self.store() && m.key == key,
            decoding::<PutObjectRequest>(self.put_body(key, version, value)) matches Ok(m) && {
                &&& m.store_id == self.store()
                &&& m.global_version is None
                &&& m.transaction_items == seq![KeyValueView { key, version, value }]
                &&& m.delete_items.len() == 0
            },
            decoding::<ListKeyVersionsRequest>(self.list_body(key, token)) matches Ok(m) && {
                &&& m.store_id == self.store()
                &&& m.key_prefix == Some(key)
                &&& m.page_token == token
                &&& m.page_size is Some
            },
    {
        law_get_object_request_roundtrip(GetObjectRequestView { store_id: self.store(), key });
        let items = seq![KeyValueView { key, version, value }];
        law_put_object_request_roundtrip(
            PutObjectRequestView {
                store_id: self.store(),
                global_version: None,
                transaction_items: items,
                delete_items: Seq::empty(),
            },
        );
        law_list_request_roundtrip(
            ListKeyVersionsRequestView {
                store_id: self.store(),
                key_prefix: Some(key),
                page_size: Some(PAGE_SIZE),
                page_token: token,
            },
        );
    }

    /// Reads, writes and listings ask the server, with the key, the version and the value that were
    /// handed in, and come to what its answer says; what could not be carried is told.
    pub proof fn law_server_is_asked(
        &self,
        key: Seq<char>,
        version: i64,
        value: Seq<u8>,
        got: Result<Option<KeyValueView>, StoreErrorView>,
        put: Result<i64, StoreErrorView>,
        after: &Self,
    )
        ensures
            self.may_get(key, got) ==> exists|sent: Result<VssReply, String>|
                {
                    &&& #[trigger] self.may_bring("getObject"@, self.get_body(key), sent)
                    &&& match sent {
                        Ok(reply) => got == read_outcome(reply),
                        Err(text) => got == Err::<Option<KeyValueView>, StoreErrorView>(
                            StoreErrorView::Backend(text@),
                        ),
                    }
                },
            self.may_put(key, version, value, put, after) ==> *after == *self && exists|
                sent: Result<VssReply, String>,
            |
                {
                    &&& #[trigger] self.may_bring(
                        "putObjects"@,
                        self.put_body(key, version, value),
                        sent,
                    )
                    &&& match sent {
                        Ok(reply) => put == write_outcome(version, reply),
                        Err(text) => put == Err::<i64, StoreErrorView>(
                            StoreErrorView::Backend(text@),
                        ),
                    }
                },
    {
    }

    /// What is brought is the answer to a request that was carried: to the endpoint, with the bytes and
    /// with a header of this client.
    pub proof fn law_request_is_carried(
        &self,
        endpoint: Seq<char>,
        body: Seq<u8>,
        sent: Result<VssReply, String>,
    )
        requires
            self.may_bring(endpoint, body, sent),
        ensures
            exists|req: VssRequest|
                {
                    &&& #[trigger] self.carrier().ensures((&req,), sent)
                    &&& req.url@ == self.base() + "/"@ + endpoint
                    &&& req.body@ == body
                },
    {
        reveal(VssHttpStore::may_bring);
    }
}

} // verus!
