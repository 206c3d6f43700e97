//! NIP-01 events: signing and checking them, and the messages to a relay.
use vstd::prelude::*;
use vstd::string::*;
use vstd::utf8::*;
use crate::json::{
    grouped, joined, json_field, json_list, json_object, json_strings, lemma_coded_field,
    lemma_joined_grouped, lemma_json_list_delimited, lemma_json_string_delimited,
    lemma_json_strings_self_delimiting, lemma_number_field, lemma_objects_agree, lemma_string_field,
    write_field, write_list, write_object, write_strings,
};
use crate::outside::{
    bech32_npub, bech32_npub_len, drawn_secret_key, hex_decode, hex_encode, hex_refusal,
    is_secret_key, json_quote, json_string, npub_encode, random_secret_key, schnorr_public, schnorr_sign, schnorr_valid, schnorr_verify,
    secret_key_from_slice, sha256, sha256_digest, xonly_public_key,
};
use crate::text::{
    begins_with, decimal, decimal_text, from_hex, law_hex_roundtrip, lemma_concat_split,
    lemma_decimal_delimited, lemma_hex_injective, lemma_same_array, lemma_utf8_injective, texts,
    to_hex,
};

verus! {

/// The kind of a service announcement. Kinds from 30000 to 39999 are
/// addressable: a relay keeps only the latest event of one author, kind and `d`
/// tag.
pub const SERVICE_ANNOUNCEMENT_KIND: u64 = 38831;

/// Why a key could not be read or written.
#[derive(Debug, Clone, PartialEq, Eq)]
pub enum KeyError {
    /// The text is not hexadecimal, and why not.
    NotHex(String),
    /// The bytes are no secret key.
    NotASecretKey,
    /// The bytes are too many for a bech32 text.
    TooLong,
}

/// A [`KeyError`] in mathematical terms.
pub enum KeyErrorView {
    /// See [`KeyError::NotHex`].
    NotHex(Seq<char>),
    /// See [`KeyError::NotASecretKey`].
    NotASecretKey,
    /// See [`KeyError::TooLong`].
    TooLong,
}

impl View for KeyError {
    type V = KeyErrorView;

    open spec fn view(&self) -> KeyErrorView {
        match self {
            KeyError::NotHex(text) => KeyErrorView::NotHex(text@),
            KeyError::NotASecretKey => KeyErrorView::NotASecretKey,
            KeyError::TooLong => KeyErrorView::TooLong,
        }
    }
}

/// A [`KeyError`] in words.
pub open spec fn key_error_text(e: KeyErrorView) -> Seq<char> {
    match e {
        KeyErrorView::NotHex(text) => text,
        KeyErrorView::NotASecretKey => "malformed or out-of-range secret key"@,
        KeyErrorView::TooLong => "encode error"@,
    }
}

impl KeyError {
    /// The error in words.
    pub fn to_string(&self) -> (s: String)
        ensures
            s@ == key_error_text(self@),
    {
        match self {
            KeyError::NotHex(text) => text.clone(),
            KeyError::NotASecretKey => "malformed or out-of-range secret key".to_owned(),
            KeyError::TooLong => "encode error".to_owned(),
        }
    }
}

/// A signed event.
#[derive(Debug)]
pub struct Event {
    /// The digest of what is signed, in hexadecimal.
    pub id: String,
    /// The public key of the author, in hexadecimal.
    pub pubkey: String,
    /// When it was made.
    pub created_at: u64,
    /// Its kind.
    pub kind: u64,
    /// Its tags.
    pub tags: Vec<Vec<String>>,
    /// Its content.
    pub content: String,
    /// The signature, in hexadecimal.
    pub sig: String,
}

/// An event in mathematical terms.
#[verifier::ext_equal]
pub struct EventView {
    /// See [`Event::id`].
    pub id: Seq<char>,
    /// See [`Event::pubkey`].
    pub pubkey: Seq<char>,
    /// See [`Event::created_at`].
    pub created_at: u64,
    /// See [`Event::kind`].
    pub kind: u64,
    /// See [`Event::tags`].
    pub tags: Seq<Seq<Seq<char>>>,
    /// See [`Event::content`].
    pub content: Seq<char>,
    /// See [`Event::sig`].
    pub sig: Seq<char>,
}

/// Tags in mathematical terms.
pub open spec fn tag_texts(tags: Seq<Vec<String>>) -> Seq<Seq<Seq<char>>> {
    tags.map_values(|t: Vec<String>| texts(t@))
}

impl View for Event {
    type V = EventView;

    open spec fn view(&self) -> EventView {
        EventView {
            id: self.id@,
            pubkey: self.pubkey@,
            created_at: self.created_at,
            kind: self.kind,
            tags: tag_texts(self.tags@),
            content: self.content@,
            sig: self.sig@,
        }
    }
}

/// A copy of a list of strings.
pub fn copy_strings(v: &Vec<String>) -> (r: Vec<String>)
    ensures
        texts(r@) == texts(v@),
{
    let mut r: Vec<String> = Vec::new();
    let mut i: usize = 0;
    while i < v.len()
        invariant
            i <= v@.len(),
            r@.len() == i,
            forall|j: int| 0 <= j < i ==> (#[trigger] r@[j])@ == v@[j]@,
        decreases v.len() - i,
    {
        r.push(v[i].clone());
        i = i + 1;
    }
    assert(texts(r@) =~= texts(v@));
    r
}

impl Clone for Event {
    fn clone(&self) -> (r: Event)
        ensures
            r@ == self@,
    {
        let mut tags: Vec<Vec<String>> = Vec::new();
        let mut i: usize = 0;
        while i < self.tags.len()
            invariant
                i <= self.tags@.len(),
                tags@.len() == i,
                forall|j: int| 0 <= j < i ==> texts((#[trigger] tags@[j])@) == texts(self.tags@[j]@),
            decreases self.tags.len() - i,
        {
            tags.push(copy_strings(&self.tags[i]));
            i = i + 1;
        }
        assert(tag_texts(tags@) =~= tag_texts(self.tags@));
        Event {
            id: self.id.clone(),
            pubkey: self.pubkey.clone(),
            created_at: self.created_at,
            kind: self.kind,
            tags,
            content: self.content.clone(),
            sig: self.sig.clone(),
        }
    }
}

// ---------------------------------------------------------------------------
// What is signed
// ---------------------------------------------------------------------------

/// Tags in JSON.
pub open spec fn tags_json(tags: Seq<Seq<Seq<char>>>) -> Seq<char> {
    json_list(tags.map_values(|t: Seq<Seq<char>>| json_strings(t)))
}

/// The text whose digest is signed: a list of zero, the public key, the time, the
/// kind, the tags and the content.
pub open spec fn signed_text(
    pubkey: Seq<char>,
    created_at: u64,
    kind: u64,
    tags: Seq<Seq<Seq<char>>>,
    content: Seq<char>,
) -> Seq<char> {
    json_list(
        seq![
            "0"@,
            json_string(pubkey),
            decimal(created_at as nat),
            decimal(kind as nat),
            tags_json(tags),
            json_string(content),
        ],
    )
}

/// The text of an event whose digest is signed.
pub open spec fn event_text(ev: EventView) -> Seq<char> {
    signed_text(ev.pubkey, ev.created_at, ev.kind, ev.tags, ev.content)
}

/// The digest of an event.
pub open spec fn event_digest(ev: EventView) -> [u8; 32] {
    sha256(encode_utf8(event_text(ev)))
}

/// Whether an event has the id of what it holds and a right signature of it.
pub open spec fn valid_event(ev: EventView) -> bool {
    &&& ev.id == to_hex(event_digest(ev)@)
    &&& from_hex(ev.sig) is Some
    &&& from_hex(ev.sig)->0.len() == 64
    &&& from_hex(ev.pubkey) is Some
    &&& from_hex(ev.pubkey)->0.len() == 32
    &&& schnorr_valid(from_hex(ev.sig)->0, event_digest(ev)@, from_hex(ev.pubkey)->0)
}

/// Writes tags in JSON.
fn write_tags(tags: &Vec<Vec<String>>) -> (s: String)
    ensures
        s@ == tags_json(tag_texts(tags@)),
{
    let mut lists: Vec<String> = Vec::new();
    let mut i: usize = 0;
    while i < tags.len()
        invariant
            i <= tags@.len(),
            lists@.len() == i,
            forall|j: int| 0 <= j < i ==> (#[trigger] lists@[j])@ == json_strings(texts(tags@[j]@)),
        decreases tags.len() - i,
    {
        lists.push(write_strings(&tags[i]));
        i = i + 1;
    }
    assert(texts(lists@) =~= tag_texts(tags@).map_values(|t: Seq<Seq<char>>| json_strings(t)));
    write_list(&lists)
}

/// The digest of what is signed.
fn digest_of(
    pubkey: &str,
    created_at: u64,
    kind: u64,
    tags: &Vec<Vec<String>>,
    content: &str,
) -> (digest: [u8; 32])
    ensures
        digest == sha256(
            encode_utf8(signed_text(pubkey@, created_at, kind, tag_texts(tags@), content@)),
        ),
{
    let mut items: Vec<String> = Vec::new();
    items.push("0".to_owned());
    items.push(json_quote(pubkey));
    items.push(decimal_text(created_at));
    items.push(decimal_text(kind));
    items.push(write_tags(tags));
    items.push(json_quote(content));
    assert(texts(items@) =~= seq![
        "0"@,
        json_string(pubkey@),
        decimal(created_at as nat),
        decimal(kind as nat),
        tags_json(tag_texts(tags@)),
        json_string(content@),
    ]);
    let text = write_list(&items);
    sha256_digest(text.as_str().as_bytes())
}

// ---------------------------------------------------------------------------
// Keys
// ---------------------------------------------------------------------------

/// A key pair. Its view is the secret key.
pub struct NostrKeys {
    secret: [u8; 32],
}

impl View for NostrKeys {
    type V = Seq<u8>;

    closed spec fn view(&self) -> Seq<u8> {
        self.secret@
    }
}

/// Whether a secret key is one that was drawn.
pub open spec fn is_drawn_secret(secret: Seq<u8>) -> bool {
    exists|s: [u8; 32]| #[trigger] drawn_secret_key(s) && secret == s@
}

/// The secret key that a hexadecimal text stands for.
pub open spec fn secret_of_hex(s: Seq<char>) -> Result<Seq<u8>, KeyErrorView> {
    match from_hex(s) {
        Some(bytes) => if is_secret_key(bytes) {
            Ok(bytes)
        } else {
            Err(KeyErrorView::NotASecretKey)
        },
        None => Err(KeyErrorView::NotHex(hex_refusal(s))),
    }
}

/// The public key of a secret key, in hexadecimal.
pub open spec fn public_hex_of(secret: Seq<u8>) -> Seq<char> {
    to_hex(schnorr_public(secret)@)
}

/// The bech32 text of a public key in hexadecimal.
pub open spec fn npub_of_hex(s: Seq<char>) -> Result<Seq<char>, KeyErrorView> {
    match from_hex(s) {
        Some(bytes) => if bech32_npub_len(bytes.len()) <= 1023 {
            Ok(bech32_npub(bytes))
        } else {
            Err(KeyErrorView::TooLong)
        },
        None => Err(KeyErrorView::NotHex(hex_refusal(s))),
    }
}

impl NostrKeys {
    #[verifier::type_invariant]
    spec fn well_formed(self) -> bool {
        is_secret_key(self.secret@)
    }

    /// A random key pair.
    pub fn generate() -> (keys: NostrKeys)
        ensures
            is_secret_key(keys@),
            is_drawn_secret(keys@),
    {
        let secret: [u8; 32] = random_secret_key();
        assert(drawn_secret_key(secret));
        NostrKeys { secret }
    }

    /// The key pair of a secret key in hexadecimal.
    pub fn from_secret_hex(hex_sk: &str) -> (res: Result<NostrKeys, KeyError>)
        ensures
            match res {
                Ok(keys) => secret_of_hex(hex_sk@) == Ok::<Seq<u8>, KeyErrorView>(keys@),
                Err(e) => secret_of_hex(hex_sk@) == Err::<Seq<u8>, KeyErrorView>(e@),
            },
    {
        match hex_decode(hex_sk) {
            Ok(bytes) => match secret_key_from_slice(&bytes) {
                Ok(secret) => Ok(NostrKeys { secret }),
                Err(_) => Err(KeyError::NotASecretKey),
            },
            Err(e) => Err(KeyError::NotHex(e)),
        }
    }

    /// The secret key in hexadecimal.
    pub fn secret_hex(&self) -> (s: String)
        ensures
            s@ == to_hex(self@),
            is_secret_key(self@),
    {
        proof {
            use_type_invariant(self);
        }
        hex_encode(&self.secret)
    }

    /// The public key in hexadecimal.
    pub fn public_hex(&self) -> (s: String)
        ensures
            s@ == public_hex_of(self@),
    {
        proof {
            use_type_invariant(self);
        }
        hex_encode(&xonly_public_key(&self.secret))
    }

    /// The public key as a bech32 text.
    pub fn npub(&self) -> (s: String)
        ensures
            s@ == bech32_npub(schnorr_public(self@)@),
            begins_with(s@, "npub1"@),
            s@.len() == 63,
    {
        proof {
            use_type_invariant(self);
        }
        let pubkey = xonly_public_key(&self.secret);
        match npub_encode(&pubkey) {
            Ok(s) => s,
            Err(_) => String::new(),
        }
    }

    /// Makes and signs an event. It is valid.
    pub fn sign_event(
        &self,
        kind: u64,
        content: &str,
        tags: Vec<Vec<String>>,
        created_at: u64,
    ) -> (ev: Event)
        ensures
            ev@.pubkey == public_hex_of(self@),
            ev@.created_at == created_at,
            ev@.kind == kind,
            ev@.tags == tag_texts(tags@),
            ev@.content == content@,
            ev@.sig == to_hex(from_hex(ev@.sig)->0),
            valid_event(ev@),
    {
        proof {
            use_type_invariant(self);
        }
        let pubkey = self.public_hex();
        let digest = digest_of(pubkey.as_str(), created_at, kind, &tags, content);
        let sig = schnorr_sign(&self.secret, &digest);
        proof {
            law_hex_roundtrip(sig@);
            law_hex_roundtrip(schnorr_public(self@)@);
        }
        Event {
            id: hex_encode(&digest),
            pubkey,
            created_at,
            kind,
            tags,
            content: content.to_owned(),
            sig: hex_encode(&sig),
        }
    }
}

impl Clone for NostrKeys {
    fn clone(&self) -> (r: NostrKeys)
        ensures
            r@ == self@,
    {
        proof {
            use_type_invariant(self);
        }
        NostrKeys { secret: self.secret }
    }
}

/// Checks the id and the signature of an event.
pub fn verify_event(ev: &Event) -> (ok: bool)
    ensures
        ok == valid_event(ev@),
{
    let digest = digest_of(
        ev.pubkey.as_str(),
        ev.created_at,
        ev.kind,
        &ev.tags,
        ev.content.as_str(),
    );
    if !(hex_encode(&digest) == ev.id) {
        return false;
    }
    match (hex_decode(ev.sig.as_str()), hex_decode(ev.pubkey.as_str())) {
        (Ok(sig), Ok(pubkey)) => schnorr_verify(&sig, &digest, &pubkey),
        _ => false,
    }
}

/// The bech32 text of a public key in hexadecimal, for a key of which only the
/// public half is known.
pub fn pubkey_hex_to_npub(pubkey_hex: &str) -> (res: Result<String, KeyError>)
    ensures
        match res {
            Ok(s) => npub_of_hex(pubkey_hex@) == Ok::<Seq<char>, KeyErrorView>(s@),
            Err(e) => npub_of_hex(pubkey_hex@) == Err::<Seq<char>, KeyErrorView>(e@),
        },
{
    match hex_decode(pubkey_hex) {
        Ok(bytes) => match npub_encode(&bytes) {
            Ok(s) => Ok(s),
            Err(_) => Err(KeyError::TooLong),
        },
        Err(e) => Err(KeyError::NotHex(e)),
    }
}

// ---------------------------------------------------------------------------
// Messages to a relay
// ---------------------------------------------------------------------------

/// An event in JSON, its fields in alphabetical order.
pub open spec fn event_json(ev: EventView) -> Seq<char> {
    json_object(
        seq![
            json_field("content"@, json_string(ev.content)),
            json_field("created_at"@, decimal(ev.created_at as nat)),
            json_field("id"@, json_string(ev.id)),
            json_field("kind"@, decimal(ev.kind as nat)),
            json_field("pubkey"@, json_string(ev.pubkey)),
            json_field("sig"@, json_string(ev.sig)),
            json_field("tags"@, tags_json(ev.tags)),
        ],
    )
}

/// The message that publishes an event.
pub open spec fn publish_text(ev: EventView) -> Seq<char> {
    json_list(seq![json_string("EVENT"@), event_json(ev)])
}

/// The message that asks for the events of some kinds.
pub open spec fn query_text(sub_id: Seq<char>, kinds: Seq<u64>) -> Seq<char> {
    json_list(
        seq![
            json_string("REQ"@),
            json_string(sub_id),
            json_object(
                seq![
                    json_field(
                        "kinds"@,
                        json_list(kinds.map_values(|k: u64| decimal(k as nat))),
                    ),
                ],
            ),
        ],
    )
}

/// The message that ends a subscription.
pub open spec fn close_text(sub_id: Seq<char>) -> Seq<char> {
    json_list(seq![json_string("CLOSE"@), json_string(sub_id)])
}

/// The message that publishes an event.
pub fn client_publish_message(ev: &Event) -> (s: String)
    ensures
        s@ == publish_text(ev@),
{
    let tags = write_tags(&ev.tags);
    let mut fields: Vec<String> = Vec::new();
    fields.push(write_field("content", json_quote(ev.content.as_str()).as_str()));
    fields.push(write_field("created_at", decimal_text(ev.created_at).as_str()));
    fields.push(write_field("id", json_quote(ev.id.as_str()).as_str()));
    fields.push(write_field("kind", decimal_text(ev.kind).as_str()));
    fields.push(write_field("pubkey", json_quote(ev.pubkey.as_str()).as_str()));
    fields.push(write_field("sig", json_quote(ev.sig.as_str()).as_str()));
    fields.push(write_field("tags", tags.as_str()));
    assert(texts(fields@) =~= seq![
        json_field("content"@, json_string(ev.content@)),
        json_field("created_at"@, decimal(ev.created_at as nat)),
        json_field("id"@, json_string(ev.id@)),
        json_field("kind"@, decimal(ev.kind as nat)),
        json_field("pubkey"@, json_string(ev.pubkey@)),
        json_field("sig"@, json_string(ev.sig@)),
        json_field("tags"@, tags_json(tag_texts(ev.tags@))),
    ]);
    let mut items: Vec<String> = Vec::new();
    items.push(json_quote("EVENT"));
    items.push(write_object(&fields));
    assert(texts(items@) =~= seq![json_string("EVENT"@), event_json(ev@)]);
    write_list(&items)
}

/// The message that asks a relay for the events of some kinds.
pub fn client_query_message(sub_id: &str, kinds: &[u64]) -> (s: String)
    ensures
        s@ == query_text(sub_id@, kinds@),
{
    let mut numbers: Vec<String> = Vec::new();
    let mut i: usize = 0;
    while i < kinds.len()
        invariant
            i <= kinds@.len(),
            numbers@.len() == i,
            forall|j: int| 0 <= j < i ==> (#[trigger] numbers@[j])@ == decimal(kinds@[j] as nat),
        decreases kinds.len() - i,
    {
        numbers.push(decimal_text(kinds[i]));
        i = i + 1;
    }
    let ghost list = kinds@.map_values(|k: u64| decimal(k as nat));
    assert(texts(numbers@) =~= list);
    let mut fields: Vec<String> = Vec::new();
    fields.push(write_field("kinds", write_list(&numbers).as_str()));
    assert(texts(fields@) =~= seq![json_field("kinds"@, json_list(list))]);
    let mut items: Vec<String> = Vec::new();
    items.push(json_quote("REQ"));
    items.push(json_quote(sub_id));
    items.push(write_object(&fields));
    assert(texts(items@) =~= seq![
        json_string("REQ"@),
        json_string(sub_id@),
        json_object(seq![json_field("kinds"@, json_list(list))]),
    ]);
    write_list(&items)
}

/// The message that ends a subscription.
pub fn client_close_message(sub_id: &str) -> (s: String)
    ensures
        s@ == close_text(sub_id@),
{
    let mut items: Vec<String> = Vec::new();
    items.push(json_quote("CLOSE"));
    items.push(json_quote(sub_id));
    assert(texts(items@) =~= seq![json_string("CLOSE"@), json_string(sub_id@)]);
    write_list(&items)
}

// ---------------------------------------------------------------------------
// Laws
// ---------------------------------------------------------------------------

/// The text that is signed gives away every signed field.
pub proof fn law_signed_text_determines(a: EventView, b: EventView)
    requires
        event_text(a) == event_text(b),
    ensures
        a.pubkey == b.pubkey,
        a.created_at == b.created_at,
        a.kind == b.kind,
        a.tags == b.tags,
        a.content == b.content,
{
    lemma_signed_text_grouped(a);
    lemma_signed_text_grouped(b);
    let (ta, tb) = (event_text(a), event_text(b));
    let (comma, end) = (seq![','], seq![']']);
    let head = seq!['['] + "0"@ + comma;
    let ca = json_string(a.content) + end;
    let cb = json_string(b.content) + end;
    let ga = tags_json(a.tags) + (comma + ca);
    let gb = tags_json(b.tags) + (comma + cb);
    let ka = decimal(a.kind as nat) + (comma + ga);
    let kb = decimal(b.kind as nat) + (comma + gb);
    let da = decimal(a.created_at as nat) + (comma + ka);
    let db = decimal(b.created_at as nat) + (comma + kb);
    lemma_concat_split(
        head,
        json_string(a.pubkey) + (comma + da),
        head,
        json_string(b.pubkey) + (comma + db),
    );
    lemma_json_string_delimited(a.pubkey, comma + da, b.pubkey, comma + db);
    lemma_concat_split(comma, da, comma, db);
    lemma_decimal_delimited(a.created_at as nat, comma + ka, b.created_at as nat, comma + kb);
    lemma_concat_split(comma, ka, comma, kb);
    lemma_decimal_delimited(a.kind as nat, comma + ga, b.kind as nat, comma + gb);
    lemma_concat_split(comma, ga, comma, gb);
    lemma_json_strings_self_delimiting();
    lemma_json_list_delimited(
        |t: Seq<Seq<char>>| json_strings(t),
        a.tags,
        comma + ca,
        b.tags,
        comma + cb,
    );
    lemma_concat_split(comma, ca, comma, cb);
    lemma_json_string_delimited(a.content, end, b.content, end);
}

/// The text that is signed, grouped from the right.
proof fn lemma_signed_text_grouped(ev: EventView)
    ensures
        event_text(ev) == (seq!['['] + "0"@ + seq![',']) + (json_string(ev.pubkey) + (seq![','] + (
        decimal(ev.created_at as nat) + (seq![','] + (decimal(ev.kind as nat) + (seq![','] + (
        tags_json(ev.tags) + (seq![','] + (json_string(ev.content) + seq![']']))))))))),
{
    let (zero, p, d, k, g, c) = (
        "0"@,
        json_string(ev.pubkey),
        decimal(ev.created_at as nat),
        decimal(ev.kind as nat),
        tags_json(ev.tags),
        json_string(ev.content),
    );
    let items = seq![zero, p, d, k, g, c];
    assert(items.drop_first() =~= seq![p, d, k, g, c]);
    assert(seq![p, d, k, g, c].drop_first() =~= seq![d, k, g, c]);
    assert(seq![d, k, g, c].drop_first() =~= seq![k, g, c]);
    assert(seq![k, g, c].drop_first() =~= seq![g, c]);
    assert(seq![g, c].drop_first() =~= seq![c]);
    let (comma, end) = (seq![','], seq![']']);
    lemma_joined_grouped(items, end);
    assert(grouped(seq![c], end) == c + end);
    assert(grouped(seq![g, c], end) == g + (comma + (c + end)));
    assert(grouped(seq![k, g, c], end) == k + (comma + (g + (comma + (c + end)))));
    assert(grouped(seq![d, k, g, c], end) == d + (comma + (k + (comma + (g + (comma + (c + end)))))));
    let tail = p + (comma + (d + (comma + (k + (comma + (g + (comma + (c + end))))))));
    assert(grouped(seq![p, d, k, g, c], end) == tail);
    assert(grouped(items, end) == zero + (comma + tail));
    assert(json_list(items) =~= seq!['['] + (joined(items) + end));
    assert(seq!['['] + (zero + (comma + tail)) =~= (seq!['['] + zero + comma) + tail);
}

/// A tampered event fails: an event that carries the id of a valid one and
/// differs from it in the author, the time, the kind, the tags or the content is
/// not valid, unless two texts with one SHA-256 have been found.
pub proof fn law_tampered_event_rejected(ev: EventView, tampered: EventView)
    requires
        valid_event(ev),
        tampered.id == ev.id,
        tampered.pubkey != ev.pubkey || tampered.created_at != ev.created_at || tampered.kind
            != ev.kind || tampered.tags != ev.tags || tampered.content != ev.content,
    ensures
        valid_event(tampered) ==> {
            let a = encode_utf8(event_text(ev));
            let b = encode_utf8(event_text(tampered));
            a != b && sha256(a) == sha256(b)
        },
{
    if event_text(ev) == event_text(tampered) {
        law_signed_text_determines(ev, tampered);
    }
    if encode_utf8(event_text(ev)) == encode_utf8(event_text(tampered)) {
        lemma_utf8_injective(event_text(ev), event_text(tampered));
    }
    if valid_event(tampered) {
        lemma_hex_injective(event_digest(ev)@, event_digest(tampered)@);
        lemma_same_array(event_digest(ev), event_digest(tampered));
    }
}

/// A secret key written in hexadecimal reads back as the same key.
pub proof fn law_secret_key_roundtrip(secret: Seq<u8>)
    requires
        is_secret_key(secret),
    ensures
        secret_of_hex(to_hex(secret)) == Ok::<Seq<u8>, KeyErrorView>(secret),
{
    law_hex_roundtrip(secret);
}

/// The bech32 text of a public key is the same by way of its hexadecimal text.
pub proof fn law_npub_by_hex(secret: Seq<u8>)
    ensures
        npub_of_hex(public_hex_of(secret)) == Ok::<Seq<char>, KeyErrorView>(
            bech32_npub(schnorr_public(secret)@),
        ),
{
    law_hex_roundtrip(schnorr_public(secret)@);
}

/// What is signed is the list of NIP-01, without white space: zero, the public key, the time, the
/// kind, the tags and the content.
pub proof fn law_signed_text_of_nip01(ev: EventView)
    ensures
        event_text(ev) == "[0,"@ + json_string(ev.pubkey) + ","@ + decimal(ev.created_at as nat)
            + ","@ + decimal(ev.kind as nat) + ","@ + tags_json(ev.tags) + ","@ + json_string(
            ev.content,
        ) + "]"@,
{
    lemma_signed_text_grouped(ev);
    reveal_strlit("[0,");
    reveal_strlit("0");
    reveal_strlit(",");
    reveal_strlit("]");
    let text = "[0,"@ + json_string(ev.pubkey) + ","@ + decimal(ev.created_at as nat) + ","@
        + decimal(ev.kind as nat) + ","@ + tags_json(ev.tags) + ","@ + json_string(ev.content)
        + "]"@;
    assert("[0,"@ =~= seq!['['] + "0"@ + seq![',']);
    assert(","@ =~= seq![',']);
    assert("]"@ =~= seq![']']);
    assert(event_text(ev) =~= text);
}

/// An event is valid just where its id is the SHA-256 of what is signed and its signature is right
/// for that digest and its author.
pub proof fn law_valid_event_is_signed_by_its_author(ev: EventView, sig: Seq<u8>, author: Seq<u8>)
    requires
        from_hex(ev.sig) == Some(sig),
        from_hex(ev.pubkey) == Some(author),
        sig.len() == 64,
        author.len() == 32,
    ensures
        valid_event(ev) <==> {
            &&& ev.id == to_hex(sha256(encode_utf8(event_text(ev)))@)
            &&& schnorr_valid(sig, sha256(encode_utf8(event_text(ev)))@, author)
        },
{
}

/// An event whose signature or author is no hexadecimal text of its length is not valid.
pub proof fn law_malformed_event_rejected(ev: EventView)
    requires
        !(from_hex(ev.sig) matches Some(sig) && sig.len() == 64) || !(from_hex(
            ev.pubkey,
        ) matches Some(author) && author.len() == 32),
    ensures
        !valid_event(ev),
{
}

/// The message that publishes an event gives the whole event away.
pub proof fn law_publish_text_determines(a: EventView, b: EventView)
    requires
        publish_text(a) == publish_text(b),
    ensures
        a == b,
{
    let (open, comma, end) = (seq!['['], seq![','], seq![']']);
    let kind = json_string("EVENT"@);
    let (ja, jb) = (event_json(a), event_json(b));
    assert(seq![kind, ja].drop_first() =~= seq![ja]);
    assert(seq![kind, jb].drop_first() =~= seq![jb]);
    assert(joined(seq![ja]) == ja && joined(seq![jb]) == jb);
    let head = open + kind + comma;
    assert(publish_text(a) =~= head + (ja + end));
    assert(publish_text(b) =~= head + (jb + end));
    lemma_concat_split(head, ja + end, head, jb + end);
    let (fa, fb) = (event_fields(a), event_fields(b));
    lemma_objects_agree(fa, end, fb, end);
    lemma_string_field(fa, fb, 0, "content"@, a.content, b.content, end, end);
    lemma_number_field(
        fa,
        fb,
        1,
        "created_at"@,
        a.created_at as nat,
        b.created_at as nat,
        end,
        end,
    );
    lemma_string_field(fa, fb, 2, "id"@, a.id, b.id, end, end);
    lemma_number_field(fa, fb, 3, "kind"@, a.kind as nat, b.kind as nat, end, end);
    lemma_string_field(fa, fb, 4, "pubkey"@, a.pubkey, b.pubkey, end, end);
    lemma_string_field(fa, fb, 5, "sig"@, a.sig, b.sig, end, end);
    lemma_json_strings_self_delimiting();
    let list = |t: Seq<Seq<Seq<char>>>| tags_json(t);
    assert forall|p: Seq<Seq<Seq<char>>>, u: Seq<char>, q: Seq<Seq<Seq<char>>>, v: Seq<char>|
        #[trigger] (list(p) + u) == #[trigger] (list(q) + v) implies p == q && u == v by {
        lemma_json_list_delimited(|t: Seq<Seq<char>>| json_strings(t), p, u, q, v);
    }
    lemma_coded_field(list, fa, fb, 6, "tags"@, a.tags, b.tags, end, end);
}

/// The fields of an event in JSON.
pub open spec fn event_fields(ev: EventView) -> Seq<Seq<char>> {
    seq![
        json_field("content"@, json_string(ev.content)),
        json_field("created_at"@, decimal(ev.created_at as nat)),
        json_field("id"@, json_string(ev.id)),
        json_field("kind"@, decimal(ev.kind as nat)),
        json_field("pubkey"@, json_string(ev.pubkey)),
        json_field("sig"@, json_string(ev.sig)),
        json_field("tags"@, tags_json(ev.tags)),
    ]
}

/// The message that asks for events is `REQ`, the name of the subscription and a filter by kinds,
/// each kind in its place; the one that ends it is `CLOSE` and that name.
pub proof fn law_query_asks_for_its_kinds(sub_id: Seq<char>, kinds: Seq<u64>)
    ensures
        query_text(sub_id, kinds) == seq!['['] + json_string("REQ"@) + seq![','] + json_string(
            sub_id,
        ) + seq![',', '{'] + json_string("kinds"@) + seq![':'] + json_list(
            Seq::new(kinds.len(), |i: int| decimal(kinds[i] as nat)),
        ) + seq!['}', ']'],
        close_text(sub_id) == seq!['['] + json_string("CLOSE"@) + seq![','] + json_string(sub_id)
            + seq![']'],
{
    let (req, sub, close) = (json_string("REQ"@), json_string(sub_id), json_string("CLOSE"@));
    let numbers = Seq::new(kinds.len(), |i: int| decimal(kinds[i] as nat));
    assert(kinds.map_values(|k: u64| decimal(k as nat)) =~= numbers);
    let field = json_field("kinds"@, json_list(numbers));
    let filter = json_object(seq![field]);
    assert(joined(seq![field]) == field);
    let items = seq![req, sub, filter];
    assert(items.drop_first() =~= seq![sub, filter]);
    assert(seq![sub, filter].drop_first() =~= seq![filter]);
    assert(joined(seq![filter]) == filter);
    assert(joined(seq![sub, filter]) == sub + seq![','] + filter);
    assert(joined(items) == req + seq![','] + (sub + seq![','] + filter));
    assert(query_text(sub_id, kinds) =~= seq!['['] + req + seq![','] + sub + seq![',', '{']
        + json_string("kinds"@) + seq![':'] + json_list(numbers) + seq!['}', ']']);
    assert(seq![close, sub].drop_first() =~= seq![sub]);
    assert(joined(seq![sub]) == sub);
    assert(joined(seq![close, sub]) == close + seq![','] + sub);
    assert(close_text(sub_id) =~= seq!['['] + close + seq![','] + sub + seq![']']);
}

} // verus!
