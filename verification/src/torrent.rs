//! Single-file BitTorrent v1 metainfo (.torrent), infohash and magnet link:
//! enough to hand a file to a seeder and to advertise it.
use vstd::prelude::*;
use vstd::string::*;
use vstd::utf8::*;
use crate::outside::{hex_encode, sha1, sha1_digest};
use crate::text::{
    decimal, decimal_int, decimal_int_text, decimal_text, hex_value, lemma_concat_split,
    lemma_decimal_bytes_delimited, lemma_hex_injective, lemma_same_array, lemma_utf8_concat,
    lemma_utf8_injective, texts, to_hex,
};

verus! {

/// The length of every piece but the last.
pub const PIECE_LENGTH: usize = 262_144;

// ---------------------------------------------------------------------------
// Bencoding
// ---------------------------------------------------------------------------

/// A bencoded integer.
pub open spec fn ben_int(v: int) -> Seq<u8> {
    encode_utf8("i"@ + decimal_int(v) + "e"@)
}

/// A bencoded byte string.
pub open spec fn ben_bytes(b: Seq<u8>) -> Seq<u8> {
    encode_utf8(decimal(b.len()) + ":"@) + b
}

/// A bencoded text.
pub open spec fn ben_str(s: Seq<char>) -> Seq<u8> {
    ben_bytes(encode_utf8(s))
}

/// A bencoder for integers, byte strings and dictionaries.
pub struct Bencoder {
    out: Vec<u8>,
}

impl View for Bencoder {
    type V = Seq<u8>;

    closed spec fn view(&self) -> Seq<u8> {
        self.out@
    }
}

impl Default for Bencoder {
    fn default() -> (b: Bencoder)
        ensures
            b@ == Seq::<u8>::empty(),
    {
        Bencoder { out: Vec::new() }
    }
}

impl Bencoder {
    /// Appends an integer.
    pub fn integer(&mut self, v: i64)
        ensures
            final(self)@ == old(self)@ + ben_int(v as int),
    {
        let mut s = "i".to_owned();
        s.append(decimal_int_text(v).as_str());
        s.append("e");
        self.out.extend_from_slice(s.as_str().as_bytes());
    }

    /// Appends the integer that a length is.
    fn length(&mut self, n: usize)
        ensures
            final(self)@ == old(self)@ + ben_int(n as int),
    {
        let mut s = "i".to_owned();
        s.append(decimal_text(n as u64).as_str());
        s.append("e");
        self.out.extend_from_slice(s.as_str().as_bytes());
    }

    /// Appends a byte string.
    pub fn bytes(&mut self, v: &[u8])
        ensures
            final(self)@ == old(self)@ + ben_bytes(v@),
    {
        let mut s = decimal_text(v.len() as u64);
        s.append(":");
        self.out.extend_from_slice(s.as_str().as_bytes());
        self.out.extend_from_slice(v);
        assert(self@ =~= old(self)@ + ben_bytes(v@));
    }

    /// Appends a text.
    pub fn str(&mut self, v: &str)
        ensures
            final(self)@ == old(self)@ + ben_str(v@),
    {
        self.bytes(v.as_bytes());
    }

    /// Appends a dictionary whose entries `f` appends: `d`, what `f` does, `e`.
    /// The keys must come in lexicographic order.
    pub fn dict<F: FnOnce(&mut Bencoder)>(&mut self, f: F)
        requires
            forall|b: &mut Bencoder| (*b)@ == old(self)@.push(100u8) ==> #[trigger] f.requires((b,)),
        ensures
            exists|b: &mut Bencoder|
                {
                    &&& (*b)@ == old(self)@.push(100u8)
                    &&& #[trigger] f.ensures((b,), ())
                    &&& final(self)@ == (*final(b))@.push(101u8)
                },
    {
        self.out.push(100u8);
        f(self);
        self.out.push(101u8);
    }

    /// Appends bytes as they are.
    fn raw(&mut self, v: &[u8])
        ensures
            final(self)@ == old(self)@ + v@,
    {
        self.out.extend_from_slice(v);
    }

    /// What was appended.
    pub fn finish(self) -> (out: Vec<u8>)
        ensures
            out@ == self@,
    {
        self.out
    }
}

// ---------------------------------------------------------------------------
// Metainfo
// ---------------------------------------------------------------------------

/// The SHA-1 of every piece, one behind the other. An empty file has one empty
/// piece.
pub open spec fn piece_hashes(data: Seq<u8>) -> Seq<u8>
    decreases data.len(),
{
    if data.len() <= PIECE_LENGTH {
        sha1(data)@
    } else {
        sha1(data.take(PIECE_LENGTH as int))@ + piece_hashes(data.skip(PIECE_LENGTH as int))
    }
}

/// The number of pieces of a file of `n` bytes.
pub open spec fn piece_count(n: nat) -> nat {
    if n == 0 {
        1
    } else {
        ((n + PIECE_LENGTH - 1) / PIECE_LENGTH as int) as nat
    }
}

/// The entries of the info dictionary.
pub open spec fn info_entries(name: Seq<char>, data: Seq<u8>) -> Seq<u8> {
    ben_str("length"@) + ben_int(data.len() as int) + ben_str("name"@) + ben_str(name) + ben_str(
        "piece length"@,
    ) + ben_int(PIECE_LENGTH as int) + ben_str("pieces"@) + ben_bytes(piece_hashes(data))
}

/// The info dictionary of a file: its length, its name, and its pieces.
pub open spec fn info_dict(name: Seq<char>, data: Seq<u8>) -> Seq<u8> {
    seq![100u8] + info_entries(name, data) + seq![101u8]
}

/// The infohash of a file: the SHA-1 of its info dictionary, in hexadecimal.
pub open spec fn infohash_of(name: Seq<char>, data: Seq<u8>) -> Seq<char> {
    to_hex(sha1(info_dict(name, data))@)
}

/// The tiers of an announce list, one for each tracker.
pub open spec fn tracker_tiers(trackers: Seq<Seq<char>>) -> Seq<u8>
    decreases trackers.len(),
{
    if trackers.len() == 0 {
        seq![]
    } else {
        tracker_tiers(trackers.drop_last()) + seq![108u8] + ben_str(trackers.last()) + seq![101u8]
    }
}

/// The entries of the metainfo that name the trackers; none without trackers.
pub open spec fn tracker_entries(trackers: Seq<Seq<char>>) -> Seq<u8> {
    if trackers.len() == 0 {
        seq![]
    } else {
        ben_str("announce"@) + ben_str(trackers[0]) + ben_str("announce-list"@) + seq![108u8]
            + tracker_tiers(trackers) + seq![101u8]
    }
}

/// The .torrent file.
pub open spec fn metainfo_of(
    name: Seq<char>,
    data: Seq<u8>,
    trackers: Seq<Seq<char>>,
) -> Seq<u8> {
    seq![100u8] + tracker_entries(trackers) + ben_str("created by"@) + ben_str("pivss"@) + ben_str(
        "info"@,
    ) + info_dict(name, data) + seq![101u8]
}

/// Whether a byte may stand in a URL as it is.
pub open spec fn is_unreserved(b: u8) -> bool {
    ||| 65 <= b <= 90
    ||| 97 <= b <= 122
    ||| 48 <= b <= 57
    ||| b == 45
    ||| b == 95
    ||| b == 46
    ||| b == 126
}

/// The upper-case hexadecimal digit `d`, for `d` below sixteen.
pub open spec fn upper_hex_digit(d: int) -> char {
    if d < 10 {
        (48 + d) as char
    } else {
        (55 + d) as char
    }
}

/// One byte of a URL-encoded text.
pub open spec fn url_byte(b: u8) -> Seq<char> {
    if is_unreserved(b) {
        seq![b as char]
    } else {
        seq!['%', upper_hex_digit(b as int / 16), upper_hex_digit(b as int % 16)]
    }
}

/// Bytes, URL-encoded.
pub open spec fn url_bytes(b: Seq<u8>) -> Seq<char>
    decreases b.len(),
{
    if b.len() == 0 {
        seq![]
    } else {
        url_bytes(b.drop_last()) + url_byte(b.last())
    }
}

/// A text, URL-encoded.
pub open spec fn url_text(s: Seq<char>) -> Seq<char> {
    url_bytes(encode_utf8(s))
}

/// The parameters of a magnet link that name the trackers.
pub open spec fn magnet_trackers(trackers: Seq<Seq<char>>) -> Seq<char>
    decreases trackers.len(),
{
    if trackers.len() == 0 {
        seq![]
    } else {
        magnet_trackers(trackers.drop_last()) + "&tr="@ + url_text(trackers.last())
    }
}

/// The magnet link of a file.
pub open spec fn magnet_of(
    name: Seq<char>,
    data: Seq<u8>,
    trackers: Seq<Seq<char>>,
) -> Seq<char> {
    "magnet:?xt=urn:btih:"@ + infohash_of(name, data) + "&dn="@ + url_text(name) + magnet_trackers(
        trackers,
    )
}

/// A file ready for seeding.
pub struct TorrentInfo {
    /// The bytes of the .torrent file.
    pub metainfo: Vec<u8>,
    /// The v1 infohash in hexadecimal.
    pub infohash: String,
    /// The magnet link.
    pub magnet: String,
}

/// URL-encodes a text: every byte that is not unreserved becomes a percent sign
/// and two upper-case hexadecimal digits.
pub fn urlencode(s: &str) -> (out: String)
    ensures
        out@ == url_text(s@),
{
    let b: &[u8] = s.as_bytes();
    let mut out = String::new();
    let mut i: usize = 0;
    while i < b.len()
        invariant
            i <= b@.len(),
            out@ == url_bytes(b@.take(i as int)),
        decreases b.len() - i,
    {
        let c: u8 = b[i];
        if (65 <= c && c <= 90) || (97 <= c && c <= 122) || (48 <= c && c <= 57) || c == 45 || c
            == 95 || c == 46 || c == 126 {
            out.push(c as char);
        } else {
            out.push('%');
            out.push(upper_digit(c / 16));
            out.push(upper_digit(c % 16));
        }
        i = i + 1;
        assert(b@.take(i as int).drop_last() =~= b@.take(i - 1));
        assert(out@ =~= url_bytes(b@.take(i as int)));
    }
    assert(b@.take(i as int) =~= b@);
    out
}

/// The upper-case hexadecimal digit `d`.
fn upper_digit(d: u8) -> (c: char)
    requires
        d < 16,
    ensures
        c == upper_hex_digit(d as int),
{
    if d < 10 {
        (48 + d) as char
    } else {
        (55 + d) as char
    }
}

/// The SHA-1 of every piece of `data`, one behind the other.
fn hash_pieces(data: &[u8]) -> (pieces: Vec<u8>)
    ensures
        pieces@ == piece_hashes(data@),
{
    let mut pieces: Vec<u8> = Vec::new();
    let n: usize = data.len();
    let mut at: usize = 0;
    assert(data@.skip(0) =~= data@);
    assert(pieces@ + piece_hashes(data@.skip(0)) =~= piece_hashes(data@));
    while n - at > PIECE_LENGTH
        invariant
            at <= n == data@.len(),
            pieces@ + piece_hashes(data@.skip(at as int)) == piece_hashes(data@),
        decreases n - at,
    {
        let digest = sha1_digest(&data[at..at + PIECE_LENGTH]);
        proof {
            let rest = data@.skip(at as int);
            assert(rest.take(PIECE_LENGTH as int) =~= data@.subrange(
                at as int,
                at + PIECE_LENGTH,
            ));
            assert(rest.skip(PIECE_LENGTH as int) =~= data@.skip(at + PIECE_LENGTH));
            assert(pieces@ + piece_hashes(rest) =~= pieces@ + digest@ + piece_hashes(
                data@.skip(at + PIECE_LENGTH),
            ));
        }
        pieces.extend_from_slice(&digest);
        at = at + PIECE_LENGTH;
    }
    let digest = sha1_digest(&data[at..n]);
    assert(data@.subrange(at as int, n as int) =~= data@.skip(at as int));
    pieces.extend_from_slice(&digest);
    pieces
}

/// Builds the single-file v1 torrent of `data` under `name`. There may be no
/// trackers.
pub fn create_torrent(name: &str, data: &[u8], trackers: &Vec<String>) -> (t: TorrentInfo)
    ensures
        t.metainfo@ == metainfo_of(name@, data@, texts(trackers@)),
        t.infohash@ == infohash_of(name@, data@),
        t.magnet@ == magnet_of(name@, data@, texts(trackers@)),
{
    let pieces = hash_pieces(data);
    let mut info = Bencoder::default();
    let len: usize = data.len();
    let ghost entries = info_entries(name@, data@);
    info.dict(
        |b: &mut Bencoder|
            ensures
                final(b)@ == old(b)@.add(entries)
            {
                b.str("length");
                b.length(len);
                b.str("name");
                b.str(name);
                b.str("piece length");
                b.integer(PIECE_LENGTH as i64);
                b.str("pieces");
                b.bytes(&pieces);
                assert(b@ =~= old(b)@ + info_entries(name@, data@));
            },
    );
    let info_bytes = info.finish();
    assert(info_bytes@ =~= info_dict(name@, data@));
    let infohash = hex_encode(&sha1_digest(&info_bytes));

    let mut top = Bencoder::default();
    top.raw(&[100u8]);
    let ghost ts = texts(trackers@);
    if trackers.len() > 0 {
        top.str("announce");
        top.str(trackers[0].as_str());
        top.str("announce-list");
        top.raw(&[108u8]);
        let ghost head = top@;
        let mut i: usize = 0;
        assert(head + tracker_tiers(ts.take(0)) =~= head);
        while i < trackers.len()
            invariant
                i <= trackers@.len(),
                ts == texts(trackers@),
                top@ == head + tracker_tiers(ts.take(i as int)),
            decreases trackers.len() - i,
        {
            top.raw(&[108u8]);
            top.str(trackers[i].as_str());
            top.raw(&[101u8]);
            i = i + 1;
            assert(ts.take(i as int).drop_last() =~= ts.take(i - 1));
            assert(top@ =~= head + tracker_tiers(ts.take(i as int)));
        }
        assert(ts.take(i as int) =~= ts);
        top.raw(&[101u8]);
    }
    assert(top@ =~= seq![100u8] + tracker_entries(ts));
    top.str("created by");
    top.str("pivss");
    top.str("info");
    top.raw(&info_bytes);
    top.raw(&[101u8]);
    let metainfo = top.finish();
    assert(metainfo@ =~= metainfo_of(name@, data@, ts));

    let mut magnet = "magnet:?xt=urn:btih:".to_owned();
    magnet.append(infohash.as_str());
    magnet.append("&dn=");
    magnet.append(urlencode(name).as_str());
    let ghost head = magnet@;
    let mut i: usize = 0;
    assert(head + magnet_trackers(ts.take(0)) =~= head);
    while i < trackers.len()
        invariant
            i <= trackers@.len(),
            ts == texts(trackers@),
            magnet@ == head + magnet_trackers(ts.take(i as int)),
        decreases trackers.len() - i,
    {
        magnet.append("&tr=");
        magnet.append(urlencode(trackers[i].as_str()).as_str());
        i = i + 1;
        assert(ts.take(i as int).drop_last() =~= ts.take(i - 1));
        assert(magnet@ =~= head + magnet_trackers(ts.take(i as int)));
    }
    assert(ts.take(i as int) =~= ts);
    TorrentInfo { metainfo, infohash, magnet }
}

// ---------------------------------------------------------------------------
// Laws
// ---------------------------------------------------------------------------

/// Piece `i` of a file.
pub open spec fn piece(data: Seq<u8>, i: int) -> Seq<u8> {
    data.subrange(
        i * PIECE_LENGTH,
        if (i + 1) * PIECE_LENGTH <= data.len() {
            (i + 1) * PIECE_LENGTH
        } else {
            data.len() as int
        },
    )
}

/// Whether two byte strings differ and have one SHA-1.
pub open spec fn sha1_collision(a: Seq<u8>, b: Seq<u8>) -> bool {
    a != b && sha1(a) == sha1(b)
}

/// A file has a hash of twenty bytes for each piece, and at least one piece.
pub proof fn law_hash_per_piece(data: Seq<u8>)
    ensures
        piece_hashes(data).len() == 20 * piece_count(data.len()),
        piece_count(data.len()) >= 1,
    decreases data.len(),
{
    if data.len() > PIECE_LENGTH {
        law_hash_per_piece(data.skip(PIECE_LENGTH as int));
    }
}

/// A bencoded byte string can be told from what follows it.
pub proof fn law_bencoded_bytes_delimited(a: Seq<u8>, x: Seq<u8>, b: Seq<u8>, y: Seq<u8>)
    requires
        ben_bytes(a) + x == ben_bytes(b) + y,
    ensures
        a == b,
        x == y,
{
    lemma_utf8_concat(decimal(a.len()), ":"@);
    lemma_utf8_concat(decimal(b.len()), ":"@);
    reveal_strlit(":");
    lemma_one_byte(":"@, 58u8);
    let colon = seq![58u8];
    assert(ben_bytes(a) + x =~= encode_utf8(decimal(a.len())) + (colon + a + x));
    assert(ben_bytes(b) + y =~= encode_utf8(decimal(b.len())) + (colon + b + y));
    lemma_decimal_bytes_delimited(a.len(), colon + a + x, b.len(), colon + b + y);
    lemma_concat_split(colon + a, x, colon + b, y);
    lemma_concat_split(colon, a, colon, b);
}

/// A bencoded natural number can be told from what follows it.
pub proof fn law_bencoded_length_delimited(m: nat, x: Seq<u8>, n: nat, y: Seq<u8>)
    requires
        ben_int(m as int) + x == ben_int(n as int) + y,
    ensures
        m == n,
        x == y,
{
    let i = encode_utf8("i"@);
    let e = seq![101u8];
    reveal_strlit("i");
    reveal_strlit("e");
    lemma_one_byte("i"@, 105u8);
    lemma_one_byte("e"@, 101u8);
    lemma_utf8_concat("i"@ + decimal(m), "e"@);
    lemma_utf8_concat("i"@ + decimal(n), "e"@);
    lemma_utf8_concat("i"@, decimal(m));
    lemma_utf8_concat("i"@, decimal(n));
    assert(ben_int(m as int) + x =~= i + (encode_utf8(decimal(m)) + (e + x)));
    assert(ben_int(n as int) + y =~= i + (encode_utf8(decimal(n)) + (e + y)));
    lemma_concat_split(
        i,
        encode_utf8(decimal(m)) + (e + x),
        i,
        encode_utf8(decimal(n)) + (e + y),
    );
    lemma_decimal_bytes_delimited(m, e + x, n, e + y);
    lemma_concat_split(e, x, e, y);
}

/// The encoding of one ASCII character.
proof fn lemma_one_byte(s: Seq<char>, b: u8)
    requires
        s.len() == 1,
        s[0] as int == b,
        b < 128,
    ensures
        encode_utf8(s) == seq![b],
{
    is_ascii_chars_encode_utf8(s);
    assert(encode_utf8(s) =~= seq![b]);
}

/// Two files of one length with the same piece hashes are the same, unless two
/// pieces collide.
proof fn lemma_same_pieces(a: Seq<u8>, b: Seq<u8>) -> (at: int)
    requires
        a.len() == b.len(),
        a != b,
        piece_hashes(a) == piece_hashes(b),
    ensures
        0 <= at < piece_count(a.len()),
        sha1_collision(piece(a, at), piece(b, at)),
    decreases a.len(),
{
    let p = PIECE_LENGTH as int;
    if a.len() <= p {
        assert(piece(a, 0) =~= a);
        assert(piece(b, 0) =~= b);
        lemma_same_array(sha1(a), sha1(b));
        0
    } else {
        let (a0, b0) = (a.take(p), b.take(p));
        let (a1, b1) = (a.skip(p), b.skip(p));
        lemma_concat_split(
            sha1(a0)@,
            piece_hashes(a1),
            sha1(b0)@,
            piece_hashes(b1),
        );
        if a0 != b0 {
            assert(piece(a, 0) =~= a0);
            assert(piece(b, 0) =~= b0);
            lemma_same_array(sha1(a0), sha1(b0));
            0
        } else {
            if a1 == b1 {
                assert(a =~= a0 + a1);
                assert(b =~= b0 + b1);
            }
            let at = lemma_same_pieces(a1, b1);
            assert(piece(a, at + 1) =~= piece(a1, at));
            assert(piece(b, at + 1) =~= piece(b1, at));
            at + 1
        }
    }
}

/// The entries of an info dictionary, grouped from the right.
proof fn lemma_regroup(
    d: Seq<u8>,
    k1: Seq<u8>,
    length: Seq<u8>,
    k2: Seq<u8>,
    name: Seq<u8>,
    k3: Seq<u8>,
    piece_length: Seq<u8>,
    k4: Seq<u8>,
    pieces: Seq<u8>,
    e: Seq<u8>,
)
    ensures
        d + (k1 + length + k2 + name + k3 + piece_length + k4 + pieces) + e == (d + k1) + (length
            + (k2 + (name + ((k3 + piece_length + k4) + (pieces + e))))),
{
    let whole = d + (k1 + length + k2 + name + k3 + piece_length + k4 + pieces) + e;
    let grouped = (d + k1) + (length + (k2 + (name + ((k3 + piece_length + k4) + (pieces + e)))));
    assert(whole =~= grouped);
}

/// An infohash stands for one name and one file: whoever has two that share one
/// has found two byte strings with one SHA-1, which are either the info
/// dictionaries or two pieces at the same place.
pub proof fn law_infohash_binds_file(
    name_a: Seq<char>,
    a: Seq<u8>,
    name_b: Seq<char>,
    b: Seq<u8>,
)
    requires
        infohash_of(name_a, a) == infohash_of(name_b, b),
        name_a != name_b || a != b,
    ensures
        sha1_collision(info_dict(name_a, a), info_dict(name_b, b)) || exists|i: int|
            0 <= i < piece_count(a.len()) && #[trigger] sha1_collision(piece(a, i), piece(b, i)),
{
    let (da, db) = (info_dict(name_a, a), info_dict(name_b, b));
    lemma_hex_injective(sha1(da)@, sha1(db)@);
    lemma_same_array(sha1(da), sha1(db));
    if da == db {
        let open = seq![100u8] + ben_str("length"@);
        let (e, name_key) = (seq![101u8], ben_str("name"@));
        let piece_key = ben_str("piece length"@) + ben_int(PIECE_LENGTH as int) + ben_str(
            "pieces"@,
        );
        let pieces_a = ben_bytes(piece_hashes(a)) + e;
        let pieces_b = ben_bytes(piece_hashes(b)) + e;
        let tail_a = ben_str(name_a) + (piece_key + pieces_a);
        let tail_b = ben_str(name_b) + (piece_key + pieces_b);
        lemma_regroup(
            seq![100u8],
            ben_str("length"@),
            ben_int(a.len() as int),
            name_key,
            ben_str(name_a),
            ben_str("piece length"@),
            ben_int(PIECE_LENGTH as int),
            ben_str("pieces"@),
            ben_bytes(piece_hashes(a)),
            e,
        );
        lemma_regroup(
            seq![100u8],
            ben_str("length"@),
            ben_int(b.len() as int),
            name_key,
            ben_str(name_b),
            ben_str("piece length"@),
            ben_int(PIECE_LENGTH as int),
            ben_str("pieces"@),
            ben_bytes(piece_hashes(b)),
            e,
        );
        lemma_concat_split(
            open,
            ben_int(a.len() as int) + (name_key + tail_a),
            open,
            ben_int(b.len() as int) + (name_key + tail_b),
        );
        law_bencoded_length_delimited(a.len(), name_key + tail_a, b.len(), name_key + tail_b);
        lemma_concat_split(name_key, tail_a, name_key, tail_b);
        law_bencoded_bytes_delimited(
            encode_utf8(name_a),
            piece_key + pieces_a,
            encode_utf8(name_b),
            piece_key + pieces_b,
        );
        lemma_utf8_injective(name_a, name_b);
        lemma_concat_split(piece_key, pieces_a, piece_key, pieces_b);
        law_bencoded_bytes_delimited(piece_hashes(a), e, piece_hashes(b), e);
        let at = lemma_same_pieces(a, b);
    }
}

/// A file is cut into the fewest pieces of 262144 bytes that hold it, and at least one: there are
/// twenty bytes of hashes for each.
pub proof fn law_fewest_pieces(data: Seq<u8>, pieces: nat)
    requires
        pieces >= 1,
        pieces * 262144 >= data.len(),
        pieces == 1 || (pieces - 1) * 262144 < data.len(),
    ensures
        piece_hashes(data).len() == 20 * pieces,
{
    law_hash_per_piece(data);
}

/// Every piece is hashed whole: the hash at its place is the SHA-1 of the 262144 bytes from where
/// it starts, or of what the file has of them.
pub proof fn law_hash_is_of_its_piece(data: Seq<u8>, i: int)
    requires
        0 <= i,
        i * 262144 < data.len() || i == 0,
    ensures
        20 * i + 20 <= piece_hashes(data).len(),
        piece_hashes(data).subrange(20 * i, 20 * i + 20) == sha1(
            data.subrange(
                i * 262144,
                if (i + 1) * 262144 <= data.len() {
                    (i + 1) * 262144
                } else {
                    data.len() as int
                },
            ),
        )@,
    decreases data.len(),
{
    let hashes = piece_hashes(data);
    if data.len() <= 262144 {
        assert(data.subrange(0, data.len() as int) =~= data);
        assert(hashes.subrange(0, 20) =~= sha1(data)@);
    } else {
        let (first, rest) = (data.take(262144), data.skip(262144));
        let tail = piece_hashes(rest);
        assert(hashes == sha1(first)@ + tail);
        if i == 0 {
            assert(data.subrange(0, 262144) =~= first);
            assert(hashes.subrange(0, 20) =~= sha1(first)@);
        } else {
            law_hash_is_of_its_piece(rest, i - 1);
            let (from, to) = (
                (i - 1) * 262144,
                if i * 262144 <= rest.len() {
                    i * 262144
                } else {
                    rest.len() as int
                },
            );
            assert(rest.subrange(from, to) =~= data.subrange(from + 262144, to + 262144));
            assert(hashes.subrange(20 * i, 20 * i + 20) =~= tail.subrange(
                20 * (i - 1),
                20 * (i - 1) + 20,
            ));
        }
    }
}

/// The infohash is that of the info dictionary in the .torrent file: the dictionary stands behind
/// the key `info` at its end, tells the length, the name and the hashes of the pieces of 262144
/// bytes, and its SHA-1 is the infohash.
pub proof fn law_infohash_of_metainfo(
    name: Seq<char>,
    data: Seq<u8>,
    trackers: Seq<Seq<char>>,
) -> (info: Seq<u8>)
    ensures
        info == seq![100u8] + ben_str("length"@) + ben_int(data.len() as int) + ben_str("name"@)
            + ben_str(name) + ben_str("piece length"@) + ben_int(262144) + ben_str("pieces"@)
            + ben_bytes(piece_hashes(data)) + seq![101u8],
        infohash_of(name, data) == to_hex(sha1(info)@),
        metainfo_of(name, data, trackers) == seq![100u8] + tracker_entries(trackers) + ben_str(
            "created by"@,
        ) + ben_str("pivss"@) + ben_str("info"@) + info + seq![101u8],
        trackers.len() == 0 ==> tracker_entries(trackers) == Seq::<u8>::empty(),
        trackers.len() > 0 ==> tracker_entries(trackers) == ben_str("announce"@) + ben_str(
            trackers[0],
        ) + ben_str("announce-list"@) + seq![108u8] + tracker_tiers(trackers) + seq![101u8],
{
    let info = info_dict(name, data);
    assert(info =~= seq![100u8] + ben_str("length"@) + ben_int(data.len() as int) + ben_str(
        "name"@,
    ) + ben_str(name) + ben_str("piece length"@) + ben_int(262144) + ben_str("pieces"@)
        + ben_bytes(piece_hashes(data)) + seq![101u8]);
    info
}

/// Every tracker is named: each has a tier of its own in the .torrent file, in their order, and a
/// parameter of its own in the magnet link.
pub proof fn law_every_tracker_named(trackers: Seq<Seq<char>>, tracker: Seq<char>)
    ensures
        tracker_tiers(Seq::empty()) == Seq::<u8>::empty(),
        tracker_tiers(trackers.push(tracker)) == tracker_tiers(trackers) + seq![108u8] + ben_str(
            tracker,
        ) + seq![101u8],
        magnet_trackers(Seq::empty()) == Seq::<char>::empty(),
        magnet_trackers(trackers.push(tracker)) == magnet_trackers(trackers) + "&tr="@ + url_text(
            tracker,
        ),
{
    assert(trackers.push(tracker).drop_last() =~= trackers);
}

/// A magnet link tells the infohash, the name and the trackers.
pub proof fn law_magnet_tells_infohash(
    name: Seq<char>,
    data: Seq<u8>,
    trackers: Seq<Seq<char>>,
)
    ensures
        magnet_of(name, data, trackers) == "magnet:?xt=urn:btih:"@ + infohash_of(name, data)
            + "&dn="@ + url_text(name) + magnet_trackers(trackers),
        infohash_of(name, data).len() == 40,
{
}

/// A byte in a URL stands for itself where it is a letter, a digit, `-`, `_`, `.` or `~`; any other
/// is a percent sign and the two hexadecimal digits that stand for it. A text is its bytes, one
/// after the other.
pub proof fn law_url_byte_stands_for_byte(bytes: Seq<u8>, b: u8)
    ensures
        url_bytes(Seq::empty()) == Seq::<char>::empty(),
        url_bytes(bytes.push(b)) == url_bytes(bytes) + url_byte(b),
        url_byte(b).len() == 1 <==> {
            ||| 'A' as int <= b <= 'Z' as int
            ||| 'a' as int <= b <= 'z' as int
            ||| '0' as int <= b <= '9' as int
            ||| b == '-' as int
            ||| b == '_' as int
            ||| b == '.' as int
            ||| b == '~' as int
        },
        url_byte(b).len() == 1 ==> url_byte(b)[0] as int == b,
        url_byte(b).len() != 1 ==> {
            &&& url_byte(b).len() == 3
            &&& url_byte(b)[0] == '%'
            &&& hex_value(url_byte(b)[1]) matches Some(high)
            &&& hex_value(url_byte(b)[2]) matches Some(low)
            &&& 16 * high + low == b
        },
{
    assert(bytes.push(b).drop_last() =~= bytes);
    assert(0 <= b as int / 16 < 16 && 0 <= b as int % 16 < 16);
}

} // verus!
