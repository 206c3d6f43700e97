use pivss::torrent::{create_torrent, urlencode, Bencoder, PIECE_LENGTH};

#[test]
fn torrent_is_deterministic_and_wellformed() {
    let data = b"pivss test backup payload".repeat(1000);
    let t1 = create_torrent("backup.json", &data, &vec![]);
    let t2 = create_torrent("backup.json", &data, &vec![]);
    assert_eq!(t1.infohash, t2.infohash);
    assert_eq!(t1.infohash.len(), 40);
    assert!(t1.magnet.starts_with("magnet:?xt=urn:btih:"));
    // bencode sanity: dict wrapper and an info dict with our name inside
    assert_eq!(t1.metainfo.first(), Some(&b'd'));
    assert_eq!(t1.metainfo.last(), Some(&b'e'));
    let hay = String::from_utf8_lossy(&t1.metainfo).into_owned();
    assert!(hay.contains("4:infod"));
    assert!(hay.contains("11:backup.json"));
}

#[test]
fn tracker_lands_in_metainfo_and_magnet() {
    let t = create_torrent(
        "f.bin",
        b"x",
        &vec!["udp://tracker.example.com:6969".to_string()],
    );
    let hay = String::from_utf8_lossy(&t.metainfo).into_owned();
    assert!(hay.contains("8:announce30:udp://tracker.example.com:6969"));
    assert!(t
        .magnet
        .contains("&tr=udp%3A%2F%2Ftracker.example.com%3A6969"));
}

#[test]
fn multi_piece_hashes() {
    let data = vec![7u8; PIECE_LENGTH * 2 + 100]; // 3 pieces
    let t = create_torrent("big.bin", &data, &vec![]);
    let hay = t.metainfo;
    // "pieces" value is 3 * 20 bytes => length prefix "60:"
    let needle = b"6:pieces60:";
    assert!(hay.windows(needle.len()).any(|w| w == needle.as_slice()));
}

#[test]
fn infohashes_are_exact() {
    assert_eq!(
        create_torrent("f.bin", b"x", &vec![]).infohash,
        "de332b3dc9b4b572c6543818b4c74420588c59aa"
    );
    assert_eq!(
        create_torrent("empty", b"", &vec![]).infohash,
        "7f54ba92147bfc87657e649a95b3ed999a109c05"
    );
    let data = vec![7u8; PIECE_LENGTH * 2 + 100];
    assert_eq!(
        create_torrent("big.bin", &data, &vec![]).infohash,
        "34af997a495c515fa42ea9e76f6eecbc130e6602"
    );
}

#[test]
fn trackers_do_not_change_the_infohash() {
    let trackers = vec!["udp://a".to_string(), "udp://b".to_string()];
    let with = create_torrent("f.bin", b"x", &trackers);
    let without = create_torrent("f.bin", b"x", &vec![]);
    assert_eq!(with.infohash, without.infohash);
    assert_eq!(
        with.magnet,
        "magnet:?xt=urn:btih:de332b3dc9b4b572c6543818b4c74420588c59aa&dn=f.bin&tr=udp%3A%2F%2Fa&tr=udp%3A%2F%2Fb"
    );
    let head = b"d8:announce7:udp://a13:announce-listll7:udp://ael7:udp://bee10:created by5:pivss4:infod6:lengthi1e4:name5:f.bin12:piece lengthi262144e6:pieces20:";
    assert_eq!(&with.metainfo[..head.len()], head.as_slice());
    assert_eq!(&without.metainfo[..34], b"d10:created by5:pivss4:infod6:leng".as_slice());
}

#[test]
fn another_name_or_another_byte_gives_another_infohash() {
    let a = create_torrent("a", b"payload", &vec![]);
    assert_ne!(a.infohash, create_torrent("b", b"payload", &vec![]).infohash);
    assert_ne!(a.infohash, create_torrent("a", b"payloae", &vec![]).infohash);
    assert_ne!(a.infohash, create_torrent("a", b"payload.", &vec![]).infohash);
}

#[test]
fn bencoding_is_exact() {
    let mut b = Bencoder::default();
    b.dict(|b| {
        b.str("a");
        b.integer(-42);
        b.str("b");
        b.bytes(&[0, 255]);
    });
    b.integer(0);
    b.integer(i64::MIN);
    b.str("ü");
    assert_eq!(
        b.finish(),
        b"d1:ai-42e1:b2:\x00\xffei0ei-9223372036854775808e2:\xc3\xbc".to_vec()
    );
}

#[test]
fn url_encoding_is_exact() {
    assert_eq!(urlencode("aZ09-_.~"), "aZ09-_.~");
    assert_eq!(urlencode("a b/ü"), "a%20b%2F%C3%BC");
    assert_eq!(urlencode(""), "");
}
