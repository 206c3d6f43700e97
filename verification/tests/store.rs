use pivss::proto::{
    ErrorResponse, GetObjectRequest, GetObjectResponse, KeyValue, ListKeyVersionsRequest,
    ListKeyVersionsResponse, Message, PutObjectRequest, PutObjectResponse,
};
use pivss::store::{
    text_less, vss_auth_header, vss_auth_header_at, Listing, MemoryStore, SigningKey, StoreError,
    VersionedStore, VssHttpStore, VssReply, VssRequest, VSS_SIGNING_CONSTANT,
};
use secp256k1::{PublicKey, Secp256k1, SecretKey};
use sha2::{Digest, Sha256};
use std::cell::RefCell;

#[test]
fn memory_store_versioning_semantics() {
    let mut s = MemoryStore::default();
    // first write must use version 0
    assert!(matches!(
        s.put("k", 5, b"x".to_vec()),
        Err(StoreError::Conflict(_))
    ));
    assert_eq!(s.put("k", 0, b"v1".to_vec()).unwrap(), 1);
    // conditional write with stale version conflicts
    assert!(matches!(
        s.put("k", 0, b"v2".to_vec()),
        Err(StoreError::Conflict(_))
    ));
    assert_eq!(s.put("k", 1, b"v2".to_vec()).unwrap(), 2);
    // non-conditional write resets to 1
    assert_eq!(s.put("k", -1, b"v3".to_vec()).unwrap(), 1);
    let kv = s.get("k").unwrap().unwrap();
    assert_eq!(kv.value, b"v3");

    s.put("prefix/a", 0, b"1".to_vec()).unwrap();
    s.put("prefix/b", 0, b"2".to_vec()).unwrap();
    let listed = s.list("prefix/").unwrap();
    assert_eq!(listed.len(), 2);
    assert!(listed.iter().all(|kv| kv.value.is_empty()));
}

#[test]
fn listings_are_in_order() {
    let mut s = MemoryStore::default();
    for key in ["b", "a/2", "a/10", "ä", "a", "", "a/1", "z"] {
        s.put(key, 0, key.as_bytes().to_vec()).unwrap();
    }
    s.put("a", 1, b"again".to_vec()).unwrap();
    let keys: Vec<String> = s.list("").unwrap().into_iter().map(|kv| kv.key).collect();
    assert_eq!(keys, vec!["", "a", "a/1", "a/10", "a/2", "b", "z", "ä"]);
    let listed = s.list("a").unwrap();
    let versions: Vec<i64> = listed.iter().map(|kv| kv.version).collect();
    assert_eq!(versions, vec![2, 1, 1, 1]);
    assert!(s.list("a/3").unwrap().is_empty());
    assert_eq!(s.get("a/10").unwrap().unwrap().value, b"a/10");
    assert!(s.get("c").unwrap().is_none());
    assert_eq!(s.backend_name(), "memory");
}

#[test]
fn texts_are_ordered_as_their_bytes() {
    let texts = ["", "a", "a/", "ab", "b", "~", "ä", "\u{ffff}", "\u{10000}"];
    for (i, a) in texts.iter().enumerate() {
        for (j, b) in texts.iter().enumerate() {
            assert_eq!(text_less(a, b), i < j);
            assert_eq!(text_less(a, b), a.as_bytes() < b.as_bytes());
        }
    }
}

#[test]
fn store_errors_in_words() {
    assert_eq!(
        StoreError::Conflict("k".to_string()).to_string(),
        "version conflict on key k"
    );
    assert_eq!(StoreError::NoSuchKey("k".to_string()).to_string(), "no such key: k");
    assert_eq!(
        StoreError::Backend("down".to_string()).to_string(),
        "storage backend error: down"
    );
}

/// Checks an `Authorization` header as a VSS server does, and returns the public key
/// that it is of.
fn server_side_verify(header: &str) -> Result<String, &'static str> {
    if header.len() <= (33 + 64) * 2 || !header.is_ascii() {
        return Err("bad length/chars");
    }
    let pubkey_hex = &header[..33 * 2];
    let sig_hex = &header[33 * 2..(33 + 64) * 2];
    let time_str = &header[(33 + 64) * 2..];

    let pubkey_bytes = hex::decode(pubkey_hex).map_err(|_| "pubkey not hex")?;
    let sig_bytes = hex::decode(sig_hex).map_err(|_| "sig not hex")?;
    let pubkey = PublicKey::from_slice(&pubkey_bytes).map_err(|_| "bad pubkey")?;
    let sig = secp256k1::ecdsa::Signature::from_compact(&sig_bytes).map_err(|_| "bad sig")?;

    let mut h = Sha256::new();
    h.update(VSS_SIGNING_CONSTANT);
    h.update(&pubkey_bytes);
    h.update(time_str.as_bytes());
    let digest: [u8; 32] = h.finalize().into();
    let msg = secp256k1::Message::from_digest(digest);

    Secp256k1::verification_only()
        .verify_ecdsa(&msg, &sig, &pubkey)
        .map_err(|_| "signature invalid")?;
    Ok(pubkey_hex.to_string())
}

fn key(byte: u8) -> SigningKey {
    SigningKey::from_secret_hex(&hex::encode([byte; 32])).unwrap()
}

#[test]
fn vss_auth_header_verifies_like_the_server() {
    let sk = SecretKey::from_slice(&[42u8; 32]).unwrap();
    let header = vss_auth_header(&key(42));

    // The server accepts it, and attributes it to our pubkey.
    let expected_pk = hex::encode(PublicKey::from_secret_key(&Secp256k1::new(), &sk).serialize());
    assert_eq!(server_side_verify(&header).unwrap(), expected_pk);

    // A tampered signature byte is rejected.
    let mut bad = header.clone().into_bytes();
    let i = 33 * 2 + 5; // inside the signature region
    bad[i] = if bad[i] == b'0' { b'1' } else { b'0' };
    assert!(server_side_verify(&String::from_utf8(bad).unwrap()).is_err());

    // A different key produces a header attributed to that other key.
    let sk2 = SecretKey::from_slice(&[7u8; 32]).unwrap();
    let pk2 = hex::encode(PublicKey::from_secret_key(&Secp256k1::new(), &sk2).serialize());
    assert_eq!(server_side_verify(&vss_auth_header(&key(7))).unwrap(), pk2);
}

#[test]
fn auth_header_ends_in_the_time() {
    assert_eq!(VSS_SIGNING_CONSTANT.len(), 64);
    let header = vss_auth_header_at(&key(42), 1_700_000_000);
    assert_eq!(&header[194..], "1700000000");
    assert!(server_side_verify(&header).is_ok());
    // The signature is of the time too.
    let other = format!("{}{}", &header[..194], "1700000001");
    assert!(server_side_verify(&other).is_err());
    // The same key at the same time signs the same.
    assert_eq!(header, vss_auth_header_at(&key(42), 1_700_000_000));
    assert_eq!(key(42).secret_hex(), hex::encode([42u8; 32]));
    assert_eq!(SigningKey::generate().secret_hex().len(), 64);
}

fn reply(status: u16, body: Vec<u8>) -> VssReply {
    VssReply { status, status_text: format!("{status} Whatever"), body }
}

fn failed(code: i32, message: &str) -> VssReply {
    reply(
        400,
        ErrorResponse { error_code: code, message: message.to_string() }.encode_to_vec(),
    )
}

fn item(key: &str, version: i64) -> KeyValue {
    KeyValue { key: key.to_string(), version, value: vec![] }
}

fn vss<F: Fn(&VssRequest) -> Result<VssReply, String>>(send: F) -> VssHttpStore<F> {
    VssHttpStore::new("http://localhost:8080/vss//", "pivss", key(42), send)
}

fn page(items: Vec<KeyValue>, token: Option<&str>) -> VssReply {
    reply(
        200,
        ListKeyVersionsResponse {
            key_versions: items,
            next_page_token: token.map(str::to_string),
            global_version: None,
        }
        .encode_to_vec(),
    )
}

#[test]
fn vss_reads() {
    let s = vss(|req: &VssRequest| {
        assert_eq!(req.url, "http://localhost:8080/vss/getObject");
        assert_eq!(req.content_type, "application/octet-stream");
        assert!(server_side_verify(&req.authorization).is_ok());
        let body = GetObjectRequest::decode(&req.body).unwrap();
        assert_eq!(body.store_id, "pivss");
        match body.key.as_str() {
            "down" => Err("connection refused".to_string()),
            "gone" => Ok(failed(4, "gone")),
            key => Ok(reply(
                200,
                GetObjectResponse { value: Some(item(key, 2)) }.encode_to_vec(),
            )),
        }
    });
    assert_eq!(s.get("k/1").unwrap(), Some(item("k/1", 2)));
    // A key that the server does not know is no error.
    assert_eq!(s.get("gone").unwrap(), None);
    assert!(matches!(
        s.get("down"),
        Err(StoreError::Backend(m)) if m == "connection refused"
    ));
    assert_eq!(s.backend_name(), "vss");
}

#[test]
fn vss_replies_to_reads() {
    let s = vss(|_: &VssRequest| Err(String::new()));
    assert_eq!(s.get_reply(&reply(299, vec![])).unwrap(), None);
    assert!(matches!(
        s.get_reply(&failed(1, "k")),
        Err(StoreError::Conflict(m)) if m == "k"
    ));
    assert!(matches!(
        s.get_reply(&failed(5, "who?")),
        Err(StoreError::Backend(m)) if m == "vss error 5: who?"
    ));
    assert!(matches!(
        s.get_reply(&failed(-1, "")),
        Err(StoreError::Backend(m)) if m == "vss error -1: "
    ));
    assert!(matches!(
        s.get_reply(&reply(502, vec![0x80])),
        Err(StoreError::Backend(m)) if m == "vss http 502 Whatever"
    ));
    assert!(matches!(
        s.get_reply(&reply(200, vec![0x80])),
        Err(StoreError::Backend(m)) if m == "failed to decode Protobuf message: invalid varint"
    ));
}

#[test]
fn vss_writes() {
    let mut s = vss(|req: &VssRequest| {
        assert_eq!(req.url, "http://localhost:8080/vss/putObjects");
        let body = PutObjectRequest::decode(&req.body).unwrap();
        assert_eq!(body.store_id, "pivss");
        assert_eq!(body.global_version, None);
        assert_eq!(body.transaction_items.len(), 1);
        assert!(body.delete_items.is_empty());
        let kv = &body.transaction_items[0];
        assert_eq!(kv.key, "k");
        match kv.version {
            2 => Ok(failed(1, "k")),
            3 => Ok(failed(4, "k")),
            4 => Err("connection refused".to_string()),
            _ => {
                assert_eq!(kv.value, b"v");
                Ok(reply(200, PutObjectResponse {}.encode_to_vec()))
            }
        }
    });
    assert_eq!(s.put("k", 0, b"v".to_vec()).unwrap(), 1);
    assert_eq!(s.put("k", 7, b"v".to_vec()).unwrap(), 8);
    assert_eq!(s.put("k", -1, b"v".to_vec()).unwrap(), 1);
    assert!(matches!(
        s.put("k", 2, b"v".to_vec()),
        Err(StoreError::Conflict(m)) if m == "k"
    ));
    assert!(matches!(
        s.put("k", 3, b"v".to_vec()),
        Err(StoreError::NoSuchKey(m)) if m == "k"
    ));
    assert!(matches!(
        s.put("k", 4, b"v".to_vec()),
        Err(StoreError::Backend(m)) if m == "connection refused"
    ));
    assert!(s.put_reply(0, &reply(500, vec![])).is_err());
}

#[test]
fn vss_listings_go_on_by_token() {
    let asked: RefCell<Vec<Option<String>>> = RefCell::new(vec![]);
    let s = vss(|req: &VssRequest| {
        assert_eq!(req.url, "http://localhost:8080/vss/listKeyVersions");
        let body = ListKeyVersionsRequest::decode(&req.body).unwrap();
        assert_eq!(body.store_id, "pivss");
        assert_eq!(body.key_prefix, Some("backups/".to_string()));
        assert_eq!(body.page_size, Some(500));
        let next = body.page_token.clone();
        asked.borrow_mut().push(body.page_token);
        match next.as_deref() {
            None => Ok(page(vec![item("a", 1)], Some("t"))),
            Some("t") => Ok(page(vec![], Some("u"))),
            _ => Ok(page(vec![item("b", 2), item("c", 3)], Some(""))),
        }
    });
    assert_eq!(
        s.list("backups/").unwrap(),
        vec![item("a", 1), item("b", 2), item("c", 3)]
    );
    assert_eq!(
        *asked.borrow(),
        vec![None, Some("t".to_string()), Some("u".to_string())]
    );
}

#[test]
fn vss_listings_fail_as_their_pages_do() {
    let s = vss(|req: &VssRequest| {
        let body = ListKeyVersionsRequest::decode(&req.body).unwrap();
        match body.page_token {
            None => Ok(page(vec![item("a", 1)], Some("t"))),
            Some(_) if body.key_prefix == Some("x".to_string()) => Ok(failed(3, "no")),
            Some(_) => Err("connection refused".to_string()),
        }
    });
    assert!(matches!(
        s.list("x"),
        Err(StoreError::Backend(m)) if m == "vss error 3: no"
    ));
    assert!(matches!(
        s.list("y"),
        Err(StoreError::Backend(m)) if m == "connection refused"
    ));
    let start = Listing { listed: vec![item("a", 1)], page_token: None, done: false };
    let l = s.list_reply(start, &page(vec![item("b", 1)], None)).unwrap();
    assert!(l.done);
    assert_eq!(l.listed, vec![item("a", 1), item("b", 1)]);
}
