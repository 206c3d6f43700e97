use pivss::nostr::{
    client_close_message, client_publish_message, client_query_message, pubkey_hex_to_npub,
    verify_event, Event, KeyError, NostrKeys, SERVICE_ANNOUNCEMENT_KIND,
};

fn one() -> NostrKeys {
    NostrKeys::from_secret_hex(&format!("{}01", "00".repeat(31))).unwrap()
}

const G: &str = "79be667ef9dcbbac55a06295ce870b07029bfcdb2dce28d959f2815b16f81798";

#[test]
fn sign_and_verify_roundtrip() {
    let keys = NostrKeys::generate();
    let ev = keys.sign_event(
        SERVICE_ANNOUNCEMENT_KIND,
        r#"{"name":"pivss test"}"#,
        vec![vec!["d".into(), "pivss".into()]],
        1_700_000_000,
    );
    assert!(verify_event(&ev));
    assert!(keys.npub().starts_with("npub1"));
}

#[test]
fn tampered_content_fails_verification() {
    let keys = NostrKeys::generate();
    let mut ev = keys.sign_event(1, "hello", vec![], 1_700_000_000);
    ev.content = "evil".into();
    assert!(!verify_event(&ev));
}

#[test]
fn secret_key_roundtrip() {
    let keys = NostrKeys::generate();
    let restored = NostrKeys::from_secret_hex(&keys.secret_hex()).unwrap();
    assert_eq!(keys.public_hex(), restored.public_hex());
}

#[test]
fn pubkey_npub_matches_keypair_npub() {
    let keys = NostrKeys::generate();
    assert_eq!(pubkey_hex_to_npub(&keys.public_hex()).unwrap(), keys.npub());
}

#[test]
fn query_message_shape() {
    let msg = client_query_message("sub1", &[SERVICE_ANNOUNCEMENT_KIND]);
    let parsed: serde_json::Value = serde_json::from_str(&msg).unwrap();
    assert_eq!(parsed[0], "REQ");
    assert_eq!(parsed[1], "sub1");
    assert_eq!(parsed[2]["kinds"][0], SERVICE_ANNOUNCEMENT_KIND);
}

#[test]
fn known_key_gives_known_texts() {
    let keys = one();
    assert_eq!(keys.public_hex(), G);
    assert_eq!(
        keys.npub(),
        "npub10xlxvlhemja6c4dqv22uapctqupfhlxm9h8z3k2e72q4k9hcz7vqpkge6d"
    );
    assert_eq!(keys.secret_hex(), format!("{}01", "00".repeat(31)));
    assert_eq!(keys.clone().public_hex(), G);
}

#[test]
fn event_id_is_the_digest_of_the_signed_text() {
    let ev = one().sign_event(
        1,
        "line\nüñ\u{1}",
        vec![vec!["d".to_string(), "x\"y".to_string()]],
        1_700_000_000,
    );
    assert_eq!(
        ev.id,
        "22d679951fabf4a2553ee9325e68ff4da4fda8d0dab39676a3406e5c7a5d0fca"
    );
    assert_eq!(ev.pubkey, G);
    assert_eq!(ev.kind, 1);
    assert_eq!(ev.created_at, 1_700_000_000);
    assert_eq!(ev.sig.len(), 128);
    assert!(verify_event(&ev));
    assert!(verify_event(&ev.clone()));
}

#[test]
fn every_tampered_field_fails() {
    let ev = one().sign_event(7, "c", vec![vec!["a".to_string(), "b".to_string()]], 5);
    let mut e = ev.clone();
    e.kind = 8;
    assert!(!verify_event(&e));
    let mut e = ev.clone();
    e.created_at = 6;
    assert!(!verify_event(&e));
    let mut e = ev.clone();
    e.tags = vec![vec!["a".to_string()], vec!["b".to_string()]];
    assert!(!verify_event(&e));
    let mut e = ev.clone();
    e.pubkey = NostrKeys::generate().public_hex();
    assert!(!verify_event(&e));
    let mut e = ev.clone();
    e.id = "00".repeat(32);
    assert!(!verify_event(&e));
    let mut e = ev.clone();
    e.sig = one().sign_event(7, "d", vec![], 5).sig;
    assert!(!verify_event(&e));
    let mut e = ev.clone();
    e.sig = "zz".to_string();
    assert!(!verify_event(&e));
    let mut e = ev.clone();
    e.sig = "00".to_string();
    assert!(!verify_event(&e));
}

#[test]
fn bad_secret_keys_are_refused() {
    let odd = || KeyError::NotHex("Odd number of digits".to_string());
    assert_eq!(NostrKeys::from_secret_hex("xyz").err(), Some(odd()));
    assert_eq!(NostrKeys::from_secret_hex("abc").err(), Some(odd()));
    assert_eq!(
        NostrKeys::from_secret_hex("a\tbc").err().unwrap().to_string(),
        "Invalid character '\\t' at position 1"
    );
    assert!(matches!(NostrKeys::from_secret_hex("ab"), Err(KeyError::NotASecretKey)));
    assert!(matches!(
        NostrKeys::from_secret_hex(&"00".repeat(32)),
        Err(KeyError::NotASecretKey)
    ));
    // The order of the group, and the number below it.
    let n = "fffffffffffffffffffffffffffffffebaaedce6af48a03bbfd25e8cd0364141";
    assert!(matches!(NostrKeys::from_secret_hex(n), Err(KeyError::NotASecretKey)));
    let below = "fffffffffffffffffffffffffffffffebaaedce6af48a03bbfd25e8cd0364140";
    assert!(NostrKeys::from_secret_hex(below).is_ok());
    assert_eq!(odd().to_string(), "Odd number of digits");
    assert_eq!(
        KeyError::NotASecretKey.to_string(),
        "malformed or out-of-range secret key"
    );
    assert_eq!(KeyError::TooLong.to_string(), "encode error");
}

#[test]
fn npub_of_other_lengths() {
    assert_eq!(
        pubkey_hex_to_npub("zz"),
        Err(KeyError::NotHex("Invalid character 'z' at position 0".to_string()))
    );
    assert_eq!(pubkey_hex_to_npub("").unwrap().len(), 11);
    // 1023 characters are the most that a bech32 text may have.
    assert_eq!(pubkey_hex_to_npub(&"00".repeat(632)).unwrap().len(), 1023);
    assert_eq!(pubkey_hex_to_npub(&"00".repeat(633)), Err(KeyError::TooLong));
}

#[test]
fn messages_are_exact() {
    let ev = Event {
        id: "i".to_string(),
        pubkey: "p".to_string(),
        created_at: 3,
        kind: 38831,
        tags: vec![vec!["d".to_string(), "x".to_string()], vec![]],
        content: "a\"b\\c\t".to_string(),
        sig: "s".to_string(),
    };
    assert_eq!(
        client_publish_message(&ev),
        r#"["EVENT",{"content":"a\"b\\c\t","created_at":3,"id":"i","kind":38831,"pubkey":"p","sig":"s","tags":[["d","x"],[]]}]"#
    );
    assert_eq!(
        client_query_message("s", &[1, 22]),
        r#"["REQ","s",{"kinds":[1,22]}]"#
    );
    assert_eq!(client_query_message("s", &[]), r#"["REQ","s",{"kinds":[]}]"#);
    assert_eq!(client_close_message("s"), r#"["CLOSE","s"]"#);
}
