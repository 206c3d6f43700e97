use pivss::announce::{
    ack_verdict, build_announcement_event, publish, read_ack, relay_result, Ack, PublishOutcome,
};
use pivss::manifest::{BackupKind, ServiceAnnouncement};
use pivss::nostr::{client_publish_message, NostrKeys};

fn announcement() -> ServiceAnnouncement {
    ServiceAnnouncement {
        name: "test".to_string(),
        description: "d".to_string(),
        endpoint: "http://localhost:8339".to_string(),
        bolt12_offer: "lno1test".to_string(),
        price_sats_per_mib: 21,
        billing_period_secs: 86_400,
        max_backup_bytes: 1024,
        kinds: vec![BackupKind::Lightning],
        pivss_version: "0.1.0".to_string(),
    }
}

#[test]
fn announcements_have_their_tags() {
    let keys = NostrKeys::generate();
    let a = announcement();
    let ev = build_announcement_event(&keys, &a, 7);
    assert_eq!(ev.pubkey, keys.public_hex());
    assert_eq!(ev.created_at, 7);
    assert_eq!(ev.content, a.to_json());
    assert_eq!(
        ev.tags,
        vec![
            vec!["d", "pivss-service"],
            vec!["name", "test"],
            vec!["endpoint", "http://localhost:8339"],
            vec!["price_sats_per_mib", "21"],
            vec!["bolt12", "lno1test"],
            vec!["t", "pivss"],
            vec!["t", "backup"],
        ]
    );
}

#[test]
fn verdicts_of_relays() {
    let text = |s: &str| Some(s.to_string());
    assert_eq!(
        ack_verdict(text("OK"), Some(true), text("")),
        Some((true, String::new()))
    );
    assert_eq!(
        ack_verdict(text("OK"), Some(false), text("blocked")),
        Some((false, "blocked".to_string()))
    );
    // Without a verdict the event is refused.
    assert_eq!(ack_verdict(text("OK"), None, None), Some((false, String::new())));
    assert_eq!(ack_verdict(text("NOTICE"), Some(true), None), None);
    assert_eq!(ack_verdict(None, Some(true), None), None);
}

#[test]
fn messages_of_relays() {
    assert!(matches!(
        read_ack(r#"["OK","id",true,"saved"]"#),
        Ack::Verdict(true, d) if d == "saved"
    ));
    assert!(matches!(
        read_ack(r#"["OK","id",false,"blocked: no"]"#),
        Ack::Verdict(false, d) if d == "blocked: no"
    ));
    assert!(matches!(read_ack(r#"["OK","id"]"#), Ack::Verdict(false, d) if d.is_empty()));
    assert!(matches!(read_ack(r#"["NOTICE","hello"]"#), Ack::Nothing));
    assert!(matches!(read_ack(r#"{"a":1}"#), Ack::Nothing));
    assert!(matches!(read_ack("no json"), Ack::Malformed(_)));
}

#[test]
fn results_of_relays() {
    let r = relay_result("r", PublishOutcome::Verdict(true, String::new()));
    assert_eq!((r.relay.as_str(), r.ok, r.detail.as_str()), ("r", true, "accepted"));
    let r = relay_result("r", PublishOutcome::Verdict(false, "why".to_string()));
    assert_eq!((r.ok, r.detail.as_str()), (false, "why"));
    let r = relay_result("r", PublishOutcome::Failed("no route".to_string()));
    assert_eq!((r.ok, r.detail.as_str()), (false, "no route"));
    let r = relay_result("r", PublishOutcome::Closed);
    assert_eq!((r.ok, r.detail.as_str()), (false, "relay closed connection without OK"));
    let r = relay_result("r", PublishOutcome::TimedOut);
    assert_eq!((r.ok, r.detail.as_str()), (false, "timeout"));
}

#[test]
fn an_event_is_sent_to_every_relay() {
    let ev = build_announcement_event(&NostrKeys::generate(), &announcement(), 7);
    let want = client_publish_message(&ev);
    let relays = vec!["a".to_string(), "b".to_string(), "c".to_string()];
    let results = publish(&ev, &relays, |relay: &String, message: &String| {
        assert_eq!(*message, want);
        match relay.as_str() {
            "a" => PublishOutcome::Verdict(true, "saved".to_string()),
            "b" => PublishOutcome::Closed,
            _ => PublishOutcome::TimedOut,
        }
    });
    let told: Vec<(&str, bool)> = results.iter().map(|r| (r.relay.as_str(), r.ok)).collect();
    assert_eq!(told, vec![("a", true), ("b", false), ("c", false)]);
    assert!(publish(&ev, &vec![], |_: &String, _: &String| PublishOutcome::Closed).is_empty());
}
