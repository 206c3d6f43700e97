use pivss::announce::build_announcement_event;
use pivss::discover::{
    discover_close_message, discover_message, discover_providers, list_providers, sight, sight_all,
    take_frame, take_text, Sighting,
};
use pivss::manifest::{BackupKind, ServiceAnnouncement};
use pivss::nostr::{Event, NostrKeys};
use pivss::order::descending_order;
use serde_json::Value;

fn announcement(name: &str, price: u64) -> ServiceAnnouncement {
    ServiceAnnouncement {
        name: name.to_string(),
        description: String::new(),
        endpoint: String::new(),
        bolt12_offer: String::new(),
        price_sats_per_mib: price,
        billing_period_secs: 1,
        max_backup_bytes: 2,
        kinds: vec![BackupKind::Other],
        pivss_version: "0.1.0".to_string(),
    }
}

fn event(keys: &NostrKeys, name: &str, price: u64, at: u64) -> Event {
    build_announcement_event(keys, &announcement(name, price), at)
}

fn read(content: &String) -> Option<ServiceAnnouncement> {
    let v: Value = serde_json::from_str(content).ok()?;
    Some(announcement(v["name"].as_str()?, v["price_sats_per_mib"].as_u64()?))
}

#[test]
fn providers_are_found() {
    let (a, b, c) = (NostrKeys::generate(), NostrKeys::generate(), NostrKeys::generate());
    let mut forged = event(&c, "c", 1, 9);
    forged.content = announcement("c", 0).to_json();
    let relays: Vec<String> =
        ["r1", "r2", "down", "r3"].iter().map(|s| s.to_string()).collect();
    let found = discover_providers(
        &relays,
        &|relay: &String| match relay.as_str() {
            "r1" => Some(vec![event(&a, "a old", 1, 5), event(&b, "b", 7, 5)]),
            "r2" => Some(vec![event(&a, "a new", 30, 6), forged.clone()]),
            "r3" => Some(vec![event(&a, "a older", 2, 4)]),
            _ => None,
        },
        &read,
    );
    // The forged one does not show up, the newest of the others does, the cheapest first.
    assert_eq!(found.len(), 2);
    assert_eq!(found[0].announcement.name, "b");
    assert_eq!(found[0].pubkey, b.public_hex());
    assert_eq!(found[0].npub, b.npub());
    assert_eq!(found[0].seen_on, vec!["r1"]);
    assert_eq!(found[1].announcement.name, "a new");
    assert_eq!(found[1].created_at, 6);
    assert_eq!(found[1].seen_on, vec!["r1", "r2", "r3"]);
}

#[test]
fn an_announcement_that_cannot_be_read_is_passed_over() {
    let keys = NostrKeys::generate();
    let ev = keys.sign_event(38383, "no json", vec![], 1);
    let mut seen: Vec<Sighting> = vec![];
    sight(&mut seen, "r", ev);
    assert_eq!(seen.len(), 1);
    assert!(list_providers(seen, &read).is_empty());
}

#[test]
fn the_first_of_equally_new_announcements_stays() {
    let keys = NostrKeys::generate();
    let mut seen: Vec<Sighting> = vec![];
    sight_all(
        &mut seen,
        "r",
        vec![event(&keys, "one", 1, 5), event(&keys, "two", 1, 5)],
    );
    assert_eq!(seen.len(), 1);
    assert_eq!(seen[0].seen_on, vec!["r", "r"]);
    assert_eq!(list_providers(seen, &read)[0].announcement.name, "one");
}

#[test]
fn frames_of_a_relay() {
    let ev = event(&NostrKeys::generate(), "a", 1, 1);
    let kind = |s: &str| Some(s.to_string());
    let mut events: Vec<Event> = vec![];
    assert!(!take_frame(&mut events, &kind("EVENT"), Some(ev.clone())));
    assert_eq!(events.len(), 1);
    assert!(!take_frame(&mut events, &kind("EVENT"), None));
    assert!(!take_frame(&mut events, &kind("NOTICE"), Some(ev.clone())));
    assert!(!take_frame(&mut events, &None, Some(ev)));
    assert!(take_frame(&mut events, &kind("EOSE"), None));
    assert_eq!(events.len(), 1);
}

#[test]
fn texts_of_a_relay() {
    let ev = event(&NostrKeys::generate(), "a", 1, 1);
    let mut events: Vec<Event> = vec![];
    let mut take = |text: &str, ev: Option<&Event>| take_text(&mut events, text, ev.cloned());
    assert_eq!(take(r#"["EVENT","pivss-discover",{}]"#, Some(&ev)), Ok(false));
    assert_eq!(take(r#"["EVENT","pivss-discover",{}]"#, None), Ok(false));
    assert_eq!(take(r#"["NOTICE","slow down"]"#, Some(&ev)), Ok(false));
    assert_eq!(take(r#"{"EVENT":1}"#, Some(&ev)), Ok(false));
    assert_eq!(take(r#"["EOSE","pivss-discover"]"#, None), Ok(true));
    assert_eq!(
        take("EOSE", Some(&ev)),
        Err("expected value at line 1 column 1".to_string())
    );
    assert_eq!(events.len(), 1);
    assert_eq!(events[0].id, ev.id);
}

#[test]
fn every_valid_author_is_listed() {
    let (a, b) = (NostrKeys::generate(), NostrKeys::generate());
    let mut forged = event(&a, "forged", 1, 99);
    forged.content = "{}".to_string();
    let relays = vec!["one".to_string(), "two".to_string(), "three".to_string()];
    let query = |relay: &String| match relay.as_str() {
        "one" => Some(vec![event(&a, "old", 9, 1), forged.clone()]),
        "two" => None,
        _ => Some(vec![event(&b, "cheap", 3, 1), event(&a, "new", 7, 2)]),
    };
    let found = discover_providers(&relays, &query, &read);
    let told: Vec<(&str, &str, u64)> = found
        .iter()
        .map(|p| (p.pubkey.as_str(), p.announcement.name.as_str(), p.created_at))
        .collect();
    let (pa, pb) = (a.public_hex(), b.public_hex());
    assert_eq!(told, vec![(pb.as_str(), "cheap", 1), (pa.as_str(), "new", 2)]);
    assert_eq!(found[0].seen_on, vec!["three"]);
    assert_eq!(found[1].seen_on, vec!["one", "three"]);
    assert!(found.iter().all(|p| p.npub.len() == 63));
}

#[test]
fn relays_are_asked_for_announcements() {
    let v: Value = serde_json::from_str(&discover_message()).unwrap();
    assert_eq!(v[0], "REQ");
    assert_eq!(v[1], "pivss-discover");
    assert_eq!(v[2]["kinds"][0], pivss::nostr::SERVICE_ANNOUNCEMENT_KIND);
    assert_eq!(discover_close_message(), r#"["CLOSE","pivss-discover"]"#);
}

#[test]
fn orders_are_descending_and_stable() {
    assert_eq!(descending_order(&vec![3, 1, 3, 2, 5]), vec![4, 0, 2, 3, 1]);
    assert_eq!(descending_order(&vec![]), Vec::<usize>::new());
    assert_eq!(descending_order(&vec![u64::MAX, 0, u64::MAX]), vec![0, 2, 1]);
}
