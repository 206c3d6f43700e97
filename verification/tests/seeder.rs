use pivss::seeder::{seed_args, CarlSeeder, NoopSeeder, Seeder};
use std::cell::RefCell;

#[test]
fn noop_seeder_records() {
    let mut s = NoopSeeder::new("why not");
    let status = s.seed("hash", "a.torrent", "dir");
    assert_eq!(status.infohash, "hash");
    assert_eq!(status.torrent_path, "a.torrent");
    assert!(!status.seeding);
    assert_eq!(status.detail, "why not");
    s.seed("other", "b.torrent", "dir");
    let all = s.statuses();
    assert_eq!(all.len(), 2);
    assert_eq!(all[0].infohash, "hash");
    assert_eq!(all[1].infohash, "other");
    assert_eq!(s.name(), "noop");
}

#[test]
fn carl_seeder_counts_its_ports() {
    let started: RefCell<Vec<(String, String, String, u16)>> = RefCell::new(vec![]);
    let mut s = CarlSeeder::new(6881, |hash: &str, torrent: &str, dir: &str, port: u16| {
        if hash == "bad" {
            return Err("no such file".to_string());
        }
        started.borrow_mut().push((
            hash.to_string(),
            torrent.to_string(),
            dir.to_string(),
            port,
        ));
        Ok(())
    });
    let one = s.seed("h1", "t1", "d1");
    assert!(one.seeding);
    assert_eq!(one.detail, "carl seeding on port 6881");
    assert_eq!(s.seed("h2", "t2", "d2").detail, "carl seeding on port 6882");
    let bad = s.seed("bad", "t3", "d3");
    assert!(!bad.seeding);
    assert_eq!(bad.detail, "failed to spawn carl: no such file");
    // A process for a torrent that has one takes its place, and its count.
    assert_eq!(s.seed("h1", "t1", "d1").detail, "carl seeding on port 6883");
    assert_eq!(s.seed("h3", "t3", "d3").detail, "carl seeding on port 6883");
    assert_eq!(s.statuses().len(), 5);
    assert_eq!(s.name(), "carl");
    assert_eq!(started.borrow().len(), 4);
    assert_eq!(
        started.borrow()[1],
        ("h2".to_string(), "t2".to_string(), "d2".to_string(), 6882)
    );
}

#[test]
fn carl_seeder_runs_out_of_ports() {
    let mut s = CarlSeeder::new(65535, |_: &str, _: &str, _: &str, _: u16| Ok(()));
    assert_eq!(s.seed("h1", "t1", "d1").detail, "carl seeding on port 65535");
    let none = s.seed("h2", "t2", "d2");
    assert!(!none.seeding);
    assert_eq!(none.detail, "failed to spawn carl: no port is left");
}

#[test]
fn arguments_of_the_process() {
    assert_eq!(
        seed_args("seeds/x/x.torrent", "seeds/x", 6881),
        vec!["seed", "seeds/x/x.torrent", "seeds/x", "--port", "6881"]
    );
}
