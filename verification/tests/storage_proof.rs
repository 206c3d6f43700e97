use pivss::storage_proof::{
    compute_proof, draw_range, make_challenge, verify_proof, ByteRange, StorageChallenge,
};

#[test]
fn honest_server_passes() {
    let data = b"lightning channel state backup v42".repeat(500);
    let ch = make_challenge(data.len() as u64, 3);
    let proof = compute_proof(&ch, &data);
    assert!(verify_proof(&ch, &data, &proof));
}

#[test]
fn tampered_data_fails() {
    let data = b"original".repeat(1000).to_vec();
    let ch = make_challenge(data.len() as u64, 3);
    let mut tampered = data.clone();
    tampered[100] ^= 0xff;
    let proof = compute_proof(&ch, &tampered);
    assert!(!verify_proof(&ch, &data, &proof));
}

#[test]
fn replayed_nonce_fails() {
    let data = b"data".repeat(100).to_vec();
    let ch1 = make_challenge(data.len() as u64, 2);
    let ch2 = StorageChallenge {
        nonce: hex::encode([9u8; 32]),
        ranges: ch1.ranges.clone(),
    };
    let stale = compute_proof(&ch2, &data);
    assert!(!verify_proof(&ch1, &data, &stale));
}

#[test]
fn empty_file_roundtrip() {
    let ch = make_challenge(0, 3);
    assert!(ch.ranges.is_empty());
    let proof = compute_proof(&ch, b"");
    assert!(verify_proof(&ch, b"", &proof));
}

#[test]
fn proof_has_exact_digests() {
    let nonce: Vec<u8> = (0u8..32).collect();
    let data = b"some stored bytes";
    let ch = StorageChallenge {
        nonce: hex::encode(&nonce),
        ranges: vec![
            ByteRange { offset: 5, length: 6 },
            // Reaches past the end: only what is there counts.
            ByteRange { offset: 10, length: 100 },
            // Starts past the end: nothing is there.
            ByteRange { offset: 40, length: 4 },
        ],
    };
    let proof = compute_proof(&ch, data);
    assert_eq!(proof.nonce, ch.nonce);
    assert_eq!(
        proof.full_proof,
        "b55ac062eba7f71e127327c4eb434895fee78a7fb98525db8e5513d8ee6ff847"
    );
    assert_eq!(
        proof.range_proofs,
        vec![
            "25c275fa286d743f24190f39fbc40fd4aa7384be2951ad56168c314511310c08",
            "9d1c2f5a264c2d98ded3eba9d2b146c90d44178b7f3beaa83c63726bce6fcdf2",
            "630dcd2966c4336691125448bbb25b4ff412a49c732db2c8abc1b8581bd710dd",
        ]
    );
    assert_eq!(
        proof.file_sha256,
        "6727a4df73cf339dd9d69f9f76baf34f53b50686cc8b66c4d5de8e8ce05770bd"
    );
    assert!(verify_proof(&ch, data, &proof));
}

#[test]
fn bad_nonce_counts_as_none() {
    let ch = StorageChallenge { nonce: "not hex".to_string(), ranges: vec![] };
    let proof = compute_proof(&ch, b"abc");
    assert_eq!(
        proof.full_proof,
        "ba7816bf8f01cfea414140de5dae2223b00361a396177a9cb410ff61f20015ad"
    );
}

#[test]
fn altered_proof_is_refused() {
    let data = b"data".repeat(100).to_vec();
    let ch = make_challenge(data.len() as u64, 3);
    let good = compute_proof(&ch, &data);
    let mut other_range = good.clone();
    other_range.range_proofs[1] = good.full_proof.clone();
    assert!(!verify_proof(&ch, &data, &other_range));
    let mut fewer = good.clone();
    fewer.range_proofs.pop();
    assert!(!verify_proof(&ch, &data, &fewer));
    let mut other_full = good.clone();
    other_full.full_proof = "00".repeat(32);
    assert!(!verify_proof(&ch, &data, &other_full));
    // The digest of the file is for clients that kept only that; it is not checked.
    let mut other_file = good.clone();
    other_file.file_sha256 = String::new();
    assert!(verify_proof(&ch, &data, &other_file));
}

#[test]
fn challenges_are_fresh_and_lie_in_the_file() {
    let a = make_challenge(10_000, 5);
    let b = make_challenge(10_000, 5);
    assert_ne!(a.nonce, b.nonce);
    assert_eq!(a.nonce.len(), 64);
    assert_eq!(a.ranges.len(), 5);
    for r in &a.ranges {
        assert!(r.length >= 1 && r.length <= 4096);
        assert!(r.offset + r.length <= 10_000);
    }
    let one = make_challenge(1, 4);
    for r in &one.ranges {
        assert_eq!(*r, ByteRange { offset: 0, length: 1 });
    }
}

#[test]
fn drawn_ranges_are_exact() {
    assert_eq!(draw_range(10_000, 0, 0), ByteRange { offset: 0, length: 1 });
    assert_eq!(draw_range(10_000, 4095, 5904), ByteRange { offset: 5904, length: 4096 });
    assert_eq!(draw_range(10_000, 4095, 5905), ByteRange { offset: 0, length: 4096 });
    assert_eq!(draw_range(10, 9, 123), ByteRange { offset: 0, length: 10 });
}
