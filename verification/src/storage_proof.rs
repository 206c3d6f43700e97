//! Proof of storage: challenge and response over a nonce.
//!
//! A client keeps a copy of every backup version that it uploaded. Before it
//! releases a payment it sends a fresh nonce and a few byte ranges. The server
//! must answer with the SHA-256 of the nonce and the whole file, and with the
//! SHA-256 of the nonce and each of the ranges. As the nonce is fresh, a stored
//! digest does not help: the bytes must be read. The client computes the same
//! from its own copy, and pays only on a match.
use vstd::prelude::*;
use crate::outside::{
    drawn, drawn_number, hex_decode, hex_encode, random_bytes, random_u64, sha256, sha256_digest,
    sha256_digest_of_two,
};
use crate::text::{
    from_hex, law_hex_roundtrip, lemma_concat_split, lemma_hex_injective, lemma_same_array,
    same_strings, texts, to_hex,
};

verus! {

/// A range of bytes of a file.
#[derive(Debug, Clone, Copy, PartialEq, Eq, Structural)]
pub struct ByteRange {
    /// Where it starts.
    pub offset: u64,
    /// How many bytes it has.
    pub length: u64,
}

/// What a client asks of a server.
#[derive(Debug, Clone)]
pub struct StorageChallenge {
    /// 32 random bytes in hexadecimal.
    pub nonce: String,
    /// The ranges to prove.
    pub ranges: Vec<ByteRange>,
}

/// What a server answers.
#[derive(Debug, Clone)]
pub struct StorageProof {
    /// The nonce of the challenge.
    pub nonce: String,
    /// SHA-256 of nonce and file, in hexadecimal.
    pub full_proof: String,
    /// SHA-256 of nonce and range, for each range, in hexadecimal.
    pub range_proofs: Vec<String>,
    /// SHA-256 of the file, in hexadecimal, for clients that kept only that.
    pub file_sha256: String,
}

/// A challenge in mathematical terms.
pub struct ChallengeView {
    /// See [`StorageChallenge::nonce`].
    pub nonce: Seq<char>,
    /// See [`StorageChallenge::ranges`].
    pub ranges: Seq<ByteRange>,
}

/// A proof in mathematical terms.
pub struct ProofView {
    /// See [`StorageProof::nonce`].
    pub nonce: Seq<char>,
    /// See [`StorageProof::full_proof`].
    pub full_proof: Seq<char>,
    /// See [`StorageProof::range_proofs`].
    pub range_proofs: Seq<Seq<char>>,
    /// See [`StorageProof::file_sha256`].
    pub file_sha256: Seq<char>,
}

impl View for StorageChallenge {
    type V = ChallengeView;

    open spec fn view(&self) -> ChallengeView {
        ChallengeView { nonce: self.nonce@, ranges: self.ranges@ }
    }
}

impl View for StorageProof {
    type V = ProofView;

    open spec fn view(&self) -> ProofView {
        ProofView {
            nonce: self.nonce@,
            full_proof: self.full_proof@,
            range_proofs: texts(self.range_proofs@),
            file_sha256: self.file_sha256@,
        }
    }
}

/// The smaller of two numbers.
pub open spec fn least(a: int, b: int) -> int {
    if a <= b {
        a
    } else {
        b
    }
}

/// The bytes of a nonce; none where it is no hexadecimal text.
pub open spec fn nonce_bytes(nonce: Seq<char>) -> Seq<u8> {
    match from_hex(nonce) {
        Some(bytes) => bytes,
        None => Seq::empty(),
    }
}

/// The part of a range that lies in a file.
pub open spec fn clip(range: ByteRange, data: Seq<u8>) -> Seq<u8> {
    data.subrange(
        least(range.offset as int, data.len() as int),
        least(range.offset + range.length, data.len() as int),
    )
}

/// SHA-256 of a nonce and bytes, in hexadecimal.
pub open spec fn keyed_digest(nonce: Seq<char>, bytes: Seq<u8>) -> Seq<char> {
    to_hex(sha256(nonce_bytes(nonce) + bytes)@)
}

/// The proof that answers a challenge for a file.
pub open spec fn proof_of(challenge: ChallengeView, data: Seq<u8>) -> ProofView {
    ProofView {
        nonce: challenge.nonce,
        full_proof: keyed_digest(challenge.nonce, data),
        range_proofs: challenge.ranges.map_values(
            |r: ByteRange| keyed_digest(challenge.nonce, clip(r, data)),
        ),
        file_sha256: to_hex(sha256(data)@),
    }
}

/// Whether a client that holds `local_data` accepts a proof.
pub open spec fn accepts(challenge: ChallengeView, local_data: Seq<u8>, proof: ProofView) -> bool {
    let expected = proof_of(challenge, local_data);
    &&& proof.nonce == challenge.nonce
    &&& proof.full_proof == expected.full_proof
    &&& proof.range_proofs == expected.range_proofs
}

/// Whether the end of every range of a challenge is a number of 64 bits.
pub open spec fn ranges_fit(ranges: Seq<ByteRange>) -> bool {
    forall|i: int| 0 <= i < ranges.len() ==> (#[trigger] ranges[i]).offset + ranges[i].length
        <= u64::MAX
}

/// The range that two random numbers give over a file of `file_len` bytes.
pub open spec fn drawn_range(file_len: u64, a: u64, b: u64) -> ByteRange
    recommends
        file_len > 0,
{
    let longest = least(file_len as int, 4096);
    let length = 1 + a as int % longest;
    ByteRange { length: length as u64, offset: (b as int % (file_len - length + 1)) as u64 }
}

/// Whether a range lies in a file, is not empty and has at most 4096 bytes.
pub open spec fn range_in(range: ByteRange, file_len: u64) -> bool {
    &&& 1 <= range.length <= 4096
    &&& range.offset + range.length <= file_len
}

/// The range over a file of `file_len` bytes that the random numbers `a` and `b`
/// give.
pub fn draw_range(file_len: u64, a: u64, b: u64) -> (range: ByteRange)
    requires
        file_len > 0,
    ensures
        range == drawn_range(file_len, a, b),
        range_in(range, file_len),
{
    let longest: u64 = if file_len < 4096 {
        file_len
    } else {
        4096
    };
    let length: u64 = 1 + a % longest;
    let offset: u64 = b % (file_len - length + 1);
    ByteRange { offset, length }
}

/// Whether a nonce is the hexadecimal text of 32 bytes that were drawn.
pub open spec fn is_drawn_nonce(nonce: Seq<char>) -> bool {
    exists|bytes: [u8; 32]| #[trigger] drawn(bytes) && nonce == to_hex(bytes@)
}

/// Whether a range over a file of `file_len` bytes is the one that two numbers give which
/// were drawn.
pub open spec fn is_drawn_range(range: ByteRange, file_len: u64) -> bool {
    exists|a: u64, b: u64| #[trigger]
        drawn_number(a) && #[trigger] drawn_number(b) && range == drawn_range(file_len, a, b)
}

/// Makes a challenge with `n_ranges` random ranges over a file of `file_len`
/// bytes; with none where the file is empty.
pub fn make_challenge(file_len: u64, n_ranges: usize) -> (challenge: StorageChallenge)
    ensures
        exists|bytes: Seq<u8>| bytes.len() == 32 && challenge.nonce@ == #[trigger] to_hex(bytes),
        is_drawn_nonce(challenge.nonce@),
        from_hex(challenge.nonce@) matches Some(bytes) && bytes.len() == 32,
        challenge.nonce@.len() == 64,
        challenge.ranges@.len() == (if file_len > 0 {
            n_ranges as nat
        } else {
            0
        }),
        forall|i: int|
            0 <= i < challenge.ranges@.len() ==> range_in(#[trigger] challenge.ranges@[i], file_len)
                && is_drawn_range(challenge.ranges@[i], file_len),
        ranges_fit(challenge.ranges@),
{
    let nonce: [u8; 32] = random_bytes();
    proof {
        law_hex_roundtrip(nonce@);
    }
    let mut ranges: Vec<ByteRange> = Vec::new();
    if file_len > 0 {
        let mut i: usize = 0;
        while i < n_ranges
            invariant
                file_len > 0,
                i <= n_ranges,
                ranges@.len() == i,
                forall|j: int|
                    0 <= j < i ==> range_in(#[trigger] ranges@[j], file_len) && is_drawn_range(
                        ranges@[j],
                        file_len,
                    ),
            decreases n_ranges - i,
        {
            let a: u64 = random_u64();
            let b: u64 = random_u64();
            let range: ByteRange = draw_range(file_len, a, b);
            assert(is_drawn_range(range, file_len)) by {
                assert(drawn_number(a) && drawn_number(b));
            }
            ranges.push(range);
            i = i + 1;
        }
    }
    let challenge = StorageChallenge { nonce: hex_encode(&nonce), ranges };
    assert(drawn(nonce));
    assert(challenge.nonce@ == to_hex(nonce@) && nonce@.len() == 32);
    challenge
}

/// Computes the proof for `data`: a server does so to answer, a client to check.
pub fn compute_proof(challenge: &StorageChallenge, data: &[u8]) -> (proof: StorageProof)
    requires
        ranges_fit(challenge.ranges@),
    ensures
        proof@ == proof_of(challenge@, data@),
{
    let nonce: Vec<u8> = match hex_decode(challenge.nonce.as_str()) {
        Ok(bytes) => bytes,
        Err(_) => Vec::new(),
    };
    assert(nonce@ == nonce_bytes(challenge.nonce@));
    let full_proof = hex_encode(&sha256_digest_of_two(&nonce, data));
    let mut range_proofs: Vec<String> = Vec::new();
    let n: usize = data.len();
    let len: u64 = n as u64;
    let mut i: usize = 0;
    while i < challenge.ranges.len()
        invariant
            i <= challenge.ranges@.len(),
            len == n == data@.len(),
            nonce@ == nonce_bytes(challenge.nonce@),
            ranges_fit(challenge.ranges@),
            range_proofs@.len() == i,
            forall|j: int|
                0 <= j < i ==> (#[trigger] range_proofs@[j])@ == keyed_digest(
                    challenge.nonce@,
                    clip(challenge.ranges@[j], data@),
                ),
        decreases challenge.ranges.len() - i,
    {
        let r: ByteRange = challenge.ranges[i];
        let start: u64 = if r.offset < len {
            r.offset
        } else {
            len
        };
        let end: u64 = if r.offset + r.length < len {
            r.offset + r.length
        } else {
            len
        };
        let part: &[u8] = &data[start as usize..end as usize];
        range_proofs.push(hex_encode(&sha256_digest_of_two(&nonce, part)));
        i = i + 1;
    }
    let proof = StorageProof {
        nonce: challenge.nonce.clone(),
        full_proof,
        range_proofs,
        file_sha256: hex_encode(&sha256_digest(data)),
    };
    assert(proof@.range_proofs =~= proof_of(challenge@, data@).range_proofs);
    proof
}

/// Checks a proof against the client's own copy.
pub fn verify_proof(
    challenge: &StorageChallenge,
    local_data: &[u8],
    proof: &StorageProof,
) -> (ok: bool)
    requires
        ranges_fit(challenge.ranges@),
    ensures
        ok == accepts(challenge@, local_data@, proof@),
{
    if !(proof.nonce == challenge.nonce) {
        return false;
    }
    let expected = compute_proof(challenge, local_data);
    expected.full_proof == proof.full_proof && same_strings(
        &expected.range_proofs,
        &proof.range_proofs,
    )
}

/// An honest server passes: the proof that it computes from the file is accepted
/// by a client that holds the same file.
pub proof fn law_honest_proof_accepted(challenge: ChallengeView, data: Seq<u8>)
    ensures
        accepts(challenge, data, proof_of(challenge, data)),
{
}

/// A replayed proof fails: what was computed for another nonce is refused,
/// whatever the data.
pub proof fn law_replayed_proof_rejected(
    challenge: ChallengeView,
    stale: ChallengeView,
    local_data: Seq<u8>,
    data: Seq<u8>,
)
    requires
        stale.nonce != challenge.nonce,
    ensures
        !accepts(challenge, local_data, proof_of(stale, data)),
{
}

/// A server that answers from other data is refused, unless it has found two
/// inputs with one SHA-256.
pub proof fn law_tampered_data_rejected(
    challenge: ChallengeView,
    local_data: Seq<u8>,
    data: Seq<u8>,
)
    requires
        data != local_data,
    ensures
        accepts(challenge, local_data, proof_of(challenge, data)) ==> {
            let a = nonce_bytes(challenge.nonce) + local_data;
            let b = nonce_bytes(challenge.nonce) + data;
            a != b && sha256(a) == sha256(b)
        },
{
    let n = nonce_bytes(challenge.nonce);
    let a = n + local_data;
    let b = n + data;
    if a == b {
        lemma_concat_split(n, local_data, n, data);
    }
    if accepts(challenge, local_data, proof_of(challenge, data)) {
        lemma_hex_injective(sha256(a)@, sha256(b)@);
        lemma_same_array(sha256(a), sha256(b));
    }
}

/// The bytes of a file from `from` on, `n` of them.
pub open spec fn bytes_at(data: Seq<u8>, from: int, n: nat) -> Seq<u8> {
    Seq::new(n, |k: int| data[from + k])
}

/// The whole file is proved behind the nonce: the full proof is the SHA-256 of the bytes of
/// the nonce and then all bytes of the file, and the nonce comes back.
pub proof fn law_full_proof_is_of_all_bytes(challenge: ChallengeView, nonce: Seq<u8>, data: Seq<u8>)
    requires
        from_hex(challenge.nonce) == Some(nonce),
    ensures
        proof_of(challenge, data).nonce == challenge.nonce,
        proof_of(challenge, data).full_proof == to_hex(sha256(nonce + data)@),
        proof_of(challenge, data).file_sha256 == to_hex(sha256(data)@),
        proof_of(challenge, data).range_proofs.len() == challenge.ranges.len(),
{
}

/// Every range is proved with all of its bytes: the proof of a range that lies in the file
/// is the SHA-256 of the bytes of the nonce and then exactly the bytes of the range.
pub proof fn law_range_proof_is_of_its_bytes(
    challenge: ChallengeView,
    nonce: Seq<u8>,
    data: Seq<u8>,
    i: int,
)
    requires
        from_hex(challenge.nonce) == Some(nonce),
        0 <= i < challenge.ranges.len(),
        challenge.ranges[i].offset + challenge.ranges[i].length <= data.len(),
    ensures
        proof_of(challenge, data).range_proofs[i] == to_hex(
            sha256(
                nonce + bytes_at(
                    data,
                    challenge.ranges[i].offset as int,
                    challenge.ranges[i].length as nat,
                ),
            )@,
        ),
{
    let r = challenge.ranges[i];
    assert(clip(r, data) =~= bytes_at(data, r.offset as int, r.length as nat));
}

/// A range that goes past the end of the file is proved with the bytes that the file has of
/// it: those from where it starts, or none.
pub proof fn law_range_past_the_end(
    challenge: ChallengeView,
    nonce: Seq<u8>,
    data: Seq<u8>,
    i: int,
)
    requires
        from_hex(challenge.nonce) == Some(nonce),
        0 <= i < challenge.ranges.len(),
        challenge.ranges[i].offset + challenge.ranges[i].length > data.len(),
    ensures
        challenge.ranges[i].offset <= data.len() ==> proof_of(challenge, data).range_proofs[i]
            == to_hex(
            sha256(
                nonce + bytes_at(
                    data,
                    challenge.ranges[i].offset as int,
                    (data.len() - challenge.ranges[i].offset) as nat,
                ),
            )@,
        ),
        challenge.ranges[i].offset > data.len() ==> proof_of(challenge, data).range_proofs[i]
            == to_hex(sha256(nonce)@),
{
    let r = challenge.ranges[i];
    if r.offset <= data.len() {
        assert(clip(r, data) =~= bytes_at(data, r.offset as int, (data.len() - r.offset) as nat));
    } else {
        assert(nonce + clip(r, data) =~= nonce);
    }
}

/// What a client accepts: where all ranges lie in its copy, a proof with the nonce of the
/// challenge, the SHA-256 of nonce and copy, and for each range the SHA-256 of the nonce and
/// the bytes of the copy there; nothing else.
pub proof fn law_accepted_proof_is_exact(
    challenge: ChallengeView,
    nonce: Seq<u8>,
    local_data: Seq<u8>,
    proof: ProofView,
)
    requires
        from_hex(challenge.nonce) == Some(nonce),
        forall|i: int|
            0 <= i < challenge.ranges.len() ==> (#[trigger] challenge.ranges[i]).offset
                + challenge.ranges[i].length <= local_data.len(),
    ensures
        accepts(challenge, local_data, proof) <==> {
            &&& proof.nonce == challenge.nonce
            &&& proof.full_proof == to_hex(sha256(nonce + local_data)@)
            &&& proof.range_proofs.len() == challenge.ranges.len()
            &&& forall|i: int|
                0 <= i < challenge.ranges.len() ==> #[trigger] proof.range_proofs[i] == to_hex(
                    sha256(
                        nonce + bytes_at(
                            local_data,
                            challenge.ranges[i].offset as int,
                            challenge.ranges[i].length as nat,
                        ),
                    )@,
                )
        },
{
    law_full_proof_is_of_all_bytes(challenge, nonce, local_data);
    let expected = proof_of(challenge, local_data).range_proofs;
    assert forall|i: int| 0 <= i < challenge.ranges.len() implies #[trigger] expected[i] == to_hex(
        sha256(
            nonce + bytes_at(
                local_data,
                challenge.ranges[i].offset as int,
                challenge.ranges[i].length as nat,
            ),
        )@,
    ) by {
        law_range_proof_is_of_its_bytes(challenge, nonce, local_data, i);
    }
    if proof.range_proofs.len() == expected.len() && (forall|i: int|
        0 <= i < expected.len() ==> #[trigger] proof.range_proofs[i] == expected[i]) {
        assert(proof.range_proofs =~= expected);
    }
}

/// One wrong byte in a range is enough: a proof whose entry for a range was computed from
/// data that differs from the copy of the client there is refused, whatever else is in it,
/// unless two inputs with one SHA-256 were found.
pub proof fn law_tampered_range_rejected(
    challenge: ChallengeView,
    nonce: Seq<u8>,
    local_data: Seq<u8>,
    data: Seq<u8>,
    proof: ProofView,
    i: int,
    at: int,
)
    requires
        from_hex(challenge.nonce) == Some(nonce),
        0 <= i < challenge.ranges.len(),
        challenge.ranges[i].offset + challenge.ranges[i].length <= local_data.len(),
        challenge.ranges[i].offset + challenge.ranges[i].length <= data.len(),
        challenge.ranges[i].offset <= at < challenge.ranges[i].offset + challenge.ranges[i].length,
        data[at] != local_data[at],
        proof.range_proofs.len() == challenge.ranges.len(),
        proof.range_proofs[i] == proof_of(challenge, data).range_proofs[i],
    ensures
        accepts(challenge, local_data, proof) ==> {
            let (from, n) = (
                challenge.ranges[i].offset as int,
                challenge.ranges[i].length as nat,
            );
            let a = nonce + bytes_at(local_data, from, n);
            let b = nonce + bytes_at(data, from, n);
            a != b && sha256(a) == sha256(b)
        },
{
    let (from, n) = (challenge.ranges[i].offset as int, challenge.ranges[i].length as nat);
    let (mine, theirs) = (bytes_at(local_data, from, n), bytes_at(data, from, n));
    let (a, b) = (nonce + mine, nonce + theirs);
    law_range_proof_is_of_its_bytes(challenge, nonce, local_data, i);
    law_range_proof_is_of_its_bytes(challenge, nonce, data, i);
    assert(mine[at - from] != theirs[at - from]);
    if a == b {
        lemma_concat_split(nonce, mine, nonce, theirs);
    }
    if accepts(challenge, local_data, proof) {
        assert(proof.range_proofs[i] == proof_of(challenge, local_data).range_proofs[i]);
        lemma_hex_injective(sha256(a)@, sha256(b)@);
        lemma_same_array(sha256(a), sha256(b));
    }
}

/// A nonce that is no hexadecimal text counts for nothing: the proofs are then those of the bytes
/// alone.
pub proof fn law_malformed_nonce_is_empty(challenge: ChallengeView, data: Seq<u8>, i: int)
    requires
        from_hex(challenge.nonce) is None,
        0 <= i < challenge.ranges.len(),
        challenge.ranges[i].offset + challenge.ranges[i].length <= data.len(),
    ensures
        proof_of(challenge, data).full_proof == to_hex(sha256(data)@),
        proof_of(challenge, data).range_proofs[i] == to_hex(
            sha256(
                bytes_at(
                    data,
                    challenge.ranges[i].offset as int,
                    challenge.ranges[i].length as nat,
                ),
            )@,
        ),
{
    let r = challenge.ranges[i];
    assert(Seq::<u8>::empty() + data =~= data);
    assert(Seq::<u8>::empty() + clip(r, data) =~= bytes_at(
        data,
        r.offset as int,
        r.length as nat,
    ));
}

/// What is drawn lies in the file, and has from 1 to 4096 bytes.
pub proof fn law_drawn_range_in_file(file_len: u64, a: u64, b: u64)
    requires
        file_len > 0,
    ensures
        1 <= drawn_range(file_len, a, b).length <= 4096,
        drawn_range(file_len, a, b).offset + drawn_range(file_len, a, b).length <= file_len,
{
}

/// Every byte can be asked for: each range in a file that has from 1 to 4096 bytes is the one
/// that some two numbers give.
pub proof fn law_every_range_can_be_drawn(file_len: u64, range: ByteRange) -> (ab: (u64, u64))
    requires
        1 <= range.length <= 4096,
        range.offset + range.length <= file_len,
    ensures
        drawn_range(file_len, ab.0, ab.1) == range,
{
    let longest = least(file_len as int, 4096);
    let (a, b) = ((range.length - 1) as u64, range.offset);
    assert(a as int % longest == a) by (nonlinear_arith)
        requires
            0 <= a < longest,
    ;
    assert(b as int % (file_len - range.length + 1) == b) by (nonlinear_arith)
        requires
            0 <= b < file_len - range.length + 1,
    ;
    (a, b)
}

} // verus!
