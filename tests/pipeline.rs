use ed25519_dalek::{Signer, SigningKey};
use grandpa_attest::batch::{
    assemble, attest_batch, attestation_outcome, first_rejected, resolve, AttestationError,
    GuestProof, ProofAssemblyError, ResolveError, BATCH_ACCEPTED,
};
use grandpa_attest::decode::{decode_justification, DecodeError};
use grandpa_attest::payload::build_payload;
use grandpa_attest::pipeline::{attest, extract_proof_bytes, prepare_batch, ProofError};
use grandpa_attest::types::{Authority, Precommit};
use parity_scale_codec::Encode;
use subxt::config::substrate::{BlakeTwo256, SubstrateHeader};

const TARGET: [u8; 32] = [0x5a; 32];
const ROUND: u64 = 12;
const SET_ID: u64 = 3;

fn key(i: usize) -> SigningKey {
    SigningKey::from_bytes(&[i as u8 + 1; 32])
}

fn authorities(n: usize) -> Vec<Authority> {
    (0..n).map(|i| Authority { id: key(i).verifying_key().to_bytes(), weight: 1 }).collect()
}

/// The payload as the consensus crates write it: the vote message, the round
/// and the set id, SCALE-encoded together.
fn reference_payload(round: u64, set_id: u64, number: u32) -> Vec<u8> {
    let message = finality_grandpa::Message::<[u8; 32], u32>::Precommit(
        finality_grandpa::Precommit::new(TARGET, number),
    );
    (message, round, set_id).encode()
}

fn commit(votes: usize, signed_round: u64) -> finality_grandpa::Commit<[u8; 32], u32, [u8; 64], [u8; 32]> {
    let precommits = (0..votes)
        .map(|i| {
            let number = 500 + i as u32;
            let k = key(i);
            let payload = reference_payload(signed_round, SET_ID, number);
            finality_grandpa::SignedPrecommit {
                precommit: finality_grandpa::Precommit::new(TARGET, number),
                signature: k.sign(&payload).to_bytes(),
                id: k.verifying_key().to_bytes(),
            }
        })
        .collect();
    finality_grandpa::Commit { target_hash: TARGET, target_number: 500, precommits }
}

fn justification_bytes(
    c: &finality_grandpa::Commit<[u8; 32], u32, [u8; 64], [u8; 32]>,
) -> Vec<u8> {
    (ROUND, c.clone(), Vec::<SubstrateHeader<u32, BlakeTwo256>>::new()).encode()
}

/// What the node sends back: the finality proof as a JSON hex string.
fn rpc_answer(justification: Vec<u8>) -> Vec<u8> {
    let proof = (TARGET, justification, Vec::<SubstrateHeader<u32, BlakeTwo256>>::new()).encode();
    format!("\"0x{}\"", hex::encode(proof)).into_bytes()
}

#[test]
fn payload_matches_reference_encoding() {
    let vote = Precommit { target_hash: TARGET, target_number: 77 };
    let p = build_payload(9, 4, &vote);
    assert_eq!(p, reference_payload(9, 4, 77));
    assert_eq!(p.len(), 53);
    assert_eq!(p[0], 1);
}

#[test]
fn payload_is_deterministic() {
    let vote = Precommit { target_hash: TARGET, target_number: 77 };
    assert_eq!(build_payload(5, 6, &vote), build_payload(5, 6, &vote));
}

#[test]
fn payload_separates_rounds_and_sets() {
    let vote = Precommit { target_hash: TARGET, target_number: 77 };
    let mut seen: Vec<(u64, u64, Vec<u8>)> = Vec::new();
    for r in 0..6u64 {
        for s in 0..6u64 {
            let p = build_payload(r, s, &vote);
            for (r2, s2, q) in &seen {
                assert_ne!(&p, q, "({}, {}) and ({}, {})", r, s, r2, s2);
            }
            seen.push((r, s, p));
        }
    }
}

#[test]
fn genuine_commit_gives_three_units_and_attests() {
    let c = commit(3, ROUND);
    let raw = rpc_answer(justification_bytes(&c));
    let units = prepare_batch(&raw, SET_ID, &authorities(4)).unwrap();
    assert_eq!(units.len(), 3);
    for (i, u) in units.iter().enumerate() {
        assert_eq!(u.0, key(i).verifying_key().to_bytes());
        assert_eq!(u.1, reference_payload(ROUND, SET_ID, 500 + i as u32));
        assert_eq!(u.2, c.precommits[i].signature);
        assert!(u.verify());
    }
    assert_eq!(attest_batch(&units), Ok(BATCH_ACCEPTED));
    assert_eq!(attest(&units), Ok(BATCH_ACCEPTED));
}

#[test]
fn more_votes_than_authorities_is_a_count_mismatch() {
    let c = commit(5, ROUND);
    let j = decode_justification(&justification_bytes(&c)).unwrap();
    assert_eq!(resolve(&authorities(3), &j.commit), Err(ResolveError::AuthorityCountMismatch));
    let raw = rpc_answer(justification_bytes(&c));
    assert_eq!(
        prepare_batch(&raw, SET_ID, &authorities(3)),
        Err(ProofError::Resolve(ResolveError::AuthorityCountMismatch))
    );
}

#[test]
fn resolve_pairs_votes_with_authorities_by_position() {
    let j = decode_justification(&justification_bytes(&commit(2, ROUND))).unwrap();
    let a = authorities(3);
    assert_eq!(resolve(&a, &j.commit), Ok(vec![a[0].id, a[1].id]));
}

#[test]
fn tampered_signature_is_an_invalid_vote() {
    let mut c = commit(3, ROUND);
    c.precommits[1].signature[0] ^= 1;
    let raw = rpc_answer(justification_bytes(&c));
    assert_eq!(
        prepare_batch(&raw, SET_ID, &authorities(3)),
        Err(ProofError::Assembly(ProofAssemblyError::InvalidVote(1)))
    );
    let j = decode_justification(&justification_bytes(&c)).unwrap();
    let keys = resolve(&authorities(3), &j.commit).unwrap();
    assert_eq!(
        assemble(ROUND, SET_ID, &j.commit, &keys),
        Err(ProofAssemblyError::InvalidVote(1))
    );
}

#[test]
fn signature_for_another_round_does_not_verify() {
    let c = commit(1, ROUND);
    let vote = Precommit { target_hash: TARGET, target_number: 500 };
    let public = key(0).verifying_key().to_bytes();
    let signature = c.precommits[0].signature;
    assert!(GuestProof(public, build_payload(ROUND, SET_ID, &vote), signature).verify());
    assert!(!GuestProof(public, build_payload(ROUND + 1, SET_ID, &vote), signature).verify());
    assert!(!GuestProof(public, build_payload(ROUND, SET_ID + 1, &vote), signature).verify());
}

#[test]
fn commit_signed_for_another_round_is_rejected_at_the_first_vote() {
    let c = commit(2, ROUND - 1);
    let raw = rpc_answer(justification_bytes(&c));
    assert_eq!(
        prepare_batch(&raw, SET_ID, &authorities(2)),
        Err(ProofError::Assembly(ProofAssemblyError::InvalidVote(0)))
    );
}

#[test]
fn pipeline_twice_gives_the_same_batch_and_outcome() {
    let raw = rpc_answer(justification_bytes(&commit(3, ROUND)));
    let first = prepare_batch(&raw, SET_ID, &authorities(3)).unwrap();
    let second = prepare_batch(&raw, SET_ID, &authorities(3)).unwrap();
    assert_eq!(first, second);
    assert_eq!(attest(&first), attest(&second));
}

#[test]
fn attestation_aborts_at_the_first_failing_unit() {
    let c = commit(3, ROUND);
    let raw = rpc_answer(justification_bytes(&c));
    let mut units = prepare_batch(&raw, SET_ID, &authorities(3)).unwrap();
    units[2].2[5] ^= 0x80;
    units[1].1.push(0);
    assert_eq!(attest_batch(&units), Err(AttestationError::Aborted(1)));
    assert_eq!(attest(&units), Err(AttestationError::Aborted(1)));
}

#[test]
fn key_that_is_no_curve_point_fails_verification() {
    let vote = Precommit { target_hash: TARGET, target_number: 500 };
    let mut public = [0xffu8; 32];
    public[31] = 0x7f;
    let unit = GuestProof(public, build_payload(ROUND, SET_ID, &vote), [0; 64]);
    assert!(!unit.verify());
}

#[test]
fn verdicts_decide_the_outcome() {
    assert_eq!(first_rejected(&vec![true, true, false, false]), Some(2));
    assert_eq!(first_rejected(&vec![true, true]), None);
    assert_eq!(first_rejected(&vec![]), None);
    assert_eq!(attestation_outcome(&vec![true, true, true]), Ok(BATCH_ACCEPTED));
    assert_eq!(attestation_outcome(&vec![false]), Err(AttestationError::Aborted(0)));
    assert_eq!(attestation_outcome(&vec![true, false, true]), Err(AttestationError::Aborted(1)));
}

#[test]
fn empty_answer_means_finality_unavailable() {
    assert_eq!(extract_proof_bytes(&b"null".to_vec()), Err(ProofError::FinalityUnavailable));
    assert_eq!(extract_proof_bytes(&b"\"0x\"".to_vec()), Err(ProofError::FinalityUnavailable));
    assert_eq!(extract_proof_bytes(&Vec::new()), Err(ProofError::FinalityUnavailable));
}

#[test]
fn hex_text_is_decoded() {
    assert_eq!(extract_proof_bytes(&b"\"0x0aFf10\"".to_vec()), Ok(vec![0x0a, 0xff, 0x10]));
    assert_eq!(
        extract_proof_bytes(&b"\"0x0af\"".to_vec()),
        Err(ProofError::Decode(DecodeError::Malformed))
    );
    assert_eq!(
        extract_proof_bytes(&b"\"0xzz\"".to_vec()),
        Err(ProofError::Decode(DecodeError::Malformed))
    );
}

#[test]
fn undecodable_proof_is_malformed() {
    let raw = format!("\"0x{}\"", hex::encode([1u8; 10])).into_bytes();
    assert_eq!(
        prepare_batch(&raw, SET_ID, &authorities(3)),
        Err(ProofError::Decode(DecodeError::Malformed))
    );
    let raw = rpc_answer(vec![1, 2, 3]);
    assert_eq!(
        prepare_batch(&raw, SET_ID, &authorities(3)),
        Err(ProofError::Decode(DecodeError::Malformed))
    );
}
