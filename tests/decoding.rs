use grandpa_attest::decode::{
    decode_authorities, decode_finality_proof, decode_justification, DecodeError,
};
use grandpa_attest::encode::{encode_finality_proof, encode_justification};
use grandpa_attest::scale::{read_bytes, read_compact, read_u32, read_u64};
use grandpa_attest::types::{
    Authority, Commit, DigestItem, FinalityProof, GrandpaJustification, Header, Precommit,
    SignedPrecommit,
};
use parity_scale_codec::{Compact, Encode};
use subxt::config::substrate::{
    BlakeTwo256, Digest, DigestItem as ChainDigestItem, SubstrateHeader, H256,
};

type ChainHeader = SubstrateHeader<u32, BlakeTwo256>;
type ChainCommit = finality_grandpa::Commit<[u8; 32], u32, [u8; 64], [u8; 32]>;

fn chain_header(number: u32, logs: Vec<ChainDigestItem>) -> ChainHeader {
    SubstrateHeader {
        parent_hash: H256::repeat_byte(number as u8),
        number,
        state_root: H256::repeat_byte(0xaa),
        extrinsics_root: H256::repeat_byte(0xbb),
        digest: Digest { logs },
    }
}

fn chain_commit(votes: u8) -> ChainCommit {
    let precommits = (0..votes)
        .map(|i| finality_grandpa::SignedPrecommit {
            precommit: finality_grandpa::Precommit::new([0x11; 32], 1000 + i as u32),
            signature: [i; 64],
            id: [0x40 + i; 32],
        })
        .collect();
    finality_grandpa::Commit { target_hash: [0x11; 32], target_number: 1002, precommits }
}

#[test]
fn compact_matches_reference_encoder() {
    for v in [0u32, 1, 63, 64, 255, 16383, 16384, 1_073_741_823, 1_073_741_824, u32::MAX] {
        let bytes = Compact(v).encode();
        assert_eq!(read_compact(&bytes, 0), Some((v, bytes.len())), "value {}", v);
    }
}

#[test]
fn compact_rejects_non_canonical_and_short_input() {
    // zero written in the two-byte form
    assert_eq!(read_compact(&vec![0b01, 0], 0), None);
    // 63 written in the four-byte form
    assert_eq!(read_compact(&vec![0xfe, 0, 0, 0], 0), None);
    // big-integer form longer than four bytes
    assert_eq!(read_compact(&vec![0b111, 0, 0, 0, 0x40, 0], 0), None);
    assert_eq!(read_compact(&vec![0b01], 0), None);
    assert_eq!(read_compact(&vec![], 0), None);
}

#[test]
fn fixed_width_integers_are_little_endian() {
    let bytes = vec![0x78, 0x56, 0x34, 0x12, 0xef, 0xcd, 0xab, 0x90];
    assert_eq!(read_u32(&bytes, 0), Some((0x1234_5678, 4)));
    assert_eq!(read_u64(&bytes, 0), Some((0x90ab_cdef_1234_5678, 8)));
    assert_eq!(read_u32(&bytes, 5), None);
    assert_eq!(read_bytes(&vec![12, 1, 2], 0), None);
    assert_eq!(read_bytes(&vec![8, 1, 2], 0), Some((vec![1, 2], 3)));
}

#[test]
fn justification_decodes_reference_encoding() {
    let headers = vec![
        chain_header(1001, vec![]),
        chain_header(
            1_073_741_900,
            vec![
                ChainDigestItem::PreRuntime(*b"BABE", vec![1, 2, 3]),
                ChainDigestItem::Consensus(*b"FRNK", vec![4]),
                ChainDigestItem::Seal(*b"BABE", vec![5; 64]),
                ChainDigestItem::Other(vec![6, 7]),
                ChainDigestItem::RuntimeEnvironmentUpdated,
            ],
        ),
    ];
    let bytes = (7u64, chain_commit(3), headers).encode();
    let j = decode_justification(&bytes).unwrap();
    assert_eq!(j.round, 7);
    assert_eq!(j.commit.target_hash, [0x11; 32]);
    assert_eq!(j.commit.target_number, 1002);
    assert_eq!(j.commit.precommits.len(), 3);
    for (i, v) in j.commit.precommits.iter().enumerate() {
        assert_eq!(v.precommit.target_hash, [0x11; 32]);
        assert_eq!(v.precommit.target_number, 1000 + i as u32);
        assert_eq!(v.signature, [i as u8; 64]);
        assert_eq!(v.id, [0x40 + i as u8; 32]);
    }
    assert_eq!(j.votes_ancestries.len(), 2);
    assert_eq!(j.votes_ancestries[0].number, 1001);
    assert_eq!(j.votes_ancestries[0].parent_hash, [0xe9; 32]);
    assert_eq!(j.votes_ancestries[0].state_root, [0xaa; 32]);
    assert_eq!(j.votes_ancestries[0].extrinsics_root, [0xbb; 32]);
    assert!(j.votes_ancestries[0].digest.is_empty());
    let h = &j.votes_ancestries[1];
    assert_eq!(h.number, 1_073_741_900);
    assert_eq!(
        h.digest,
        vec![
            DigestItem::PreRuntime(*b"BABE", vec![1, 2, 3]),
            DigestItem::Consensus(*b"FRNK", vec![4]),
            DigestItem::Seal(*b"BABE", vec![5; 64]),
            DigestItem::Other(vec![6, 7]),
            DigestItem::RuntimeEnvironmentUpdated,
        ]
    );
}

#[test]
fn justification_accepts_trailing_bytes_only_at_the_end() {
    let mut bytes = (1u64, chain_commit(1), Vec::<ChainHeader>::new()).encode();
    bytes.extend_from_slice(&[9, 9, 9]);
    let j = decode_justification(&bytes).unwrap();
    assert_eq!(j.round, 1);
    assert_eq!(j.commit.precommits.len(), 1);
}

#[test]
fn truncated_justification_is_malformed() {
    let bytes = (1u64, chain_commit(2), vec![chain_header(5, vec![])]).encode();
    for cut in [0, 7, 8, 40, 100, bytes.len() - 1] {
        assert_eq!(decode_justification(&bytes[..cut].to_vec()), Err(DecodeError::Malformed), "cut {}", cut);
    }
}

#[test]
fn unknown_digest_tag_is_malformed() {
    let mut bytes = (1u64, chain_commit(0), vec![chain_header(5, vec![ChainDigestItem::Other(vec![])])]).encode();
    // the tag of the only digest item sits two bytes before the end
    let at = bytes.len() - 2;
    assert_eq!(bytes[at], 0);
    bytes[at] = 3;
    assert_eq!(decode_justification(&bytes), Err(DecodeError::Malformed));
}

#[test]
fn finality_proof_decodes_reference_encoding() {
    let justification = (3u64, chain_commit(2), Vec::<ChainHeader>::new()).encode();
    let bytes = ([0x77u8; 32], justification.clone(), vec![chain_header(9, vec![])]).encode();
    let f = decode_finality_proof(&bytes).unwrap();
    assert_eq!(f.block, [0x77; 32]);
    assert_eq!(f.justification, justification);
    assert_eq!(f.unknown_headers.len(), 1);
    assert_eq!(f.unknown_headers[0].number, 9);
    assert_eq!(decode_finality_proof(&bytes[..31].to_vec()), Err(DecodeError::Malformed));
}

fn sample_justification() -> GrandpaJustification {
    let precommits = (0..3u8)
        .map(|i| SignedPrecommit {
            precommit: Precommit { target_hash: [0x22; 32], target_number: 70 + i as u32 },
            signature: [i; 64],
            id: [0x30 + i; 32],
        })
        .collect();
    GrandpaJustification {
        round: 1 << 40,
        commit: Commit { target_hash: [0x22; 32], target_number: 72, precommits },
        votes_ancestries: vec![
            Header {
                parent_hash: [1; 32],
                number: 70,
                state_root: [2; 32],
                extrinsics_root: [3; 32],
                digest: vec![DigestItem::Seal(*b"aura", vec![9; 300]), DigestItem::Other(vec![])],
            },
            Header {
                parent_hash: [4; 32],
                number: 20_000,
                state_root: [5; 32],
                extrinsics_root: [6; 32],
                digest: vec![],
            },
        ],
    }
}

#[test]
fn justification_round_trips() {
    let j = sample_justification();
    let bytes = encode_justification(&j);
    assert_eq!(decode_justification(&bytes), Ok(j.clone()));
    let mut longer = bytes.clone();
    longer.extend_from_slice(&[0xff; 5]);
    assert_eq!(decode_justification(&longer), Ok(j));
}

#[test]
fn justification_encoding_matches_reference_encoder() {
    let j = sample_justification();
    let commit = finality_grandpa::Commit {
        target_hash: j.commit.target_hash,
        target_number: j.commit.target_number,
        precommits: j
            .commit
            .precommits
            .iter()
            .map(|v| finality_grandpa::SignedPrecommit {
                precommit: finality_grandpa::Precommit::new(
                    v.precommit.target_hash,
                    v.precommit.target_number,
                ),
                signature: v.signature,
                id: v.id,
            })
            .collect::<Vec<_>>(),
    };
    let headers: Vec<ChainHeader> = j
        .votes_ancestries
        .iter()
        .map(|h| SubstrateHeader {
            parent_hash: H256(h.parent_hash),
            number: h.number,
            state_root: H256(h.state_root),
            extrinsics_root: H256(h.extrinsics_root),
            digest: Digest {
                logs: h
                    .digest
                    .iter()
                    .map(|d| match d {
                        DigestItem::Seal(e, x) => ChainDigestItem::Seal(*e, x.clone()),
                        DigestItem::Other(x) => ChainDigestItem::Other(x.clone()),
                        _ => unreachable!(),
                    })
                    .collect(),
            },
        })
        .collect();
    assert_eq!(encode_justification(&j), (j.round, commit, headers).encode());
}

#[test]
fn finality_proof_round_trips() {
    let j = sample_justification();
    let f = FinalityProof {
        block: [0x22; 32],
        justification: encode_justification(&j),
        unknown_headers: j.votes_ancestries.clone(),
    };
    let bytes = encode_finality_proof(&f);
    assert_eq!(decode_finality_proof(&bytes), Ok(f.clone()));
    assert_eq!(decode_justification(&decode_finality_proof(&bytes).unwrap().justification), Ok(j));
}

#[test]
fn authority_list_decodes_reference_encoding() {
    let stored: Vec<([u8; 32], u64)> = vec![([7; 32], 1), ([8; 32], u64::MAX)];
    let bytes = stored.encode();
    assert_eq!(
        decode_authorities(&bytes),
        Ok(vec![Authority { id: [7; 32], weight: 1 }, Authority { id: [8; 32], weight: u64::MAX }])
    );
    assert_eq!(decode_authorities(&bytes[..bytes.len() - 1].to_vec()), Err(DecodeError::Malformed));
    assert_eq!(decode_authorities(&vec![0]), Ok(vec![]));
}
