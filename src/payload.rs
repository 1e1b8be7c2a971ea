//! The message that a voter signs for a precommit.
use vstd::prelude::*;
use crate::scale::{
    enc_u32, enc_u64, holds_at, le_u64_at, lemma_holds_split, lemma_u64_round_trip, push_slice,
    push_u32, push_u64,
};
use crate::types::{Precommit, PrecommitModel};

verus! {

/// Tag of the precommit variant among the vote messages.
pub const PRECOMMIT_TAG: u8 = 1;

/// The signed message: the vote tagged as a precommit, then the round and
/// the voter-set id, all SCALE-encoded.
pub open spec fn payload_of(round: u64, set_id: u64, vote: PrecommitModel) -> Seq<u8> {
    seq![PRECOMMIT_TAG] + vote.target_hash + enc_u32(vote.target_number) + enc_u64(round) + enc_u64(
        set_id,
    )
}

/// Rebuilds the exact bytes that the voter of `vote` signed in `round` of
/// the voter set `set_id`.
pub fn build_payload(round: u64, set_id: u64, vote: &Precommit) -> (r: Vec<u8>)
    ensures
        r@ == payload_of(round, set_id, vote@),
{
    let mut out: Vec<u8> = Vec::with_capacity(53);
    out.push(PRECOMMIT_TAG);
    push_slice(&mut out, vote.target_hash.as_slice());
    push_u32(&mut out, vote.target_number);
    push_u64(&mut out, round);
    push_u64(&mut out, set_id);
    assert(out@ =~= payload_of(round, set_id, vote@));
    out
}

/// The payload is determined by round, set id and vote, and it tells rounds
/// and sets apart: for the same vote, two payloads are equal exactly when
/// their rounds and their set ids are.
pub proof fn lemma_payload_domain_separation(
    r1: u64,
    s1: u64,
    r2: u64,
    s2: u64,
    vote: PrecommitModel,
)
    requires
        vote.target_hash.len() == 32,
    ensures
        (payload_of(r1, s1, vote) == payload_of(r2, s2, vote)) <==> (r1 == r2 && s1 == s2),
{
    if payload_of(r1, s1, vote) == payload_of(r2, s2, vote) {
        lemma_payload_fields(r1, s1, vote);
        lemma_payload_fields(r2, s2, vote);
    }
}

/// Round and set id can be read back from a payload.
proof fn lemma_payload_fields(round: u64, set_id: u64, vote: PrecommitModel)
    requires
        vote.target_hash.len() == 32,
    ensures
        le_u64_at(payload_of(round, set_id, vote), 37) == round,
        le_u64_at(payload_of(round, set_id, vote), 45) == set_id,
{
    let s = payload_of(round, set_id, vote);
    let head = seq![PRECOMMIT_TAG] + vote.target_hash + enc_u32(vote.target_number);
    assert(s.subrange(0, s.len() as int) =~= s);
    assert(holds_at(s, 0, head + enc_u64(round) + enc_u64(set_id)));
    lemma_holds_split(s, 0, head + enc_u64(round), enc_u64(set_id));
    lemma_holds_split(s, 0, head, enc_u64(round));
    lemma_u64_round_trip(s, 37, round);
    lemma_u64_round_trip(s, 45, set_id);
}

} // verus!
