//! From the raw answer of a node to the batch of signature checks that proves a
//! block final.
use vstd::prelude::*;
use crate::batch::{
    accepted, all_accepted, array_keys, assemble, attest_batch, authority_keys, batch_of,
    guest_proofs_view, is_first_rejected, resolve, AttestationError, GuestProof,
    GuestProofModel, ProofAssemblyError, ResolveError, BATCH_ACCEPTED,
};
use crate::decode::{
    decode_finality_proof, decode_justification, decoded_finality_proof, decoded_justification,
    DecodeError,
};
use crate::scale::read_fixed;
use crate::types::{Authority, GrandpaJustification, JustificationModel};

verus! {

#[verifier::external_type_specification]
#[verifier::external_body]
pub struct ExFromHexError(hex::FromHexError);

pub open spec fn is_hex_digit(c: u8) -> bool {
    (48 <= c <= 57) || (97 <= c <= 102) || (65 <= c <= 70)
}

pub open spec fn hex_digit_value(c: u8) -> int {
    if 48 <= c <= 57 {
        c - 48
    } else if 97 <= c <= 102 {
        c - 87
    } else {
        c - 55
    }
}

/// Text that reads as bytes in hex: an even number of hex digits.
pub open spec fn is_hex_text(t: Seq<u8>) -> bool {
    t.len() % 2 == 0 && forall|i: int| 0 <= i < t.len() ==> is_hex_digit(#[trigger] t[i])
}

/// The bytes that hex text stands for, two digits each, high digit first.
pub open spec fn hex_value(t: Seq<u8>) -> Seq<u8> {
    Seq::new(
        (t.len() / 2) as nat,
        |i: int| (16 * hex_digit_value(t[2 * i]) + hex_digit_value(t[2 * i + 1])) as u8,
    )
}

/// Relies on hex::decode: it fails on odd length or on a byte that is not a
/// hex digit of either case, and otherwise turns each pair of digits into
/// one byte, high digit first.
#[verifier::external_body]
fn hex_decode(text: &[u8]) -> (r: Result<Vec<u8>, hex::FromHexError>)
    ensures
        r is Ok <==> is_hex_text(text@),
        r matches Ok(b) ==> b@ == hex_value(text@),
{
    hex::decode(text)
}

/// Why no batch could be prepared.
#[derive(Clone, Copy, Debug, PartialEq, Eq)]
pub enum ProofError {
    /// The node had no finality proof for the block.
    FinalityUnavailable,
    Decode(DecodeError),
    Resolve(ResolveError),
    Assembly(ProofAssemblyError),
}

/// The hex digits of the answer of the node, a JSON string: a quote, `0x`, the
/// digits and a closing quote.
pub open spec fn proof_hex_of(raw: Seq<u8>) -> Seq<u8> {
    raw.subrange(3, raw.len() - 1)
}

/// The encoded finality proof that the answer of the node carries.
pub open spec fn proof_bytes_of(raw: Seq<u8>) -> Result<Seq<u8>, ProofError> {
    if raw.len() <= 4 {
        Err(ProofError::FinalityUnavailable)
    } else if !is_hex_text(proof_hex_of(raw)) {
        Err(ProofError::Decode(DecodeError::Malformed))
    } else {
        Ok(hex_value(proof_hex_of(raw)))
    }
}

pub open spec fn first_rejected_index(us: Seq<GuestProofModel>) -> int {
    choose|i: int| is_first_rejected(us, i)
}

/// What attesting the units `us` gives.
pub open spec fn attestation_of(us: Seq<GuestProofModel>) -> Result<u32, AttestationError> {
    if all_accepted(us) {
        Ok(BATCH_ACCEPTED)
    } else {
        Err(AttestationError::Aborted(first_rejected_index(us) as usize))
    }
}

/// The batch for justification `j` against voter set `set_id` with
/// `authorities`, or why there is none.
pub open spec fn batch_for(j: JustificationModel, set_id: u64, authorities: Seq<Authority>) -> Result<
    Seq<GuestProofModel>,
    ProofError,
> {
    if j.commit.precommits.len() > authorities.len() {
        Err(ProofError::Resolve(ResolveError::AuthorityCountMismatch))
    } else {
        let b = batch_of(j.round, set_id, j.commit, authority_keys(authorities));
        if all_accepted(b) {
            Ok(b)
        } else {
            Err(
                ProofError::Assembly(ProofAssemblyError::InvalidVote(first_rejected_index(b) as usize)),
            )
        }
    }
}

/// The whole pipeline: the raw answer of the node is unwrapped, decoded as a
/// finality proof whose justification is decoded in turn, its votes are
/// paired with the authorities and every signature is checked.
pub open spec fn pipeline_of(raw: Seq<u8>, set_id: u64, authorities: Seq<Authority>) -> Result<
    Seq<GuestProofModel>,
    ProofError,
> {
    match proof_bytes_of(raw) {
        Err(e) => Err(e),
        Ok(b) => match decoded_finality_proof(b) {
            None => Err(ProofError::Decode(DecodeError::Malformed)),
            Some(f) => match decoded_justification(f.justification) {
                None => Err(ProofError::Decode(DecodeError::Malformed)),
                Some(j) => batch_for(j, set_id, authorities),
            },
        },
    }
}

pub open spec fn batch_result_view(r: Result<Vec<GuestProof>, ProofError>) -> Result<
    Seq<GuestProofModel>,
    ProofError,
> {
    match r {
        Ok(v) => Ok(guest_proofs_view(v@)),
        Err(e) => Err(e),
    }
}

proof fn lemma_first_rejected_unique(us: Seq<GuestProofModel>, i: int)
    requires
        is_first_rejected(us, i),
    ensures
        first_rejected_index(us) == i,
{
    let k = first_rejected_index(us);
    assert(is_first_rejected(us, k));
    if k < i {
        assert(accepted(us[k]));
    } else if i < k {
        assert(accepted(us[i]));
    }
}

/// Unwraps the hex text of the answer of the node and decodes it.
pub fn extract_proof_bytes(raw: &Vec<u8>) -> (r: Result<Vec<u8>, ProofError>)
    ensures
        match r {
            Ok(b) => proof_bytes_of(raw@) == Ok::<Seq<u8>, ProofError>(b@),
            Err(e) => proof_bytes_of(raw@) == Err::<Seq<u8>, ProofError>(e),
        },
{
    if raw.len() <= 4 {
        return Err(ProofError::FinalityUnavailable);
    }
    let (text, _) = read_fixed(raw, 3, raw.len() - 4).unwrap();
    match hex_decode(text.as_slice()) {
        Ok(b) => Ok(b),
        Err(_) => Err(ProofError::Decode(DecodeError::Malformed)),
    }
}

/// Verifies a batch as the proving environment does, stating the outcome
/// through `attestation_of`.
pub fn attest(units: &Vec<GuestProof>) -> (r: Result<u32, AttestationError>)
    ensures
        r == attestation_of(guest_proofs_view(units@)),
{
    let r = attest_batch(units);
    proof {
        if let Err(AttestationError::Aborted(i)) = r {
            lemma_first_rejected_unique(guest_proofs_view(units@), i as int);
        }
    }
    r
}

/// Prepares the batch of signature checks for the raw answer of a node to a
/// finality-proof request, given the voter set id and the authorities in
/// force at the finalized block.
pub fn prepare_batch(raw: &Vec<u8>, set_id: u64, authorities: &Vec<Authority>) -> (r: Result<
    Vec<GuestProof>,
    ProofError,
>)
    ensures
        batch_result_view(r) == pipeline_of(raw@, set_id, authorities@),
{
    let bytes = extract_proof_bytes(raw)?;
    let finality = match decode_finality_proof(&bytes) {
        Ok(f) => f,
        Err(e) => return Err(ProofError::Decode(e)),
    };
    let justification = match decode_justification(&finality.justification) {
        Ok(j) => j,
        Err(e) => return Err(ProofError::Decode(e)),
    };
    batch_from_justification(&justification, set_id, authorities)
}

/// Pairs the votes of `justification` with `authorities` and assembles the
/// checked batch.
pub fn batch_from_justification(
    justification: &GrandpaJustification,
    set_id: u64,
    authorities: &Vec<Authority>,
) -> (r: Result<Vec<GuestProof>, ProofError>)
    ensures
        batch_result_view(r) == batch_for(justification@, set_id, authorities@),
{
    let keys = match resolve(authorities, &justification.commit) {
        Ok(k) => k,
        Err(e) => return Err(ProofError::Resolve(e)),
    };
    let ghost j = justification@;
    let ghost full = batch_of(j.round, set_id, j.commit, authority_keys(authorities@));
    proof {
        assert(array_keys(keys@).len() == keys@.len());
        assert(batch_of(j.round, set_id, j.commit, array_keys(keys@)) =~= full);
    }
    match assemble(justification.round, set_id, &justification.commit, &keys) {
        Ok(units) => Ok(units),
        Err(ProofAssemblyError::InvalidVote(i)) => {
            proof {
                lemma_first_rejected_unique(full, i as int);
            }
            Err(ProofError::Assembly(ProofAssemblyError::InvalidVote(i)))
        },
    }
}

/// Running the pipeline twice on the same answer, set id and authorities
/// gives the same batch, or the same error, and attesting that batch gives
/// the same outcome both times.
pub proof fn lemma_pipeline_idempotent(
    raw: Seq<u8>,
    set_id: u64,
    authorities: Seq<Authority>,
    first: Result<Seq<GuestProofModel>, ProofError>,
    second: Result<Seq<GuestProofModel>, ProofError>,
)
    requires
        first == pipeline_of(raw, set_id, authorities),
        second == pipeline_of(raw, set_id, authorities),
    ensures
        first == second,
        first matches Ok(b1) ==> second matches Ok(b2) && attestation_of(b1) == attestation_of(b2),
{
}

/// A batch that the pipeline hands on is one that the attestation accepts.
pub proof fn lemma_prepared_batch_attests(raw: Seq<u8>, set_id: u64, authorities: Seq<Authority>)
    ensures
        pipeline_of(raw, set_id, authorities) matches Ok(b) ==> attestation_of(b) == Ok::<u32, AttestationError>(BATCH_ACCEPTED),
{
}

} // verus!
