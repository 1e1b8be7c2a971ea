//! Pairing votes with authorities, building the batch of signature checks,
//! and attesting that every check in a batch passes.
use vstd::prelude::*;
use crate::payload::{build_payload, payload_of};
use crate::types::{Authority, Commit, CommitModel, SignedPrecommitModel};

verus! {

/// Whether ed25519 accepts `signature` over `message` under the public key
/// whose compressed encoding is `public_key`.
pub uninterp spec fn ed25519_accepts(public_key: Seq<u8>, message: Seq<u8>, signature: Seq<u8>) -> bool;

/// Relies on ed25519-dalek: `VerifyingKey::from_bytes` decompresses the key
/// (failing on bytes that are no curve point) and `Verifier::verify` checks
/// the signature. Both are deterministic functions of the bytes.
#[verifier::external_body]
fn ed25519_verify(public_key: &[u8; 32], message: &[u8], signature: &[u8; 64]) -> (r: bool)
    ensures
        r == ed25519_accepts(public_key@, message@, signature@),
{
    match ed25519_dalek::VerifyingKey::from_bytes(public_key) {
        Ok(key) => ed25519_dalek::Verifier::verify(
            &key,
            message,
            &ed25519_dalek::Signature::from_bytes(signature),
        ).is_ok(),
        Err(_) => false,
    }
}

/// One signature check: the public key, the signed message and the signature.
#[derive(Clone, Debug, PartialEq, Eq)]
pub struct GuestProof(pub [u8; 32], pub Vec<u8>, pub [u8; 64]);

/// A unit as mathematical values.
pub struct GuestProofModel {
    pub public_key: Seq<u8>,
    pub message: Seq<u8>,
    pub signature: Seq<u8>,
}

impl View for GuestProof {
    type V = GuestProofModel;

    open spec fn view(&self) -> GuestProofModel {
        GuestProofModel { public_key: self.0@, message: self.1@, signature: self.2@ }
    }
}

pub open spec fn guest_proofs_view(v: Seq<GuestProof>) -> Seq<GuestProofModel> {
    v.map_values(|g: GuestProof| g@)
}

pub open spec fn accepted(u: GuestProofModel) -> bool {
    ed25519_accepts(u.public_key, u.message, u.signature)
}

pub open spec fn all_accepted(us: Seq<GuestProofModel>) -> bool {
    forall|i: int| 0 <= i < us.len() ==> accepted(#[trigger] us[i])
}

/// `i` is the first unit of `us` whose signature does not verify.
pub open spec fn is_first_rejected(us: Seq<GuestProofModel>, i: int) -> bool {
    &&& 0 <= i < us.len()
    &&& !accepted(us[i])
    &&& forall|j: int| 0 <= j < i ==> accepted(#[trigger] us[j])
}

/// `i` is the first `false` of `verdicts`.
pub open spec fn is_first_false(verdicts: Seq<bool>, i: int) -> bool {
    &&& 0 <= i < verdicts.len()
    &&& !verdicts[i]
    &&& forall|j: int| 0 <= j < i ==> #[trigger] verdicts[j]
}

/// The unit that checks `vote`, signed in `round` of set `set_id`, against `key`.
pub open spec fn unit_for(round: u64, set_id: u64, vote: SignedPrecommitModel, key: Seq<u8>) -> GuestProofModel {
    GuestProofModel {
        public_key: key,
        message: payload_of(round, set_id, vote.precommit),
        signature: vote.signature,
    }
}

/// One unit per precommit, in commit order, the `i`-th paired with `keys[i]`.
pub open spec fn batch_of(round: u64, set_id: u64, commit: CommitModel, keys: Seq<Seq<u8>>) -> Seq<GuestProofModel> {
    Seq::new(
        commit.precommits.len(),
        |i: int| unit_for(round, set_id, commit.precommits[i], keys[i]),
    )
}

pub open spec fn authority_keys(authorities: Seq<Authority>) -> Seq<Seq<u8>> {
    authorities.map_values(|a: Authority| a.id@)
}

pub open spec fn array_keys(keys: Seq<[u8; 32]>) -> Seq<Seq<u8>> {
    keys.map_values(|k: [u8; 32]| k@)
}

impl GuestProof {
    /// Checks the signature of this unit.
    pub fn verify(&self) -> (r: bool)
        ensures
            r == accepted(self@),
    {
        ed25519_verify(&self.0, self.1.as_slice(), &self.2)
    }
}

#[derive(Clone, Copy, Debug, PartialEq, Eq)]
pub enum ResolveError {
    /// The commit holds more precommits than the set has authorities.
    AuthorityCountMismatch,
}

#[derive(Clone, Copy, Debug, PartialEq, Eq)]
pub enum ProofAssemblyError {
    /// The signature of the precommit at this index does not verify.
    InvalidVote(usize),
}

#[derive(Clone, Copy, Debug, PartialEq, Eq)]
pub enum AttestationError {
    /// The unit at this index failed; nothing after it was checked.
    Aborted(usize),
}

/// The value that an attestation commits when every unit verified.
pub const BATCH_ACCEPTED: u32 = 42;

/// Pairs the `i`-th precommit with the `i`-th authority and returns the
/// claimed voters' keys, in commit order.
pub fn resolve(authorities: &Vec<Authority>, commit: &Commit) -> (r: Result<
    Vec<[u8; 32]>,
    ResolveError,
>)
    ensures
        r is Err <==> commit.precommits@.len() > authorities@.len(),
        r matches Ok(keys) ==> array_keys(keys@) == authority_keys(authorities@).subrange(
            0,
            commit.precommits@.len() as int,
        ),
{
    let n = commit.precommits.len();
    if n > authorities.len() {
        return Err(ResolveError::AuthorityCountMismatch);
    }
    let mut keys: Vec<[u8; 32]> = Vec::with_capacity(n);
    let mut i: usize = 0;
    while i < n
        invariant
            n <= authorities@.len(),
            i <= n,
            array_keys(keys@) == authority_keys(authorities@).subrange(0, i as int),
        decreases n - i,
    {
        let ghost before = array_keys(keys@);
        keys.push(authorities[i].id);
        assert(array_keys(keys@) =~= before.push(authorities@[i as int].id@));
        i = i + 1;
        assert(array_keys(keys@) =~= authority_keys(authorities@).subrange(0, i as int));
    }
    Ok(keys)
}

/// Builds one unit per precommit, in commit order.
pub fn build_units(round: u64, set_id: u64, commit: &Commit, keys: &Vec<[u8; 32]>) -> (r: Vec<GuestProof>)
    requires
        commit.precommits@.len() <= keys@.len(),
    ensures
        guest_proofs_view(r@) == batch_of(round, set_id, commit@, array_keys(keys@)),
{
    let n = commit.precommits.len();
    let mut units: Vec<GuestProof> = Vec::with_capacity(n);
    let mut i: usize = 0;
    while i < n
        invariant
            n == commit.precommits@.len(),
            n <= keys@.len(),
            i <= n,
            guest_proofs_view(units@) == batch_of(round, set_id, commit@, array_keys(keys@)).subrange(
                0,
                i as int,
            ),
        decreases n - i,
    {
        let vote = &commit.precommits[i];
        let message = build_payload(round, set_id, &vote.precommit);
        let ghost before = guest_proofs_view(units@);
        units.push(GuestProof(keys[i], message, vote.signature));
        proof {
            let b = batch_of(round, set_id, commit@, array_keys(keys@));
            assert(commit@.precommits[i as int] == commit.precommits@[i as int]@);
            assert(guest_proofs_view(units@) =~= before.push(b[i as int]));
        }
        i = i + 1;
        assert(guest_proofs_view(units@) =~= batch_of(
            round,
            set_id,
            commit@,
            array_keys(keys@),
        ).subrange(0, i as int));
    }
    assert(batch_of(round, set_id, commit@, array_keys(keys@)).subrange(0, n as int) =~= batch_of(
        round,
        set_id,
        commit@,
        array_keys(keys@),
    ));
    units
}

/// Checks the units in order and stops at the first that fails: the
/// verdicts are all `true` but for a last `false` where a unit failed.
pub fn check_units(units: &Vec<GuestProof>) -> (verdicts: Vec<bool>)
    ensures
        verdicts@.len() <= units@.len(),
        forall|i: int|
            0 <= i < verdicts@.len() ==> verdicts@[i] == accepted(#[trigger] units@[i]@),
        forall|i: int| 0 <= i < verdicts@.len() - 1 ==> #[trigger] verdicts@[i],
        verdicts@.len() < units@.len() ==> verdicts@.len() > 0 && !verdicts@.last(),
{
    let mut verdicts: Vec<bool> = Vec::with_capacity(units.len());
    let mut i: usize = 0;
    while i < units.len()
        invariant
            i <= units@.len(),
            verdicts@.len() == i,
            forall|j: int| 0 <= j < i ==> verdicts@[j] == accepted(#[trigger] units@[j]@),
            forall|j: int| 0 <= j < i ==> #[trigger] verdicts@[j],
        decreases units@.len() - i,
    {
        let ok = units[i].verify();
        verdicts.push(ok);
        if !ok {
            return verdicts;
        }
        i = i + 1;
    }
    verdicts
}

/// The index of the first `false` among `verdicts`, if there is one.
pub fn first_rejected(verdicts: &Vec<bool>) -> (r: Option<usize>)
    ensures
        match r {
            None => forall|i: int| 0 <= i < verdicts@.len() ==> #[trigger] verdicts@[i],
            Some(i) => is_first_false(verdicts@, i as int),
        },
{
    let mut i: usize = 0;
    while i < verdicts.len()
        invariant
            i <= verdicts@.len(),
            forall|j: int| 0 <= j < i ==> #[trigger] verdicts@[j],
        decreases verdicts@.len() - i,
    {
        if !verdicts[i] {
            return Some(i);
        }
        i = i + 1;
    }
    None
}

/// The outcome of an attestation whose checks gave `verdicts`: the committed
/// value when all passed, else the index of the first that failed.
pub fn attestation_outcome(verdicts: &Vec<bool>) -> (r: Result<u32, AttestationError>)
    ensures
        match r {
            Ok(v) => v == BATCH_ACCEPTED && forall|i: int|
                0 <= i < verdicts@.len() ==> #[trigger] verdicts@[i],
            Err(AttestationError::Aborted(i)) => is_first_false(verdicts@, i as int),
        },
{
    match first_rejected(verdicts) {
        None => Ok(BATCH_ACCEPTED),
        Some(i) => Err(AttestationError::Aborted(i)),
    }
}

proof fn lemma_verdicts_reflect_units(units: Seq<GuestProof>, verdicts: Seq<bool>)
    requires
        verdicts.len() <= units.len(),
        forall|i: int| 0 <= i < verdicts.len() ==> verdicts[i] == accepted(#[trigger] units[i]@),
        forall|i: int| 0 <= i < verdicts.len() - 1 ==> #[trigger] verdicts[i],
        verdicts.len() < units.len() ==> verdicts.len() > 0 && !verdicts.last(),
    ensures
        (forall|i: int| 0 <= i < verdicts.len() ==> #[trigger] verdicts[i]) <==> all_accepted(
            guest_proofs_view(units),
        ),
        forall|i: int|
            is_first_false(verdicts, i) ==> #[trigger] is_first_rejected(guest_proofs_view(units), i),
{
    let us = guest_proofs_view(units);
    if forall|i: int| 0 <= i < verdicts.len() ==> #[trigger] verdicts[i] {
        assert(verdicts.len() == units.len());
        assert forall|i: int| 0 <= i < us.len() implies accepted(#[trigger] us[i]) by {
            assert(verdicts[i]);
        }
    }
    if all_accepted(us) {
        assert forall|i: int| 0 <= i < verdicts.len() implies #[trigger] verdicts[i] by {
            assert(accepted(us[i]));
        }
    }
    assert forall|i: int| is_first_false(verdicts, i) implies #[trigger] is_first_rejected(us, i) by {
        assert forall|j: int| 0 <= j < i implies accepted(#[trigger] us[j]) by {
            assert(verdicts[j]);
        }
    }
}

/// Verifies every unit of the batch, in order, and aborts at the first that
/// fails: the attestation is all or nothing.
pub fn attest_batch(units: &Vec<GuestProof>) -> (r: Result<u32, AttestationError>)
    ensures
        match r {
            Ok(v) => v == BATCH_ACCEPTED && all_accepted(guest_proofs_view(units@)),
            Err(AttestationError::Aborted(i)) => is_first_rejected(
                guest_proofs_view(units@),
                i as int,
            ),
        },
{
    let verdicts = check_units(units);
    proof {
        lemma_verdicts_reflect_units(units@, verdicts@);
    }
    attestation_outcome(&verdicts)
}

/// Builds the batch for `commit` against the resolved `keys`, checking
/// each unit before it is handed on: the first vote whose signature fails
/// is reported and no batch is produced.
pub fn assemble(round: u64, set_id: u64, commit: &Commit, keys: &Vec<[u8; 32]>) -> (r: Result<
    Vec<GuestProof>,
    ProofAssemblyError,
>)
    requires
        commit.precommits@.len() <= keys@.len(),
    ensures
        match r {
            Ok(units) => guest_proofs_view(units@) == batch_of(
                round,
                set_id,
                commit@,
                array_keys(keys@),
            ) && all_accepted(guest_proofs_view(units@)),
            Err(ProofAssemblyError::InvalidVote(i)) => is_first_rejected(
                batch_of(round, set_id, commit@, array_keys(keys@)),
                i as int,
            ),
        },
{
    let units = build_units(round, set_id, commit, keys);
    match attest_batch(&units) {
        Ok(_) => Ok(units),
        Err(AttestationError::Aborted(i)) => Err(ProofAssemblyError::InvalidVote(i)),
    }
}

} // verus!
