//! The records carried by a finality proof, and their mathematical models.
use vstd::prelude::*;

verus! {

/// One entry of a block header's digest.
#[derive(Clone, Debug, PartialEq, Eq)]
pub enum DigestItem {
    PreRuntime([u8; 4], Vec<u8>),
    Consensus([u8; 4], Vec<u8>),
    Seal([u8; 4], Vec<u8>),
    Other(Vec<u8>),
    RuntimeEnvironmentUpdated,
}

/// A block header with a `u32` block number.
#[derive(Clone, Debug, PartialEq, Eq)]
pub struct Header {
    pub parent_hash: [u8; 32],
    pub number: u32,
    pub state_root: [u8; 32],
    pub extrinsics_root: [u8; 32],
    pub digest: Vec<DigestItem>,
}

/// A vote to finalize the block `target_hash` at height `target_number`.
#[derive(Clone, Copy, Debug, PartialEq, Eq)]
pub struct Precommit {
    pub target_hash: [u8; 32],
    pub target_number: u32,
}

/// A precommit with the signature of the voter and the voter's key.
#[derive(Clone, Copy, Debug, PartialEq, Eq)]
pub struct SignedPrecommit {
    pub precommit: Precommit,
    pub signature: [u8; 64],
    pub id: [u8; 32],
}

/// The votes of one round, in the order in which they were recorded.
#[derive(Clone, Debug, PartialEq, Eq)]
pub struct Commit {
    pub target_hash: [u8; 32],
    pub target_number: u32,
    pub precommits: Vec<SignedPrecommit>,
}

/// The evidence that a block was finalized in `round`.
#[derive(Clone, Debug, PartialEq, Eq)]
pub struct GrandpaJustification {
    pub round: u64,
    pub commit: Commit,
    pub votes_ancestries: Vec<Header>,
}

/// What a node answers when asked to prove the finality of a block.
#[derive(Clone, Debug, PartialEq, Eq)]
pub struct FinalityProof {
    /// The hash of the block that the justification finalizes.
    pub block: [u8; 32],
    /// The encoded justification of that block.
    pub justification: Vec<u8>,
    /// Headers the caller may not know of, in chain order.
    pub unknown_headers: Vec<Header>,
}

/// An authority of the voter set: its ed25519 public key and its weight.
#[derive(Clone, Copy, Debug, PartialEq, Eq)]
pub struct Authority {
    pub id: [u8; 32],
    pub weight: u64,
}

/// Each authority as its key bytes and its weight.
pub open spec fn authorities_view(v: Seq<Authority>) -> Seq<(Seq<u8>, u64)> {
    v.map_values(|a: Authority| (a.id@, a.weight))
}

/// A digest entry as mathematical values.
pub enum DigestItemModel {
    PreRuntime(Seq<u8>, Seq<u8>),
    Consensus(Seq<u8>, Seq<u8>),
    Seal(Seq<u8>, Seq<u8>),
    Other(Seq<u8>),
    RuntimeEnvironmentUpdated,
}

/// A header as mathematical values; hashes are byte sequences.
pub struct HeaderModel {
    pub parent_hash: Seq<u8>,
    pub number: u32,
    pub state_root: Seq<u8>,
    pub extrinsics_root: Seq<u8>,
    pub digest: Seq<DigestItemModel>,
}

/// A precommit as mathematical values.
pub struct PrecommitModel {
    pub target_hash: Seq<u8>,
    pub target_number: u32,
}

/// A signed precommit as mathematical values.
pub struct SignedPrecommitModel {
    pub precommit: PrecommitModel,
    pub signature: Seq<u8>,
    pub id: Seq<u8>,
}

/// A commit as mathematical values, precommits in recorded order.
pub struct CommitModel {
    pub target_hash: Seq<u8>,
    pub target_number: u32,
    pub precommits: Seq<SignedPrecommitModel>,
}

/// A justification as mathematical values.
pub struct JustificationModel {
    pub round: u64,
    pub commit: CommitModel,
    pub votes_ancestries: Seq<HeaderModel>,
}

/// A finality proof as mathematical values.
pub struct FinalityProofModel {
    pub block: Seq<u8>,
    pub justification: Seq<u8>,
    pub unknown_headers: Seq<HeaderModel>,
}

pub open spec fn digests_view(v: Seq<DigestItem>) -> Seq<DigestItemModel> {
    v.map_values(|d: DigestItem| d@)
}

pub open spec fn headers_view(v: Seq<Header>) -> Seq<HeaderModel> {
    v.map_values(|h: Header| h@)
}

pub open spec fn precommits_view(v: Seq<SignedPrecommit>) -> Seq<SignedPrecommitModel> {
    v.map_values(|x: SignedPrecommit| x@)
}

impl View for DigestItem {
    type V = DigestItemModel;

    open spec fn view(&self) -> DigestItemModel {
        match self {
            DigestItem::PreRuntime(e, d) => DigestItemModel::PreRuntime(e@, d@),
            DigestItem::Consensus(e, d) => DigestItemModel::Consensus(e@, d@),
            DigestItem::Seal(e, d) => DigestItemModel::Seal(e@, d@),
            DigestItem::Other(d) => DigestItemModel::Other(d@),
            DigestItem::RuntimeEnvironmentUpdated => DigestItemModel::RuntimeEnvironmentUpdated,
        }
    }
}

impl View for Header {
    type V = HeaderModel;

    open spec fn view(&self) -> HeaderModel {
        HeaderModel {
            parent_hash: self.parent_hash@,
            number: self.number,
            state_root: self.state_root@,
            extrinsics_root: self.extrinsics_root@,
            digest: digests_view(self.digest@),
        }
    }
}

impl View for Precommit {
    type V = PrecommitModel;

    open spec fn view(&self) -> PrecommitModel {
        PrecommitModel { target_hash: self.target_hash@, target_number: self.target_number }
    }
}

impl View for SignedPrecommit {
    type V = SignedPrecommitModel;

    open spec fn view(&self) -> SignedPrecommitModel {
        SignedPrecommitModel {
            precommit: self.precommit@,
            signature: self.signature@,
            id: self.id@,
        }
    }
}

impl View for Commit {
    type V = CommitModel;

    open spec fn view(&self) -> CommitModel {
        CommitModel {
            target_hash: self.target_hash@,
            target_number: self.target_number,
            precommits: precommits_view(self.precommits@),
        }
    }
}

impl View for GrandpaJustification {
    type V = JustificationModel;

    open spec fn view(&self) -> JustificationModel {
        JustificationModel {
            round: self.round,
            commit: self.commit@,
            votes_ancestries: headers_view(self.votes_ancestries@),
        }
    }
}

impl View for FinalityProof {
    type V = FinalityProofModel;

    open spec fn view(&self) -> FinalityProofModel {
        FinalityProofModel {
            block: self.block@,
            justification: self.justification@,
            unknown_headers: headers_view(self.unknown_headers@),
        }
    }
}

} // verus!
