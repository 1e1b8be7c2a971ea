//! The grammar of justifications and finality proofs: what each record's
//! bytes are, how they are read back, and the proof that reading inverts
//! writing.
use vstd::prelude::*;
use crate::scale::{
    enc_bytes, enc_compact, enc_u32, enc_u64, holds_at, lemma_bytes_round_trip,
    lemma_compact_round_trip, lemma_fixed_round_trip, lemma_holds_split, lemma_u32_round_trip,
    lemma_u64_round_trip, parse_bytes, parse_compact, parse_fixed, parse_u32, parse_u64,
};
use crate::scale::{read_bytes, read_compact, read_u32, read_u64};
use crate::types::{
    authorities_view, Authority, Commit, DigestItem, FinalityProof, GrandpaJustification, Header, Precommit, SignedPrecommit,
    digests_view, headers_view, precommits_view, CommitModel, DigestItemModel, FinalityProofModel, HeaderModel, JustificationModel,
    PrecommitModel, SignedPrecommitModel,
};

verus! {

/// `n` items, one after the other, each read by `item`.
pub open spec fn parse_list<T>(
    s: Seq<u8>,
    p: int,
    n: nat,
    item: spec_fn(Seq<u8>, int) -> Option<(T, int)>,
) -> Option<(Seq<T>, int)>
    decreases n,
{
    if n == 0 {
        Some((Seq::empty(), p))
    } else {
        match parse_list(s, p, (n - 1) as nat, item) {
            Some((xs, q)) => match item(s, q) {
                Some((x, r)) => Some((xs.push(x), r)),
                None => None,
            },
            None => None,
        }
    }
}

pub open spec fn enc_list<T>(xs: Seq<T>, enc: spec_fn(T) -> Seq<u8>) -> Seq<u8>
    decreases xs.len(),
{
    if xs.len() == 0 {
        Seq::empty()
    } else {
        enc_list(xs.drop_last(), enc) + enc(xs.last())
    }
}

pub proof fn lemma_list_round_trip<T>(
    s: Seq<u8>,
    p: int,
    xs: Seq<T>,
    item: spec_fn(Seq<u8>, int) -> Option<(T, int)>,
    enc: spec_fn(T) -> Seq<u8>,
    wf: spec_fn(T) -> bool,
)
    requires
        holds_at(s, p, enc_list(xs, enc)),
        forall|i: int| 0 <= i < xs.len() ==> wf(#[trigger] xs[i]),
        forall|x: T, q: int|
            wf(x) && #[trigger] holds_at(s, q, enc(x)) ==> item(s, q) == Some(
                (x, q + enc(x).len()),
            ),
    ensures
        parse_list(s, p, xs.len(), item) == Some((xs, p + enc_list(xs, enc).len())),
    decreases xs.len(),
{
    if xs.len() > 0 {
        let init = xs.drop_last();
        lemma_holds_split(s, p, enc_list(init, enc), enc(xs.last()));
        assert forall|i: int| 0 <= i < init.len() implies wf(#[trigger] init[i]) by {
            assert(init[i] == xs[i]);
        }
        lemma_list_round_trip(s, p, init, item, enc, wf);
        assert(wf(xs[xs.len() - 1]));
        assert(init.push(xs.last()) =~= xs);
    }
}

/// Once a list fails to read, every longer list at the same place fails too.
pub proof fn lemma_list_failure_extends<T>(
    s: Seq<u8>,
    p: int,
    m: nat,
    n: nat,
    item: spec_fn(Seq<u8>, int) -> Option<(T, int)>,
)
    requires
        m <= n,
        parse_list(s, p, m, item) is None,
    ensures
        parse_list(s, p, n, item) is None,
    decreases n,
{
    if m < n {
        lemma_list_failure_extends(s, p, m, (n - 1) as nat, item);
    }
}

/// A list fails to read where one of its items does.
pub proof fn lemma_list_stops<T>(
    s: Seq<u8>,
    p: int,
    i: nat,
    n: nat,
    item: spec_fn(Seq<u8>, int) -> Option<(T, int)>,
    xs: Seq<T>,
    q: int,
)
    requires
        i < n,
        parse_list(s, p, i, item) == Some((xs, q)),
        item(s, q) is None,
    ensures
        parse_list(s, p, n, item) is None,
{
    assert(parse_list(s, p, i + 1, item) is None);
    lemma_list_failure_extends(s, p, i + 1, n, item);
}

pub open spec fn parse_digest_item(s: Seq<u8>, p: int) -> Option<(DigestItemModel, int)> {
    if p < 0 || p >= s.len() {
        None
    } else {
        let tag = s[p];
        if tag == 0 {
            match parse_bytes(s, p + 1) {
                Some((d, q)) => Some((DigestItemModel::Other(d), q)),
                None => None,
            }
        } else if tag == 4 || tag == 5 || tag == 6 {
            match parse_fixed(s, p + 1, 4) {
                Some((e, q)) => match parse_bytes(s, q) {
                    Some((d, r)) => Some(
                        (
                            if tag == 4 {
                                DigestItemModel::Consensus(e, d)
                            } else if tag == 5 {
                                DigestItemModel::Seal(e, d)
                            } else {
                                DigestItemModel::PreRuntime(e, d)
                            },
                            r,
                        ),
                    ),
                    None => None,
                },
                None => None,
            }
        } else if tag == 8 {
            Some((DigestItemModel::RuntimeEnvironmentUpdated, p + 1))
        } else {
            None
        }
    }
}

pub open spec fn enc_digest_item(d: DigestItemModel) -> Seq<u8> {
    match d {
        DigestItemModel::PreRuntime(e, x) => seq![6u8] + e + enc_bytes(x),
        DigestItemModel::Consensus(e, x) => seq![4u8] + e + enc_bytes(x),
        DigestItemModel::Seal(e, x) => seq![5u8] + e + enc_bytes(x),
        DigestItemModel::Other(x) => seq![0u8] + enc_bytes(x),
        DigestItemModel::RuntimeEnvironmentUpdated => seq![8u8],
    }
}

pub open spec fn digest_item_wf(d: DigestItemModel) -> bool {
    match d {
        DigestItemModel::PreRuntime(e, x) => e.len() == 4 && x.len() <= u32::MAX,
        DigestItemModel::Consensus(e, x) => e.len() == 4 && x.len() <= u32::MAX,
        DigestItemModel::Seal(e, x) => e.len() == 4 && x.len() <= u32::MAX,
        DigestItemModel::Other(x) => x.len() <= u32::MAX,
        DigestItemModel::RuntimeEnvironmentUpdated => true,
    }
}

pub open spec fn digest_item_parser() -> spec_fn(Seq<u8>, int) -> Option<(DigestItemModel, int)> {
    |s: Seq<u8>, p: int| parse_digest_item(s, p)
}

pub open spec fn digest_item_encoder() -> spec_fn(DigestItemModel) -> Seq<u8> {
    |d: DigestItemModel| enc_digest_item(d)
}

pub open spec fn digest_item_checker() -> spec_fn(DigestItemModel) -> bool {
    |d: DigestItemModel| digest_item_wf(d)
}

proof fn lemma_tagged_round_trip(s: Seq<u8>, p: int, tag: u8, e: Seq<u8>, x: Seq<u8>)
    requires
        e.len() == 4,
        x.len() <= u32::MAX,
        holds_at(s, p, seq![tag] + e + enc_bytes(x)),
    ensures
        p < s.len(),
        s[p] == tag,
        parse_fixed(s, p + 1, 4) == Some((e, p + 5)),
        parse_bytes(s, p + 5) == Some((x, p + 5 + enc_bytes(x).len())),
{
    lemma_holds_split(s, p, seq![tag] + e, enc_bytes(x));
    lemma_holds_split(s, p, seq![tag], e);
    crate::scale::lemma_holds_byte(s, p, seq![tag], 0);
    lemma_fixed_round_trip(s, p + 1, e);
    lemma_bytes_round_trip(s, p + 5, x);
}

pub proof fn lemma_digest_item_round_trip(s: Seq<u8>, p: int, d: DigestItemModel)
    requires
        digest_item_wf(d),
        holds_at(s, p, enc_digest_item(d)),
    ensures
        parse_digest_item(s, p) == Some((d, p + enc_digest_item(d).len())),
{
    match d {
        DigestItemModel::PreRuntime(e, x) => lemma_tagged_round_trip(s, p, 6u8, e, x),
        DigestItemModel::Consensus(e, x) => lemma_tagged_round_trip(s, p, 4u8, e, x),
        DigestItemModel::Seal(e, x) => lemma_tagged_round_trip(s, p, 5u8, e, x),
        DigestItemModel::Other(x) => {
            lemma_holds_split(s, p, seq![0u8], enc_bytes(x));
            crate::scale::lemma_holds_byte(s, p, seq![0u8], 0);
            lemma_bytes_round_trip(s, p + 1, x);
        },
        DigestItemModel::RuntimeEnvironmentUpdated => {
            crate::scale::lemma_holds_byte(s, p, seq![8u8], 0);
        },
    }
}

pub open spec fn parse_header(s: Seq<u8>, p: int) -> Option<(HeaderModel, int)> {
    match parse_fixed(s, p, 32) {
        Some((parent_hash, p1)) => match parse_compact(s, p1) {
            Some((number, p2)) => match parse_fixed(s, p2, 32) {
                Some((state_root, p3)) => match parse_fixed(s, p3, 32) {
                    Some((extrinsics_root, p4)) => match parse_compact(s, p4) {
                        Some((n, p5)) => match parse_list(s, p5, n as nat, digest_item_parser()) {
                            Some((digest, p6)) => Some(
                                (
                                    HeaderModel {
                                        parent_hash,
                                        number,
                                        state_root,
                                        extrinsics_root,
                                        digest,
                                    },
                                    p6,
                                ),
                            ),
                            None => None,
                        },
                        None => None,
                    },
                    None => None,
                },
                None => None,
            },
            None => None,
        },
        None => None,
    }
}

pub open spec fn enc_header(h: HeaderModel) -> Seq<u8> {
    h.parent_hash + enc_compact(h.number) + h.state_root + h.extrinsics_root + enc_compact(
        h.digest.len() as u32,
    ) + enc_list(h.digest, digest_item_encoder())
}

pub open spec fn header_wf(h: HeaderModel) -> bool {
    &&& h.parent_hash.len() == 32
    &&& h.state_root.len() == 32
    &&& h.extrinsics_root.len() == 32
    &&& h.digest.len() <= u32::MAX
    &&& forall|i: int| 0 <= i < h.digest.len() ==> digest_item_wf(#[trigger] h.digest[i])
}

pub open spec fn header_parser() -> spec_fn(Seq<u8>, int) -> Option<(HeaderModel, int)> {
    |s: Seq<u8>, p: int| parse_header(s, p)
}

pub open spec fn header_encoder() -> spec_fn(HeaderModel) -> Seq<u8> {
    |h: HeaderModel| enc_header(h)
}

pub open spec fn header_checker() -> spec_fn(HeaderModel) -> bool {
    |h: HeaderModel| header_wf(h)
}

pub proof fn lemma_header_round_trip(s: Seq<u8>, p: int, h: HeaderModel)
    requires
        header_wf(h),
        holds_at(s, p, enc_header(h)),
    ensures
        parse_header(s, p) == Some((h, p + enc_header(h).len())),
{
    let a = h.parent_hash;
    let b = enc_compact(h.number);
    let c = h.state_root;
    let d = h.extrinsics_root;
    let e = enc_compact(h.digest.len() as u32);
    let f = enc_list(h.digest, digest_item_encoder());
    lemma_holds_split(s, p, a + b + c + d + e, f);
    lemma_holds_split(s, p, a + b + c + d, e);
    lemma_holds_split(s, p, a + b + c, d);
    lemma_holds_split(s, p, a + b, c);
    lemma_holds_split(s, p, a, b);
    lemma_fixed_round_trip(s, p, a);
    lemma_compact_round_trip(s, p + 32, h.number);
    let p2 = p + 32 + b.len();
    lemma_fixed_round_trip(s, p2, c);
    lemma_fixed_round_trip(s, p2 + 32, d);
    lemma_compact_round_trip(s, p2 + 64, h.digest.len() as u32);
    assert forall|x: DigestItemModel, q: int|
        digest_item_checker()(x) && #[trigger] holds_at(s, q, digest_item_encoder()(x)) implies digest_item_parser()(
        s,
        q,
    ) == Some((x, q + digest_item_encoder()(x).len())) by {
        lemma_digest_item_round_trip(s, q, x);
    }
    lemma_list_round_trip(
        s,
        p2 + 64 + e.len(),
        h.digest,
        digest_item_parser(),
        digest_item_encoder(),
        digest_item_checker(),
    );
}

pub open spec fn parse_signed_precommit(s: Seq<u8>, p: int) -> Option<(SignedPrecommitModel, int)> {
    match parse_fixed(s, p, 32) {
        Some((target_hash, p1)) => match parse_u32(s, p1) {
            Some((target_number, p2)) => match parse_fixed(s, p2, 64) {
                Some((signature, p3)) => match parse_fixed(s, p3, 32) {
                    Some((id, p4)) => Some(
                        (
                            SignedPrecommitModel {
                                precommit: PrecommitModel { target_hash, target_number },
                                signature,
                                id,
                            },
                            p4,
                        ),
                    ),
                    None => None,
                },
                None => None,
            },
            None => None,
        },
        None => None,
    }
}

pub open spec fn enc_signed_precommit(v: SignedPrecommitModel) -> Seq<u8> {
    v.precommit.target_hash + enc_u32(v.precommit.target_number) + v.signature + v.id
}

pub open spec fn signed_precommit_wf(v: SignedPrecommitModel) -> bool {
    v.precommit.target_hash.len() == 32 && v.signature.len() == 64 && v.id.len() == 32
}

pub open spec fn signed_precommit_parser() -> spec_fn(Seq<u8>, int) -> Option<(SignedPrecommitModel, int)> {
    |s: Seq<u8>, p: int| parse_signed_precommit(s, p)
}

pub open spec fn signed_precommit_encoder() -> spec_fn(SignedPrecommitModel) -> Seq<u8> {
    |v: SignedPrecommitModel| enc_signed_precommit(v)
}

pub open spec fn signed_precommit_checker() -> spec_fn(SignedPrecommitModel) -> bool {
    |v: SignedPrecommitModel| signed_precommit_wf(v)
}

pub proof fn lemma_signed_precommit_round_trip(s: Seq<u8>, p: int, v: SignedPrecommitModel)
    requires
        signed_precommit_wf(v),
        holds_at(s, p, enc_signed_precommit(v)),
    ensures
        parse_signed_precommit(s, p) == Some((v, p + enc_signed_precommit(v).len())),
{
    let a = v.precommit.target_hash;
    let b = enc_u32(v.precommit.target_number);
    lemma_holds_split(s, p, a + b + v.signature, v.id);
    lemma_holds_split(s, p, a + b, v.signature);
    lemma_holds_split(s, p, a, b);
    lemma_fixed_round_trip(s, p, a);
    lemma_u32_round_trip(s, p + 32, v.precommit.target_number);
    lemma_fixed_round_trip(s, p + 36, v.signature);
    lemma_fixed_round_trip(s, p + 100, v.id);
}

pub open spec fn parse_commit(s: Seq<u8>, p: int) -> Option<(CommitModel, int)> {
    match parse_fixed(s, p, 32) {
        Some((target_hash, p1)) => match parse_u32(s, p1) {
            Some((target_number, p2)) => match parse_compact(s, p2) {
                Some((n, p3)) => match parse_list(s, p3, n as nat, signed_precommit_parser()) {
                    Some((precommits, p4)) => Some(
                        (CommitModel { target_hash, target_number, precommits }, p4),
                    ),
                    None => None,
                },
                None => None,
            },
            None => None,
        },
        None => None,
    }
}

pub open spec fn enc_commit(c: CommitModel) -> Seq<u8> {
    c.target_hash + enc_u32(c.target_number) + enc_compact(c.precommits.len() as u32) + enc_list(
        c.precommits,
        signed_precommit_encoder(),
    )
}

pub open spec fn commit_wf(c: CommitModel) -> bool {
    &&& c.target_hash.len() == 32
    &&& c.precommits.len() <= u32::MAX
    &&& forall|i: int|
        0 <= i < c.precommits.len() ==> signed_precommit_wf(#[trigger] c.precommits[i])
}

pub proof fn lemma_commit_round_trip(s: Seq<u8>, p: int, c: CommitModel)
    requires
        commit_wf(c),
        holds_at(s, p, enc_commit(c)),
    ensures
        parse_commit(s, p) == Some((c, p + enc_commit(c).len())),
{
    let a = c.target_hash;
    let b = enc_u32(c.target_number);
    let d = enc_compact(c.precommits.len() as u32);
    let e = enc_list(c.precommits, signed_precommit_encoder());
    lemma_holds_split(s, p, a + b + d, e);
    lemma_holds_split(s, p, a + b, d);
    lemma_holds_split(s, p, a, b);
    lemma_fixed_round_trip(s, p, a);
    lemma_u32_round_trip(s, p + 32, c.target_number);
    lemma_compact_round_trip(s, p + 36, c.precommits.len() as u32);
    assert forall|x: SignedPrecommitModel, q: int|
        signed_precommit_checker()(x) && #[trigger] holds_at(
            s,
            q,
            signed_precommit_encoder()(x),
        ) implies signed_precommit_parser()(s, q) == Some(
        (x, q + signed_precommit_encoder()(x).len()),
    ) by {
        lemma_signed_precommit_round_trip(s, q, x);
    }
    lemma_list_round_trip(
        s,
        p + 36 + d.len(),
        c.precommits,
        signed_precommit_parser(),
        signed_precommit_encoder(),
        signed_precommit_checker(),
    );
}

/// A compact count `n` followed by `n` headers.
pub open spec fn parse_headers(s: Seq<u8>, p: int) -> Option<(Seq<HeaderModel>, int)> {
    match parse_compact(s, p) {
        Some((n, q)) => parse_list(s, q, n as nat, header_parser()),
        None => None,
    }
}

pub open spec fn enc_headers(hs: Seq<HeaderModel>) -> Seq<u8> {
    enc_compact(hs.len() as u32) + enc_list(hs, header_encoder())
}

pub open spec fn headers_wf(hs: Seq<HeaderModel>) -> bool {
    hs.len() <= u32::MAX && forall|i: int| 0 <= i < hs.len() ==> header_wf(#[trigger] hs[i])
}

pub proof fn lemma_headers_round_trip(s: Seq<u8>, p: int, hs: Seq<HeaderModel>)
    requires
        headers_wf(hs),
        holds_at(s, p, enc_headers(hs)),
    ensures
        parse_headers(s, p) == Some((hs, p + enc_headers(hs).len())),
{
    let a = enc_compact(hs.len() as u32);
    lemma_holds_split(s, p, a, enc_list(hs, header_encoder()));
    lemma_compact_round_trip(s, p, hs.len() as u32);
    assert forall|x: HeaderModel, q: int|
        header_checker()(x) && #[trigger] holds_at(s, q, header_encoder()(x)) implies header_parser()(
        s,
        q,
    ) == Some((x, q + header_encoder()(x).len())) by {
        lemma_header_round_trip(s, q, x);
    }
    lemma_list_round_trip(s, p + a.len(), hs, header_parser(), header_encoder(), header_checker());
}

pub open spec fn parse_justification(s: Seq<u8>, p: int) -> Option<(JustificationModel, int)> {
    match parse_u64(s, p) {
        Some((round, p1)) => match parse_commit(s, p1) {
            Some((commit, p2)) => match parse_headers(s, p2) {
                Some((votes_ancestries, p3)) => Some(
                    (JustificationModel { round, commit, votes_ancestries }, p3),
                ),
                None => None,
            },
            None => None,
        },
        None => None,
    }
}

pub open spec fn enc_justification(j: JustificationModel) -> Seq<u8> {
    enc_u64(j.round) + enc_commit(j.commit) + enc_headers(j.votes_ancestries)
}

pub open spec fn justification_wf(j: JustificationModel) -> bool {
    commit_wf(j.commit) && headers_wf(j.votes_ancestries)
}

pub proof fn lemma_justification_parse_round_trip(s: Seq<u8>, p: int, j: JustificationModel)
    requires
        justification_wf(j),
        holds_at(s, p, enc_justification(j)),
    ensures
        parse_justification(s, p) == Some((j, p + enc_justification(j).len())),
{
    let a = enc_u64(j.round);
    let b = enc_commit(j.commit);
    lemma_holds_split(s, p, a + b, enc_headers(j.votes_ancestries));
    lemma_holds_split(s, p, a, b);
    lemma_u64_round_trip(s, p, j.round);
    lemma_commit_round_trip(s, p + 8, j.commit);
    lemma_headers_round_trip(s, p + 8 + b.len(), j.votes_ancestries);
}

pub open spec fn parse_finality_proof(s: Seq<u8>, p: int) -> Option<(FinalityProofModel, int)> {
    match parse_fixed(s, p, 32) {
        Some((block, p1)) => match parse_bytes(s, p1) {
            Some((justification, p2)) => match parse_headers(s, p2) {
                Some((unknown_headers, p3)) => Some(
                    (FinalityProofModel { block, justification, unknown_headers }, p3),
                ),
                None => None,
            },
            None => None,
        },
        None => None,
    }
}

pub open spec fn enc_finality_proof(f: FinalityProofModel) -> Seq<u8> {
    f.block + enc_bytes(f.justification) + enc_headers(f.unknown_headers)
}

pub open spec fn finality_proof_wf(f: FinalityProofModel) -> bool {
    f.block.len() == 32 && f.justification.len() <= u32::MAX && headers_wf(f.unknown_headers)
}

pub proof fn lemma_finality_proof_parse_round_trip(s: Seq<u8>, p: int, f: FinalityProofModel)
    requires
        finality_proof_wf(f),
        holds_at(s, p, enc_finality_proof(f)),
    ensures
        parse_finality_proof(s, p) == Some((f, p + enc_finality_proof(f).len())),
{
    let b = enc_bytes(f.justification);
    lemma_holds_split(s, p, f.block + b, enc_headers(f.unknown_headers));
    lemma_holds_split(s, p, f.block, b);
    lemma_fixed_round_trip(s, p, f.block);
    lemma_bytes_round_trip(s, p + 32, f.justification);
    lemma_headers_round_trip(s, p + 32 + b.len(), f.unknown_headers);
}

/// Why bytes could not be read as the record asked for.
#[derive(Clone, Copy, Debug, PartialEq, Eq)]
pub enum DecodeError {
    /// The bytes end too early, hold an unknown variant tag or a
    /// non-canonical length prefix.
    Malformed,
}

/// The justification that `b` starts with; trailing bytes are ignored.
#[verifier::opaque]
pub open spec fn decoded_justification(b: Seq<u8>) -> Option<JustificationModel> {
    match parse_justification(b, 0) {
        Some((j, _)) => Some(j),
        None => None,
    }
}

/// The finality proof that `b` starts with; trailing bytes are ignored.
#[verifier::opaque]
pub open spec fn decoded_finality_proof(b: Seq<u8>) -> Option<FinalityProofModel> {
    match parse_finality_proof(b, 0) {
        Some((f, _)) => Some(f),
        None => None,
    }
}

/// Decoding inverts encoding: the bytes of a well-formed justification,
/// whatever follows them, decode to that same justification.
pub proof fn lemma_justification_round_trip(j: JustificationModel, rest: Seq<u8>)
    requires
        justification_wf(j),
    ensures
        decoded_justification(enc_justification(j) + rest) == Some(j),
{
    let s = enc_justification(j) + rest;
    assert(s.subrange(0, enc_justification(j).len() as int) =~= enc_justification(j));
    lemma_justification_parse_round_trip(s, 0, j);
    reveal(decoded_justification);
}

/// Decoding inverts encoding for finality proofs too.
pub proof fn lemma_finality_proof_round_trip(f: FinalityProofModel, rest: Seq<u8>)
    requires
        finality_proof_wf(f),
    ensures
        decoded_finality_proof(enc_finality_proof(f) + rest) == Some(f),
{
    let s = enc_finality_proof(f) + rest;
    assert(s.subrange(0, enc_finality_proof(f).len() as int) =~= enc_finality_proof(f));
    lemma_finality_proof_parse_round_trip(s, 0, f);
    reveal(decoded_finality_proof);
}

/// Copies the `N` bytes at `p` into an array.
pub fn read_array<const N: usize>(s: &Vec<u8>, p: usize) -> (r: Option<([u8; N], usize)>)
    ensures
        match r {
            Some((a, q)) => parse_fixed(s@, p as int, N as int) == Some((a@, q as int)),
            None => parse_fixed(s@, p as int, N as int) is None,
        },
{
    if p > s.len() || s.len() - p < N {
        return None;
    }
    let mut a: [u8; N] = [0u8; N];
    let mut i: usize = 0;
    while i < N
        invariant
            p + N <= s.len(),
            i <= N,
            a@.len() == N,
            forall|j: int| 0 <= j < i ==> a@[j] == s@[p + j],
        decreases N - i,
    {
        a[i] = s[p + i];
        i = i + 1;
    }
    assert(a@ =~= s@.subrange(p as int, p + N));
    Some((a, p + N))
}

pub fn read_digest_item(s: &Vec<u8>, p: usize) -> (r: Option<(DigestItem, usize)>)
    ensures
        match r {
            Some((d, q)) => parse_digest_item(s@, p as int) == Some((d@, q as int)),
            None => parse_digest_item(s@, p as int) is None,
        },
{
    if p >= s.len() {
        return None;
    }
    let tag = s[p];
    if tag == 0 {
        let (d, q) = read_bytes(s, p + 1)?;
        Some((DigestItem::Other(d), q))
    } else if tag == 4 || tag == 5 || tag == 6 {
        let (e, q) = read_array::<4>(s, p + 1)?;
        let (d, r) = read_bytes(s, q)?;
        let item = if tag == 4 {
            DigestItem::Consensus(e, d)
        } else if tag == 5 {
            DigestItem::Seal(e, d)
        } else {
            DigestItem::PreRuntime(e, d)
        };
        Some((item, r))
    } else if tag == 8 {
        Some((DigestItem::RuntimeEnvironmentUpdated, p + 1))
    } else {
        None
    }
}

/// Reads `n` digest items.
fn read_digest_items(s: &Vec<u8>, p: usize, n: u32) -> (r: Option<(Vec<DigestItem>, usize)>)
    ensures
        match r {
            Some((v, q)) => parse_list(s@, p as int, n as nat, digest_item_parser()) == Some(
                (digests_view(v@), q as int),
            ),
            None => parse_list(s@, p as int, n as nat, digest_item_parser()) is None,
        },
{
    let mut out: Vec<DigestItem> = Vec::new();
    let mut q = p;
    let mut i: u32 = 0;
    while i < n
        invariant
            i <= n,
            parse_list(s@, p as int, i as nat, digest_item_parser()) == Some((digests_view(out@), q as int)),
        decreases n - i,
    {
        match read_digest_item(s, q) {
            Some((x, q2)) => {
                let ghost before = digests_view(out@);
                out.push(x);
                assert(digests_view(out@) =~= before.push(x@));
                q = q2;
                i = i + 1;
            },
            None => {
                proof {
                    lemma_list_stops(s@, p as int, i as nat, n as nat, digest_item_parser(), digests_view(out@), q as int);
                }
                return None;
            },
        }
    }
    Some((out, q))
}

pub fn read_header(s: &Vec<u8>, p: usize) -> (r: Option<(Header, usize)>)
    ensures
        match r {
            Some((h, q)) => parse_header(s@, p as int) == Some((h@, q as int)),
            None => parse_header(s@, p as int) is None,
        },
{
    let (parent_hash, p1) = read_array::<32>(s, p)?;
    let (number, p2) = read_compact(s, p1)?;
    let (state_root, p3) = read_array::<32>(s, p2)?;
    let (extrinsics_root, p4) = read_array::<32>(s, p3)?;
    let (n, p5) = read_compact(s, p4)?;
    let (digest, q) = read_digest_items(s, p5, n)?;
    Some((Header { parent_hash, number, state_root, extrinsics_root, digest }, q))
}

/// Reads `n` headers.
fn read_header_list(s: &Vec<u8>, p: usize, n: u32) -> (r: Option<(Vec<Header>, usize)>)
    ensures
        match r {
            Some((v, q)) => parse_list(s@, p as int, n as nat, header_parser()) == Some(
                (headers_view(v@), q as int),
            ),
            None => parse_list(s@, p as int, n as nat, header_parser()) is None,
        },
{
    let mut out: Vec<Header> = Vec::new();
    let mut q = p;
    let mut i: u32 = 0;
    while i < n
        invariant
            i <= n,
            parse_list(s@, p as int, i as nat, header_parser()) == Some((headers_view(out@), q as int)),
        decreases n - i,
    {
        match read_header(s, q) {
            Some((x, q2)) => {
                let ghost before = headers_view(out@);
                out.push(x);
                assert(headers_view(out@) =~= before.push(x@));
                q = q2;
                i = i + 1;
            },
            None => {
                proof {
                    lemma_list_stops(s@, p as int, i as nat, n as nat, header_parser(), headers_view(out@), q as int);
                }
                return None;
            },
        }
    }
    Some((out, q))
}

/// Reads a compact count and that many headers.
pub fn read_headers(s: &Vec<u8>, p: usize) -> (r: Option<(Vec<Header>, usize)>)
    ensures
        match r {
            Some((v, q)) => parse_headers(s@, p as int) == Some((headers_view(v@), q as int)),
            None => parse_headers(s@, p as int) is None,
        },
{
    let (n, p1) = read_compact(s, p)?;
    read_header_list(s, p1, n)
}

pub fn read_signed_precommit(s: &Vec<u8>, p: usize) -> (r: Option<(SignedPrecommit, usize)>)
    ensures
        match r {
            Some((v, q)) => parse_signed_precommit(s@, p as int) == Some((v@, q as int)),
            None => parse_signed_precommit(s@, p as int) is None,
        },
{
    let (target_hash, p1) = read_array::<32>(s, p)?;
    let (target_number, p2) = read_u32(s, p1)?;
    let (signature, p3) = read_array::<64>(s, p2)?;
    let (id, p4) = read_array::<32>(s, p3)?;
    Some((SignedPrecommit { precommit: Precommit { target_hash, target_number }, signature, id }, p4))
}

/// Reads `n` signed precommits.
fn read_precommit_list(s: &Vec<u8>, p: usize, n: u32) -> (r: Option<(Vec<SignedPrecommit>, usize)>)
    ensures
        match r {
            Some((v, q)) => parse_list(s@, p as int, n as nat, signed_precommit_parser()) == Some(
                (precommits_view(v@), q as int),
            ),
            None => parse_list(s@, p as int, n as nat, signed_precommit_parser()) is None,
        },
{
    let mut out: Vec<SignedPrecommit> = Vec::new();
    let mut q = p;
    let mut i: u32 = 0;
    while i < n
        invariant
            i <= n,
            parse_list(s@, p as int, i as nat, signed_precommit_parser()) == Some((precommits_view(out@), q as int)),
        decreases n - i,
    {
        match read_signed_precommit(s, q) {
            Some((x, q2)) => {
                let ghost before = precommits_view(out@);
                out.push(x);
                assert(precommits_view(out@) =~= before.push(x@));
                q = q2;
                i = i + 1;
            },
            None => {
                proof {
                    lemma_list_stops(s@, p as int, i as nat, n as nat, signed_precommit_parser(), precommits_view(out@), q as int);
                }
                return None;
            },
        }
    }
    Some((out, q))
}

pub fn read_commit(s: &Vec<u8>, p: usize) -> (r: Option<(Commit, usize)>)
    ensures
        match r {
            Some((c, q)) => parse_commit(s@, p as int) == Some((c@, q as int)),
            None => parse_commit(s@, p as int) is None,
        },
{
    let (target_hash, p1) = read_array::<32>(s, p)?;
    let (target_number, p2) = read_u32(s, p1)?;
    let (n, p3) = read_compact(s, p2)?;
    let (precommits, q) = read_precommit_list(s, p3, n)?;
    Some((Commit { target_hash, target_number, precommits }, q))
}

/// Decodes a justification from the start of `bytes`.
pub fn decode_justification(bytes: &Vec<u8>) -> (r: Result<GrandpaJustification, DecodeError>)
    ensures
        match r {
            Ok(j) => decoded_justification(bytes@) == Some(j@),
            Err(_) => decoded_justification(bytes@) is None,
        },
{
    reveal(decoded_justification);
    let (round, p1) = match read_u64(bytes, 0) {
        Some(x) => x,
        None => return Err(DecodeError::Malformed),
    };
    let (commit, p2) = match read_commit(bytes, p1) {
        Some(x) => x,
        None => return Err(DecodeError::Malformed),
    };
    let (votes_ancestries, _) = match read_headers(bytes, p2) {
        Some(x) => x,
        None => return Err(DecodeError::Malformed),
    };
    Ok(GrandpaJustification { round, commit, votes_ancestries })
}

/// Decodes a finality proof from the start of `bytes`.
pub fn decode_finality_proof(bytes: &Vec<u8>) -> (r: Result<FinalityProof, DecodeError>)
    ensures
        match r {
            Ok(f) => decoded_finality_proof(bytes@) == Some(f@),
            Err(_) => decoded_finality_proof(bytes@) is None,
        },
{
    reveal(decoded_finality_proof);
    let (block, p1) = match read_array::<32>(bytes, 0) {
        Some(x) => x,
        None => return Err(DecodeError::Malformed),
    };
    let (justification, p2) = match read_bytes(bytes, p1) {
        Some(x) => x,
        None => return Err(DecodeError::Malformed),
    };
    let (unknown_headers, _) = match read_headers(bytes, p2) {
        Some(x) => x,
        None => return Err(DecodeError::Malformed),
    };
    Ok(FinalityProof { block, justification, unknown_headers })
}

/// An authority as the chain stores it: its 32-byte key, then its weight.
pub open spec fn parse_authority(s: Seq<u8>, p: int) -> Option<((Seq<u8>, u64), int)> {
    match parse_fixed(s, p, 32) {
        Some((id, p1)) => match parse_u64(s, p1) {
            Some((weight, p2)) => Some(((id, weight), p2)),
            None => None,
        },
        None => None,
    }
}

pub open spec fn authority_parser() -> spec_fn(Seq<u8>, int) -> Option<((Seq<u8>, u64), int)> {
    |s: Seq<u8>, p: int| parse_authority(s, p)
}

/// The authority list that `b` starts with: a compact count and that many
/// authorities.
#[verifier::opaque]
pub open spec fn decoded_authorities(b: Seq<u8>) -> Option<Seq<(Seq<u8>, u64)>> {
    match parse_compact(b, 0) {
        Some((n, q)) => match parse_list(b, q, n as nat, authority_parser()) {
            Some((v, _)) => Some(v),
            None => None,
        },
        None => None,
    }
}

pub fn read_authority(s: &Vec<u8>, p: usize) -> (r: Option<(Authority, usize)>)
    ensures
        match r {
            Some((a, q)) => parse_authority(s@, p as int) == Some(((a.id@, a.weight), q as int)),
            None => parse_authority(s@, p as int) is None,
        },
{
    let (id, p1) = read_array::<32>(s, p)?;
    let (weight, p2) = read_u64(s, p1)?;
    Some((Authority { id, weight }, p2))
}

/// Decodes the stored authority list of a voter set.
pub fn decode_authorities(bytes: &Vec<u8>) -> (r: Result<Vec<Authority>, DecodeError>)
    ensures
        match r {
            Ok(v) => decoded_authorities(bytes@) == Some(authorities_view(v@)),
            Err(_) => decoded_authorities(bytes@) is None,
        },
{
    reveal(decoded_authorities);
    let (n, p) = match read_compact(bytes, 0) {
        Some(x) => x,
        None => return Err(DecodeError::Malformed),
    };
    let mut out: Vec<Authority> = Vec::new();
    let mut q = p;
    let mut i: u32 = 0;
    while i < n
        invariant
            i <= n,
            parse_compact(bytes@, 0) == Some((n, p as int)),
            parse_list(bytes@, p as int, i as nat, authority_parser()) == Some(
                (authorities_view(out@), q as int),
            ),
        decreases n - i,
    {
        match read_authority(bytes, q) {
            Some((a, q2)) => {
                let ghost before = authorities_view(out@);
                out.push(a);
                assert(authorities_view(out@) =~= before.push((a.id@, a.weight)));
                q = q2;
                i = i + 1;
            },
            None => {
                proof {
                    lemma_list_stops(
                        bytes@,
                        p as int,
                        i as nat,
                        n as nat,
                        authority_parser(),
                        authorities_view(out@),
                        q as int,
                    );
                    reveal(decoded_authorities);
                }
                return Err(DecodeError::Malformed);
            },
        }
    }
    Ok(out)
}

} // verus!
