//! Writing justifications and finality proofs in the form that the decoder
//! reads.
use vstd::prelude::*;
use crate::decode::{
    digest_item_encoder, digest_item_wf, enc_commit, enc_digest_item, enc_finality_proof,
    enc_header, enc_headers, enc_justification, enc_list, enc_signed_precommit,
    finality_proof_wf, header_encoder, header_wf, headers_wf, justification_wf,
    signed_precommit_encoder, commit_wf,
};
use crate::scale::{push_bytes, push_compact, push_slice, push_u32, push_u64};
use crate::types::{
    digests_view, headers_view, precommits_view, Commit, DigestItem, FinalityProof,
    GrandpaJustification, Header, SignedPrecommit,
};

verus! {

/// Encoding the first `i + 1` items is encoding the first `i`, then item `i`.
proof fn lemma_enc_list_step<T>(xs: Seq<T>, enc: spec_fn(T) -> Seq<u8>, i: int)
    requires
        0 <= i < xs.len(),
    ensures
        enc_list(xs.subrange(0, i + 1), enc) == enc_list(xs.subrange(0, i), enc) + enc(xs[i]),
{
    let ys = xs.subrange(0, i + 1);
    assert(ys.drop_last() =~= xs.subrange(0, i));
    assert(ys.last() == xs[i]);
}

pub fn push_digest_item(out: &mut Vec<u8>, d: &DigestItem)
    requires
        digest_item_wf(d@),
    ensures
        final(out)@ == old(out)@ + enc_digest_item(d@),
{
    match d {
        DigestItem::PreRuntime(e, x) => {
            out.push(6);
            push_slice(out, e.as_slice());
            push_bytes(out, x);
        },
        DigestItem::Consensus(e, x) => {
            out.push(4);
            push_slice(out, e.as_slice());
            push_bytes(out, x);
        },
        DigestItem::Seal(e, x) => {
            out.push(5);
            push_slice(out, e.as_slice());
            push_bytes(out, x);
        },
        DigestItem::Other(x) => {
            out.push(0);
            push_bytes(out, x);
        },
        DigestItem::RuntimeEnvironmentUpdated => {
            out.push(8);
        },
    }
    assert(final(out)@ =~= old(out)@ + enc_digest_item(d@));
}

pub fn push_header(out: &mut Vec<u8>, h: &Header)
    requires
        header_wf(h@),
    ensures
        final(out)@ == old(out)@ + enc_header(h@),
{
    let ghost start = out@;
    let ghost items = digests_view(h.digest@);
    push_slice(out, h.parent_hash.as_slice());
    push_compact(out, h.number);
    push_slice(out, h.state_root.as_slice());
    push_slice(out, h.extrinsics_root.as_slice());
    push_compact(out, h.digest.len() as u32);
    let ghost mid = out@;
    let mut i: usize = 0;
    while i < h.digest.len()
        invariant
            header_wf(h@),
            items == digests_view(h.digest@),
            i <= h.digest@.len(),
            out@ == mid + enc_list(items.subrange(0, i as int), digest_item_encoder()),
        decreases h.digest@.len() - i,
    {
        assert(digest_item_wf(items[i as int]));
        push_digest_item(out, &h.digest[i]);
        proof {
            lemma_enc_list_step(items, digest_item_encoder(), i as int);
        }
        i = i + 1;
    }
    assert(items.subrange(0, items.len() as int) =~= items);
    assert(out@ =~= start + enc_header(h@));
}

/// Appends a compact count and the headers.
pub fn push_headers(out: &mut Vec<u8>, hs: &Vec<Header>)
    requires
        headers_wf(headers_view(hs@)),
    ensures
        final(out)@ == old(out)@ + enc_headers(headers_view(hs@)),
{
    let ghost start = out@;
    let ghost items = headers_view(hs@);
    push_compact(out, hs.len() as u32);
    let ghost mid = out@;
    let mut i: usize = 0;
    while i < hs.len()
        invariant
            headers_wf(items),
            items == headers_view(hs@),
            i <= hs@.len(),
            out@ == mid + enc_list(items.subrange(0, i as int), header_encoder()),
        decreases hs@.len() - i,
    {
        assert(header_wf(items[i as int]));
        push_header(out, &hs[i]);
        proof {
            lemma_enc_list_step(items, header_encoder(), i as int);
        }
        i = i + 1;
    }
    assert(items.subrange(0, items.len() as int) =~= items);
    assert(out@ =~= start + enc_headers(items));
}

pub fn push_signed_precommit(out: &mut Vec<u8>, v: &SignedPrecommit)
    ensures
        final(out)@ == old(out)@ + enc_signed_precommit(v@),
{
    push_slice(out, v.precommit.target_hash.as_slice());
    push_u32(out, v.precommit.target_number);
    push_slice(out, v.signature.as_slice());
    push_slice(out, v.id.as_slice());
    assert(final(out)@ =~= old(out)@ + enc_signed_precommit(v@));
}

pub fn push_commit(out: &mut Vec<u8>, c: &Commit)
    requires
        commit_wf(c@),
    ensures
        final(out)@ == old(out)@ + enc_commit(c@),
{
    let ghost start = out@;
    let ghost items = precommits_view(c.precommits@);
    push_slice(out, c.target_hash.as_slice());
    push_u32(out, c.target_number);
    push_compact(out, c.precommits.len() as u32);
    let ghost mid = out@;
    let mut i: usize = 0;
    while i < c.precommits.len()
        invariant
            items == precommits_view(c.precommits@),
            i <= c.precommits@.len(),
            out@ == mid + enc_list(items.subrange(0, i as int), signed_precommit_encoder()),
        decreases c.precommits@.len() - i,
    {
        push_signed_precommit(out, &c.precommits[i]);
        proof {
            lemma_enc_list_step(items, signed_precommit_encoder(), i as int);
        }
        i = i + 1;
    }
    assert(items.subrange(0, items.len() as int) =~= items);
    assert(out@ =~= start + enc_commit(c@));
}

/// Encodes a justification; `decode_justification` gives it back.
pub fn encode_justification(j: &GrandpaJustification) -> (r: Vec<u8>)
    requires
        justification_wf(j@),
    ensures
        r@ == enc_justification(j@),
{
    let mut out: Vec<u8> = Vec::new();
    push_u64(&mut out, j.round);
    push_commit(&mut out, &j.commit);
    push_headers(&mut out, &j.votes_ancestries);
    assert(out@ =~= enc_justification(j@));
    out
}

/// Encodes a finality proof; `decode_finality_proof` gives it back.
pub fn encode_finality_proof(f: &FinalityProof) -> (r: Vec<u8>)
    requires
        finality_proof_wf(f@),
    ensures
        r@ == enc_finality_proof(f@),
{
    let mut out: Vec<u8> = Vec::new();
    push_slice(&mut out, f.block.as_slice());
    push_bytes(&mut out, &f.justification);
    push_headers(&mut out, &f.unknown_headers);
    assert(out@ =~= enc_finality_proof(f@));
    out
}

} // verus!
