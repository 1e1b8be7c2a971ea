//! Primitive pieces of the SCALE encoding: little-endian integers, compact
//! integers, fixed-width byte strings and length-prefixed byte strings.
//!
//! Every parser works at an absolute position of an input and, on success,
//! hands back the value together with the position just after it.
use vstd::prelude::*;

verus! {

/// Value of the four little-endian bytes at `p`.
pub open spec fn le_u32_at(s: Seq<u8>, p: int) -> int {
    s[p] as int + 256 * (s[p + 1] as int) + 65536 * (s[p + 2] as int) + 16777216 * (s[p + 3] as int)
}

/// Value of the eight little-endian bytes at `p`.
pub open spec fn le_u64_at(s: Seq<u8>, p: int) -> int {
    le_u32_at(s, p) + 4294967296 * le_u32_at(s, p + 4)
}

pub open spec fn enc_u32(x: u32) -> Seq<u8> {
    seq![(x % 256) as u8, ((x / 256) % 256) as u8, ((x / 65536) % 256) as u8, (x / 16777216) as u8]
}

pub open spec fn enc_u64(x: u64) -> Seq<u8> {
    enc_u32((x % 4294967296) as u32) + enc_u32((x / 4294967296) as u32)
}

/// `s` holds `e` from position `p` on.
pub open spec fn holds_at(s: Seq<u8>, p: int, e: Seq<u8>) -> bool {
    0 <= p && p + e.len() <= s.len() && s.subrange(p, p + e.len()) == e
}

/// Splits a match of `a + b` into a match of `a` followed by one of `b`.
pub proof fn lemma_holds_split(s: Seq<u8>, p: int, a: Seq<u8>, b: Seq<u8>)
    requires
        holds_at(s, p, a + b),
    ensures
        holds_at(s, p, a),
        holds_at(s, p + a.len(), b),
{
    let t = s.subrange(p, p + a.len() + b.len());
    assert(t == a + b);
    assert(s.subrange(p, p + a.len()) =~= t.subrange(0, a.len() as int));
    assert(t.subrange(0, a.len() as int) =~= a);
    assert(s.subrange(p + a.len(), p + a.len() + b.len()) =~= t.subrange(
        a.len() as int,
        (a.len() + b.len()) as int,
    ));
    assert(t.subrange(a.len() as int, (a.len() + b.len()) as int) =~= b);
}

pub proof fn lemma_holds_byte(s: Seq<u8>, p: int, e: Seq<u8>, i: int)
    requires
        holds_at(s, p, e),
        0 <= i < e.len(),
    ensures
        s[p + i] == e[i],
{
    assert(s.subrange(p, p + e.len())[i] == s[p + i]);
}

pub proof fn lemma_u32_round_trip(s: Seq<u8>, p: int, x: u32)
    requires
        holds_at(s, p, enc_u32(x)),
    ensures
        le_u32_at(s, p) == x,
{
    lemma_holds_byte(s, p, enc_u32(x), 0);
    lemma_holds_byte(s, p, enc_u32(x), 1);
    lemma_holds_byte(s, p, enc_u32(x), 2);
    lemma_holds_byte(s, p, enc_u32(x), 3);
    let v = x as int;
    assert(v == v % 256 + 256 * ((v / 256) % 256) + 65536 * ((v / 65536) % 256) + 16777216 * (v
        / 16777216)) by (nonlinear_arith)
        requires
            0 <= v < 4294967296,
    ;
}

pub proof fn lemma_u64_round_trip(s: Seq<u8>, p: int, x: u64)
    requires
        holds_at(s, p, enc_u64(x)),
    ensures
        le_u64_at(s, p) == x,
{
    lemma_holds_split(s, p, enc_u32((x % 4294967296) as u32), enc_u32((x / 4294967296) as u32));
    lemma_u32_round_trip(s, p, (x % 4294967296) as u32);
    lemma_u32_round_trip(s, p + 4, (x / 4294967296) as u32);
}

/// The bytes `[p, p + n)` of `s`, if there are that many.
pub open spec fn parse_fixed(s: Seq<u8>, p: int, n: int) -> Option<(Seq<u8>, int)> {
    if 0 <= p && 0 <= n && p + n <= s.len() {
        Some((s.subrange(p, p + n), p + n))
    } else {
        None
    }
}

pub open spec fn parse_u32(s: Seq<u8>, p: int) -> Option<(u32, int)> {
    if 0 <= p && p + 4 <= s.len() {
        Some((le_u32_at(s, p) as u32, p + 4))
    } else {
        None
    }
}

pub open spec fn parse_u64(s: Seq<u8>, p: int) -> Option<(u64, int)> {
    if 0 <= p && p + 8 <= s.len() {
        Some((le_u64_at(s, p) as u64, p + 8))
    } else {
        None
    }
}

/// A compact `u32`: the two low bits of the first byte give the width (one,
/// two or four bytes, or a marker byte and four bytes); only the shortest
/// encoding of a value is accepted.
pub open spec fn parse_compact(s: Seq<u8>, p: int) -> Option<(u32, int)> {
    if p < 0 || p >= s.len() {
        None
    } else {
        let b0 = s[p] as int;
        if b0 % 4 == 0 {
            Some(((b0 / 4) as u32, p + 1))
        } else if b0 % 4 == 1 {
            if p + 2 <= s.len() && (b0 + 256 * (s[p + 1] as int)) / 4 >= 64 {
                Some((((b0 + 256 * (s[p + 1] as int)) / 4) as u32, p + 2))
            } else {
                None
            }
        } else if b0 % 4 == 2 {
            if p + 4 <= s.len() && le_u32_at(s, p) / 4 >= 16384 {
                Some(((le_u32_at(s, p) / 4) as u32, p + 4))
            } else {
                None
            }
        } else if b0 == 3 && p + 5 <= s.len() && le_u32_at(s, p + 1) >= 1073741824 {
            Some((le_u32_at(s, p + 1) as u32, p + 5))
        } else {
            None
        }
    }
}

/// The shortest compact encoding of `x`.
pub open spec fn enc_compact(x: u32) -> Seq<u8> {
    if x < 64 {
        seq![(x * 4) as u8]
    } else if x < 16384 {
        seq![((x * 4 + 1) % 256) as u8, ((x * 4 + 1) / 256) as u8]
    } else if x < 1073741824 {
        enc_u32((x * 4 + 2) as u32)
    } else {
        seq![3u8] + enc_u32(x)
    }
}

pub proof fn lemma_compact_round_trip(s: Seq<u8>, p: int, x: u32)
    requires
        holds_at(s, p, enc_compact(x)),
    ensures
        parse_compact(s, p) == Some((x, p + enc_compact(x).len())),
{
    let e = enc_compact(x);
    let v = x as int;
    lemma_holds_byte(s, p, e, 0);
    if x < 64 {
    } else if x < 16384 {
        lemma_holds_byte(s, p, e, 1);
        assert((4 * v + 1) % 256 % 4 == 1 && ((4 * v + 1) % 256 + 256 * ((4 * v + 1) / 256)) / 4
            == v) by (nonlinear_arith)
            requires
                64 <= v < 16384,
        ;
    } else if x < 1073741824 {
        lemma_u32_round_trip(s, p, (x * 4 + 2) as u32);
        assert((4 * v + 2) % 256 % 4 == 2) by (nonlinear_arith)
            requires
                v >= 0,
        ;
    } else {
        lemma_holds_split(s, p, seq![3u8], enc_u32(x));
        lemma_u32_round_trip(s, p + 1, x);
    }
}

/// A byte string prefixed by its compact length.
pub open spec fn parse_bytes(s: Seq<u8>, p: int) -> Option<(Seq<u8>, int)> {
    match parse_compact(s, p) {
        Some((n, q)) => parse_fixed(s, q, n as int),
        None => None,
    }
}

pub open spec fn enc_bytes(b: Seq<u8>) -> Seq<u8> {
    enc_compact(b.len() as u32) + b
}

pub proof fn lemma_bytes_round_trip(s: Seq<u8>, p: int, b: Seq<u8>)
    requires
        b.len() <= u32::MAX,
        holds_at(s, p, enc_bytes(b)),
    ensures
        parse_bytes(s, p) == Some((b, p + enc_bytes(b).len())),
{
    lemma_holds_split(s, p, enc_compact(b.len() as u32), b);
    lemma_compact_round_trip(s, p, b.len() as u32);
}

pub proof fn lemma_fixed_round_trip(s: Seq<u8>, p: int, b: Seq<u8>)
    requires
        holds_at(s, p, b),
    ensures
        parse_fixed(s, p, b.len() as int) == Some((b, p + b.len())),
{
}

pub fn read_u32(s: &Vec<u8>, p: usize) -> (r: Option<(u32, usize)>)
    ensures
        match r {
            Some((v, q)) => parse_u32(s@, p as int) == Some((v, q as int)),
            None => parse_u32(s@, p as int) is None,
        },
{
    if p > s.len() || s.len() - p < 4 {
        return None;
    }
    let v: u64 = s[p] as u64 + 256 * (s[p + 1] as u64) + 65536 * (s[p + 2] as u64) + 16777216 * (
    s[p + 3] as u64);
    Some((v as u32, p + 4))
}

pub fn read_u64(s: &Vec<u8>, p: usize) -> (r: Option<(u64, usize)>)
    ensures
        match r {
            Some((v, q)) => parse_u64(s@, p as int) == Some((v, q as int)),
            None => parse_u64(s@, p as int) is None,
        },
{
    if p > s.len() || s.len() - p < 8 {
        return None;
    }
    let (lo, _) = read_u32(s, p).unwrap();
    let (hi, _) = read_u32(s, p + 4).unwrap();
    let v: u64 = lo as u64 + 4294967296 * (hi as u64);
    Some((v, p + 8))
}

pub fn read_compact(s: &Vec<u8>, p: usize) -> (r: Option<(u32, usize)>)
    ensures
        match r {
            Some((v, q)) => parse_compact(s@, p as int) == Some((v, q as int)),
            None => parse_compact(s@, p as int) is None,
        },
{
    if p >= s.len() {
        return None;
    }
    let b0 = s[p];
    if b0 % 4 == 0 {
        Some(((b0 / 4) as u32, p + 1))
    } else if b0 % 4 == 1 {
        if s.len() - p < 2 {
            return None;
        }
        let x: u32 = (b0 as u32 + 256 * (s[p + 1] as u32)) / 4;
        if x >= 64 {
            Some((x, p + 2))
        } else {
            None
        }
    } else if b0 % 4 == 2 {
        match read_u32(s, p) {
            Some((w, q)) => {
                if w / 4 >= 16384 {
                    Some((w / 4, q))
                } else {
                    None
                }
            },
            None => None,
        }
    } else if b0 == 3 {
        match read_u32(s, p + 1) {
            Some((w, q)) => {
                if w >= 1073741824 {
                    Some((w, q))
                } else {
                    None
                }
            },
            None => None,
        }
    } else {
        None
    }
}

/// Copies the `n` bytes at `p`.
pub fn read_fixed(s: &Vec<u8>, p: usize, n: usize) -> (r: Option<(Vec<u8>, usize)>)
    ensures
        match r {
            Some((v, q)) => parse_fixed(s@, p as int, n as int) == Some((v@, q as int)),
            None => parse_fixed(s@, p as int, n as int) is None,
        },
{
    if p > s.len() || s.len() - p < n {
        return None;
    }
    let mut out: Vec<u8> = Vec::with_capacity(n);
    let mut i: usize = 0;
    while i < n
        invariant
            p + n <= s.len(),
            i <= n,
            out@ == s@.subrange(p as int, p + i),
        decreases n - i,
    {
        out.push(s[p + i]);
        i = i + 1;
        assert(out@ =~= s@.subrange(p as int, p + i));
    }
    Some((out, p + n))
}

pub fn read_bytes(s: &Vec<u8>, p: usize) -> (r: Option<(Vec<u8>, usize)>)
    ensures
        match r {
            Some((v, q)) => parse_bytes(s@, p as int) == Some((v@, q as int)),
            None => parse_bytes(s@, p as int) is None,
        },
{
    match read_compact(s, p) {
        Some((n, q)) => read_fixed(s, q, n as usize),
        None => None,
    }
}

/// Appends the four little-endian bytes of `x`.
pub fn push_u32(out: &mut Vec<u8>, x: u32)
    ensures
        final(out)@ == old(out)@ + enc_u32(x),
{
    out.push((x % 256) as u8);
    out.push(((x / 256) % 256) as u8);
    out.push(((x / 65536) % 256) as u8);
    out.push((x / 16777216) as u8);
    assert(final(out)@ =~= old(out)@ + enc_u32(x));
}

/// Appends the eight little-endian bytes of `x`.
pub fn push_u64(out: &mut Vec<u8>, x: u64)
    ensures
        final(out)@ == old(out)@ + enc_u64(x),
{
    push_u32(out, (x % 4294967296) as u32);
    push_u32(out, (x / 4294967296) as u32);
    assert(final(out)@ =~= old(out)@ + enc_u64(x));
}

/// Appends the shortest compact encoding of `x`.
pub fn push_compact(out: &mut Vec<u8>, x: u32)
    ensures
        final(out)@ == old(out)@ + enc_compact(x),
{
    if x < 64 {
        out.push((x * 4) as u8);
    } else if x < 16384 {
        let y = x * 4 + 1;
        out.push((y % 256) as u8);
        out.push((y / 256) as u8);
    } else if x < 1073741824 {
        push_u32(out, x * 4 + 2);
    } else {
        out.push(3);
        push_u32(out, x);
    }
    assert(final(out)@ =~= old(out)@ + enc_compact(x));
}

/// Appends `b` as it stands.
pub fn push_slice(out: &mut Vec<u8>, b: &[u8])
    ensures
        final(out)@ == old(out)@ + b@,
{
    out.extend_from_slice(b);
    assert(final(out)@ =~= old(out)@ + b@);
}

/// Appends `b` prefixed by its compact length.
pub fn push_bytes(out: &mut Vec<u8>, b: &Vec<u8>)
    requires
        b@.len() <= u32::MAX,
    ensures
        final(out)@ == old(out)@ + enc_bytes(b@),
{
    push_compact(out, b.len() as u32);
    push_slice(out, b.as_slice());
    assert(final(out)@ =~= old(out)@ + enc_bytes(b@));
}

} // verus!
