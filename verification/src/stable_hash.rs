//! A pinned, order-sensitive content hash of the mapped structure, used to
//! derive a fallback identity when the markup carries no usable identifier.
//!
//! The structure is first written into a canonical byte string: every field
//! appears, each variable-length part behind its length, so that two
//! structures agree on the encoding exactly when they agree field for
//! field.  The bytes are then folded with the 64-bit FNV-1a hash.  Both
//! steps are fixed here rather than taken from a library default, so the
//! derived identity is stable across runs and across releases.

use vstd::prelude::*;

use crate::model::GmlLinearRing;
use crate::model::GmlMultiSurface;
use crate::model::GmlPolygon;
use crate::model::GmlSurfaceMember;
use crate::model::MemberShape;
use crate::model::MultiSurfaceShape;
use crate::model::PolygonShape;
use crate::model::RingShape;

verus! {

/// The FNV-1a 64-bit offset basis.
pub const FNV_OFFSET: u64 = 0xcbf29ce484222325;

/// The FNV-1a 64-bit prime.
pub const FNV_PRIME: u64 = 0x100000001b3;

/// One FNV-1a step: fold one byte into the running hash.
pub open spec fn fnv1a_step(h: u64, b: u8) -> u64 {
    vstd::wrapping::u64_specs::wrapping_mul(h ^ (b as u64), FNV_PRIME)
}

/// The running hash after folding the first `k` bytes of `s` into `h`.
pub open spec fn fnv1a_from(h: u64, s: Seq<u8>, k: int) -> u64
    decreases k,
{
    if k <= 0 {
        h
    } else {
        fnv1a_step(fnv1a_from(h, s, k - 1), s[k - 1])
    }
}

/// The FNV-1a 64-bit hash of a byte string.
pub open spec fn fnv1a(s: Seq<u8>) -> u64 {
    fnv1a_from(FNV_OFFSET, s, s.len() as int)
}

/// Folds a byte string into a running FNV-1a hash.
pub fn fnv1a_fold(h0: u64, s: &[u8]) -> (h: u64)
    ensures
        h == fnv1a_from(h0, s@, s@.len() as int),
{
    let mut h = h0;
    let mut k: usize = 0;
    while k < s.len()
        invariant
            k <= s@.len(),
            h == fnv1a_from(h0, s@, k as int),
        decreases s@.len() - k,
    {
        h = (h ^ (s[k] as u64)).wrapping_mul(FNV_PRIME);
        k += 1;
    }
    h
}

/// The eight little-endian bytes of a 64-bit value.
pub open spec fn le8(n: u64) -> Seq<u8> {
    seq![
        n as u8,
        (n >> 8) as u8,
        (n >> 16) as u8,
        (n >> 24) as u8,
        (n >> 32) as u8,
        (n >> 40) as u8,
        (n >> 48) as u8,
        (n >> 56) as u8,
    ]
}

fn push_le8(out: &mut Vec<u8>, n: u64)
    ensures
        final(out)@ == old(out)@ + le8(n),
{
    out.push(#[verifier::truncate] (n as u8));
    out.push(#[verifier::truncate] ((n >> 8) as u8));
    out.push(#[verifier::truncate] ((n >> 16) as u8));
    out.push(#[verifier::truncate] ((n >> 24) as u8));
    out.push(#[verifier::truncate] ((n >> 32) as u8));
    out.push(#[verifier::truncate] ((n >> 40) as u8));
    out.push(#[verifier::truncate] ((n >> 48) as u8));
    out.push(#[verifier::truncate] ((n >> 56) as u8));
    proof {
        assert(final(out)@ =~= old(out)@ + le8(n));
    }
}

fn push_bytes(out: &mut Vec<u8>, v: &[u8])
    ensures
        final(out)@ == old(out)@ + v@,
{
    let mut k: usize = 0;
    while k < v.len()
        invariant
            k <= v@.len(),
            out@ == old(out)@ + v@.subrange(0, k as int),
        decreases v@.len() - k,
    {
        out.push(v[k]);
        proof {
            assert(out@ =~= old(out)@ + v@.subrange(0, k as int + 1));
        }
        k += 1;
    }
    proof {
        assert(v@.subrange(0, v@.len() as int) =~= v@);
    }
}

/// The canonical bytes of a ring: its coordinate text behind its length.
pub open spec fn enc_ring(r: RingShape) -> Seq<u8> {
    le8(r.pos_list.len() as u64) + r.pos_list
}

/// The canonical bytes of the first `k` rings of `rs`, in order.
pub open spec fn enc_rings(rs: Seq<RingShape>, k: int) -> Seq<u8>
    decreases k,
{
    if k <= 0 {
        Seq::empty()
    } else {
        enc_rings(rs, k - 1) + enc_ring(rs[k - 1])
    }
}

/// The canonical bytes of a polygon: its exterior ring, then its interior
/// rings behind their count.
pub open spec fn enc_polygon(p: PolygonShape) -> Seq<u8> {
    enc_ring(p.exterior) + le8(p.interiors.len() as u64) + enc_rings(
        p.interiors,
        p.interiors.len() as int,
    )
}

/// The canonical bytes of a member: its reference behind its length, then
/// a presence marker and, when present, the polygon.
pub open spec fn enc_member(m: MemberShape) -> Seq<u8> {
    le8(m.href.len() as u64) + m.href + match m.polygon {
        None => seq![0u8],
        Some(p) => seq![1u8] + enc_polygon(p),
    }
}

/// The canonical bytes of the first `k` members of `ms`, in order.
pub open spec fn enc_members(ms: Seq<MemberShape>, k: int) -> Seq<u8>
    decreases k,
{
    if k <= 0 {
        Seq::empty()
    } else {
        enc_members(ms, k - 1) + enc_member(ms[k - 1])
    }
}

/// The canonical bytes of a whole mapped structure: the identifier behind
/// its length — the identifier field is included even when empty — then
/// the members behind their count.
pub open spec fn enc_multi_surface(v: MultiSurfaceShape) -> Seq<u8> {
    le8(v.id.len() as u64) + v.id + le8(v.members.len() as u64) + enc_members(
        v.members,
        v.members.len() as int,
    )
}

/// The content hash of a mapped structure: FNV-1a over its canonical
/// bytes.  A function of the structure's fields and nothing else.
pub open spec fn content_hash(v: MultiSurfaceShape) -> u64 {
    fnv1a(enc_multi_surface(v))
}

fn encode_ring(out: &mut Vec<u8>, r: &GmlLinearRing)
    ensures
        final(out)@ == old(out)@ + enc_ring(r@),
{
    push_le8(out, r.pos_list.len() as u64);
    push_bytes(out, r.pos_list.as_slice());
}

fn encode_polygon(out: &mut Vec<u8>, p: &GmlPolygon)
    ensures
        final(out)@ == old(out)@ + enc_polygon(p@),
{
    encode_ring(out, &p.exterior);
    push_le8(out, p.interiors.len() as u64);
    let ghost mid = out@;
    let mut k: usize = 0;
    while k < p.interiors.len()
        invariant
            k <= p.interiors@.len(),
            out@ == mid + enc_rings(p@.interiors, k as int),
        decreases p.interiors@.len() - k,
    {
        encode_ring(out, &p.interiors[k]);
        proof {
            assert(p@.interiors[k as int] == p.interiors@[k as int]@);
            assert(out@ =~= mid + enc_rings(p@.interiors, k as int + 1));
        }
        k += 1;
    }
    proof {
        assert(p@.interiors.len() == p.interiors@.len());
    }
}

fn encode_member(out: &mut Vec<u8>, m: &GmlSurfaceMember)
    ensures
        final(out)@ == old(out)@ + enc_member(m@),
{
    push_le8(out, m.href.len() as u64);
    push_bytes(out, m.href.as_slice());
    match &m.polygon {
        None => {
            out.push(0u8);
            proof {
                assert(final(out)@ =~= old(out)@ + enc_member(m@));
            }
        },
        Some(p) => {
            out.push(1u8);
            encode_polygon(out, p);
            proof {
                assert(final(out)@ =~= old(out)@ + enc_member(m@));
            }
        },
    }
}

/// Writes the canonical bytes of a mapped structure.
pub fn encode_multi_surface(ms: &GmlMultiSurface) -> (out: Vec<u8>)
    ensures
        out@ == enc_multi_surface(ms@),
{
    let mut out: Vec<u8> = Vec::new();
    push_le8(&mut out, ms.id.len() as u64);
    push_bytes(&mut out, ms.id.as_slice());
    push_le8(&mut out, ms.members.len() as u64);
    let ghost mid = out@;
    let mut k: usize = 0;
    while k < ms.members.len()
        invariant
            k <= ms.members@.len(),
            out@ == mid + enc_members(ms@.members, k as int),
        decreases ms.members@.len() - k,
    {
        encode_member(&mut out, &ms.members[k]);
        proof {
            assert(ms@.members[k as int] == ms.members@[k as int]@);
            assert(out@ =~= mid + enc_members(ms@.members, k as int + 1));
        }
        k += 1;
    }
    proof {
        assert(ms@.members.len() == ms.members@.len());
        assert(out@ =~= enc_multi_surface(ms@));
    }
    out
}

/// The content hash of a mapped structure, as executable code.
pub fn hash_multi_surface(ms: &GmlMultiSurface) -> (h: u64)
    ensures
        h == content_hash(ms@),
{
    let bytes = encode_multi_surface(ms);
    fnv1a_fold(FNV_OFFSET, bytes.as_slice())
}


/// Whether a byte string is short enough for its length to ride in one
/// 64-bit length field.
pub open spec fn bounded_len(s: Seq<u8>) -> bool {
    s.len() < 0x10000000000000000
}

/// Whether every length in a ring fits its length field.
pub open spec fn bounded_ring(r: RingShape) -> bool {
    bounded_len(r.pos_list)
}

/// Whether every length in a polygon fits its length field.
pub open spec fn bounded_polygon(p: PolygonShape) -> bool {
    &&& bounded_ring(p.exterior)
    &&& p.interiors.len() < 0x10000000000000000
    &&& forall|k: int| 0 <= k < p.interiors.len() ==> bounded_ring(#[trigger] p.interiors[k])
}

/// Whether every length in a member fits its length field.
pub open spec fn bounded_member(m: MemberShape) -> bool {
    &&& bounded_len(m.href)
    &&& (m.polygon matches Some(p) ==> bounded_polygon(p))
}

/// Whether every length in a mapped structure fits its length field.
/// Every structure the deserializer can hand over is bounded, since its
/// sequences live in memory.
pub open spec fn bounded_structure(v: MultiSurfaceShape) -> bool {
    &&& bounded_len(v.id)
    &&& v.members.len() < 0x10000000000000000
    &&& forall|k: int| 0 <= k < v.members.len() ==> bounded_member(#[trigger] v.members[k])
}

proof fn lemma_concat_split(a1: Seq<u8>, b1: Seq<u8>, a2: Seq<u8>, b2: Seq<u8>)
    requires
        a1 + b1 == a2 + b2,
        a1.len() == a2.len(),
    ensures
        a1 == a2,
        b1 == b2,
{
    assert forall|i: int| 0 <= i < a1.len() implies a1[i] == a2[i] by {
        assert((a1 + b1)[i] == a1[i]);
        assert((a2 + b2)[i] == a2[i]);
    }
    assert(a1 =~= a2);
    assert((a1 + b1).len() == a1.len() + b1.len());
    assert((a2 + b2).len() == a2.len() + b2.len());
    assert(b1.len() == b2.len());
    assert forall|i: int| 0 <= i < b1.len() implies b1[i] == b2[i] by {
        assert((a1 + b1)[a1.len() + i] == b1[i]);
        assert((a2 + b2)[a2.len() + i] == b2[i]);
    }
    assert(b1 =~= b2);
}

proof fn lemma_le8_inj(n1: u64, n2: u64)
    requires
        le8(n1) == le8(n2),
    ensures
        n1 == n2,
{
    assert(le8(n1)[0] == le8(n2)[0]);
    assert(le8(n1)[1] == le8(n2)[1]);
    assert(le8(n1)[2] == le8(n2)[2]);
    assert(le8(n1)[3] == le8(n2)[3]);
    assert(le8(n1)[4] == le8(n2)[4]);
    assert(le8(n1)[5] == le8(n2)[5]);
    assert(le8(n1)[6] == le8(n2)[6]);
    assert(le8(n1)[7] == le8(n2)[7]);
    assert(n1 == n2) by (bit_vector)
        requires
            n1 as u8 == n2 as u8,
            (n1 >> 8) as u8 == (n2 >> 8) as u8,
            (n1 >> 16) as u8 == (n2 >> 16) as u8,
            (n1 >> 24) as u8 == (n2 >> 24) as u8,
            (n1 >> 32) as u8 == (n2 >> 32) as u8,
            (n1 >> 40) as u8 == (n2 >> 40) as u8,
            (n1 >> 48) as u8 == (n2 >> 48) as u8,
            (n1 >> 56) as u8 == (n2 >> 56) as u8,
    ;
}

/// A length-prefixed byte string determines itself and what follows it.
proof fn lemma_sized_prefix(s1: Seq<u8>, r1: Seq<u8>, s2: Seq<u8>, r2: Seq<u8>)
    requires
        bounded_len(s1),
        bounded_len(s2),
        le8(s1.len() as u64) + s1 + r1 == le8(s2.len() as u64) + s2 + r2,
    ensures
        s1 == s2,
        r1 == r2,
{
    assert(le8(s1.len() as u64) + s1 + r1 =~= le8(s1.len() as u64) + (s1 + r1));
    assert(le8(s2.len() as u64) + s2 + r2 =~= le8(s2.len() as u64) + (s2 + r2));
    lemma_concat_split(le8(s1.len() as u64), s1 + r1, le8(s2.len() as u64), s2 + r2);
    lemma_le8_inj(s1.len() as u64, s2.len() as u64);
    lemma_concat_split(s1, r1, s2, r2);
}


proof fn lemma_ring_prefix(x1: RingShape, r1: Seq<u8>, x2: RingShape, r2: Seq<u8>)
    requires
        bounded_ring(x1),
        bounded_ring(x2),
        enc_ring(x1) + r1 == enc_ring(x2) + r2,
    ensures
        x1 == x2,
        r1 == r2,
{
    lemma_sized_prefix(x1.pos_list, r1, x2.pos_list, r2);
}

proof fn lemma_rings_front(rs: Seq<RingShape>, n: int)
    requires
        1 <= n <= rs.len(),
    ensures
        enc_rings(rs, n) == enc_ring(rs[0]) + enc_rings(rs.drop_first(), n - 1),
    decreases n,
{
    if n == 1 {
        assert(enc_rings(rs, 0) == Seq::<u8>::empty());
        assert(enc_rings(rs.drop_first(), 0) == Seq::<u8>::empty());
        assert(enc_rings(rs, 1) =~= enc_ring(rs[0]) + enc_rings(rs.drop_first(), 0));
    } else {
        lemma_rings_front(rs, n - 1);
        assert(rs.drop_first()[n - 2] == rs[n - 1]);
        assert(enc_rings(rs, n) =~= enc_ring(rs[0]) + enc_rings(rs.drop_first(), n - 1));
    }
}

proof fn lemma_rings_prefix(rs1: Seq<RingShape>, rs2: Seq<RingShape>, n: int, r1: Seq<u8>, r2: Seq<
    u8,
>)
    requires
        0 <= n <= rs1.len(),
        n <= rs2.len(),
        forall|k: int| 0 <= k < n ==> bounded_ring(#[trigger] rs1[k]),
        forall|k: int| 0 <= k < n ==> bounded_ring(#[trigger] rs2[k]),
        enc_rings(rs1, n) + r1 == enc_rings(rs2, n) + r2,
    ensures
        forall|k: int| 0 <= k < n ==> rs1[k] == rs2[k],
        r1 == r2,
    decreases n,
{
    if n == 0 {
        assert(Seq::<u8>::empty() + r1 =~= r1);
        assert(Seq::<u8>::empty() + r2 =~= r2);
    } else {
        lemma_rings_front(rs1, n);
        lemma_rings_front(rs2, n);
        let d1 = rs1.drop_first();
        let d2 = rs2.drop_first();
        assert(enc_rings(rs1, n) + r1 =~= enc_ring(rs1[0]) + (enc_rings(d1, n - 1) + r1));
        assert(enc_rings(rs2, n) + r2 =~= enc_ring(rs2[0]) + (enc_rings(d2, n - 1) + r2));
        lemma_ring_prefix(rs1[0], enc_rings(d1, n - 1) + r1, rs2[0], enc_rings(d2, n - 1) + r2);
        assert(forall|k: int| 0 <= k < n - 1 ==> bounded_ring(#[trigger] d1[k]) && bounded_ring(
            d2[k],
        ));
        lemma_rings_prefix(d1, d2, n - 1, r1, r2);
        assert forall|k: int| 0 <= k < n implies rs1[k] == rs2[k] by {
            if k > 0 {
                assert(rs1[k] == d1[k - 1]);
                assert(rs2[k] == d2[k - 1]);
            }
        }
    }
}

proof fn lemma_polygon_prefix(p1: PolygonShape, r1: Seq<u8>, p2: PolygonShape, r2: Seq<u8>)
    requires
        bounded_polygon(p1),
        bounded_polygon(p2),
        enc_polygon(p1) + r1 == enc_polygon(p2) + r2,
    ensures
        p1 == p2,
        r1 == r2,
{
    let n1 = p1.interiors.len() as int;
    let n2 = p2.interiors.len() as int;
    let tail1 = le8(p1.interiors.len() as u64) + enc_rings(p1.interiors, n1) + r1;
    let tail2 = le8(p2.interiors.len() as u64) + enc_rings(p2.interiors, n2) + r2;
    assert(enc_polygon(p1) + r1 =~= enc_ring(p1.exterior) + tail1);
    assert(enc_polygon(p2) + r2 =~= enc_ring(p2.exterior) + tail2);
    lemma_ring_prefix(p1.exterior, tail1, p2.exterior, tail2);
    assert(tail1 =~= le8(p1.interiors.len() as u64) + (enc_rings(p1.interiors, n1) + r1));
    assert(tail2 =~= le8(p2.interiors.len() as u64) + (enc_rings(p2.interiors, n2) + r2));
    lemma_concat_split(
        le8(p1.interiors.len() as u64),
        enc_rings(p1.interiors, n1) + r1,
        le8(p2.interiors.len() as u64),
        enc_rings(p2.interiors, n2) + r2,
    );
    lemma_le8_inj(p1.interiors.len() as u64, p2.interiors.len() as u64);
    assert(n1 == n2);
    lemma_rings_prefix(p1.interiors, p2.interiors, n1, r1, r2);
    assert(p1.interiors =~= p2.interiors);
}

proof fn lemma_member_prefix(m1: MemberShape, r1: Seq<u8>, m2: MemberShape, r2: Seq<u8>)
    requires
        bounded_member(m1),
        bounded_member(m2),
        enc_member(m1) + r1 == enc_member(m2) + r2,
    ensures
        m1 == m2,
        r1 == r2,
{
    let mk1: Seq<u8> = match m1.polygon {
        None => seq![0u8],
        Some(p) => seq![1u8] + enc_polygon(p),
    };
    let mk2: Seq<u8> = match m2.polygon {
        None => seq![0u8],
        Some(p) => seq![1u8] + enc_polygon(p),
    };
    assert(enc_member(m1) + r1 =~= le8(m1.href.len() as u64) + m1.href + (mk1 + r1));
    assert(enc_member(m2) + r2 =~= le8(m2.href.len() as u64) + m2.href + (mk2 + r2));
    lemma_sized_prefix(m1.href, mk1 + r1, m2.href, mk2 + r2);
    assert(mk1[0] == (mk1 + r1)[0]);
    assert(mk2[0] == (mk2 + r2)[0]);
    match (m1.polygon, m2.polygon) {
        (None, None) => {
            lemma_concat_split(seq![0u8], r1, seq![0u8], r2);
        },
        (None, Some(p2x)) => {
            assert(mk1[0] == 0);
            assert(mk2[0] == (seq![1u8] + enc_polygon(p2x))[0]);
            assert(false);
        },
        (Some(p1x), None) => {
            assert(mk1[0] == (seq![1u8] + enc_polygon(p1x))[0]);
            assert(mk2[0] == 0);
            assert(false);
        },
        (Some(p1x), Some(p2x)) => {
            assert(mk1 + r1 =~= seq![1u8] + (enc_polygon(p1x) + r1));
            assert(mk2 + r2 =~= seq![1u8] + (enc_polygon(p2x) + r2));
            lemma_concat_split(seq![1u8], enc_polygon(p1x) + r1, seq![1u8], enc_polygon(p2x) + r2);
            lemma_polygon_prefix(p1x, r1, p2x, r2);
        },
    }
}

proof fn lemma_members_front(ms: Seq<MemberShape>, n: int)
    requires
        1 <= n <= ms.len(),
    ensures
        enc_members(ms, n) == enc_member(ms[0]) + enc_members(ms.drop_first(), n - 1),
    decreases n,
{
    if n == 1 {
        assert(enc_members(ms, 0) == Seq::<u8>::empty());
        assert(enc_members(ms.drop_first(), 0) == Seq::<u8>::empty());
        assert(enc_members(ms, 1) =~= enc_member(ms[0]) + enc_members(ms.drop_first(), 0));
    } else {
        lemma_members_front(ms, n - 1);
        assert(ms.drop_first()[n - 2] == ms[n - 1]);
        assert(enc_members(ms, n) =~= enc_member(ms[0]) + enc_members(ms.drop_first(), n - 1));
    }
}

#[verifier::rlimit(50)]
proof fn lemma_members_prefix(
    ms1: Seq<MemberShape>,
    ms2: Seq<MemberShape>,
    n: int,
    r1: Seq<u8>,
    r2: Seq<u8>,
)
    requires
        0 <= n <= ms1.len(),
        n <= ms2.len(),
        forall|k: int| 0 <= k < n ==> bounded_member(#[trigger] ms1[k]),
        forall|k: int| 0 <= k < n ==> bounded_member(#[trigger] ms2[k]),
        enc_members(ms1, n) + r1 == enc_members(ms2, n) + r2,
    ensures
        forall|k: int| 0 <= k < n ==> ms1[k] == ms2[k],
        r1 == r2,
    decreases n,
{
    if n == 0 {
        assert(Seq::<u8>::empty() + r1 =~= r1);
        assert(Seq::<u8>::empty() + r2 =~= r2);
    } else {
        lemma_members_front(ms1, n);
        lemma_members_front(ms2, n);
        let d1 = ms1.drop_first();
        let d2 = ms2.drop_first();
        assert(enc_members(ms1, n) + r1 =~= enc_member(ms1[0]) + (enc_members(d1, n - 1) + r1));
        assert(enc_members(ms2, n) + r2 =~= enc_member(ms2[0]) + (enc_members(d2, n - 1) + r2));
        lemma_member_prefix(ms1[0], enc_members(d1, n - 1) + r1, ms2[0], enc_members(d2, n - 1)
            + r2);
        assert(forall|k: int| 0 <= k < n - 1 ==> bounded_member(#[trigger] d1[k]) && bounded_member(
            d2[k],
        ));
        lemma_members_prefix(d1, d2, n - 1, r1, r2);
        assert forall|k: int| 0 <= k < n implies ms1[k] == ms2[k] by {
            if k > 0 {
                assert(ms1[k] == d1[k - 1]);
                assert(ms2[k] == d2[k - 1]);
            }
        }
    }
}

/// The canonical encoding is injective: two bounded mapped structures with
/// the same canonical bytes agree in every field.  So two structurally
/// different inputs can only resolve to the same fallback identity through
/// a genuine collision of the hash itself, never through an ambiguity of
/// the encoding.
pub proof fn lemma_encoding_injective(v1: MultiSurfaceShape, v2: MultiSurfaceShape)
    requires
        bounded_structure(v1),
        bounded_structure(v2),
        enc_multi_surface(v1) == enc_multi_surface(v2),
    ensures
        v1 == v2,
{
    let n1 = v1.members.len() as int;
    let n2 = v2.members.len() as int;
    let tail1 = le8(v1.members.len() as u64) + enc_members(v1.members, n1);
    let tail2 = le8(v2.members.len() as u64) + enc_members(v2.members, n2);
    assert(enc_multi_surface(v1) =~= le8(v1.id.len() as u64) + v1.id + tail1);
    assert(enc_multi_surface(v2) =~= le8(v2.id.len() as u64) + v2.id + tail2);
    lemma_sized_prefix(v1.id, tail1, v2.id, tail2);
    lemma_concat_split(
        le8(v1.members.len() as u64),
        enc_members(v1.members, n1),
        le8(v2.members.len() as u64),
        enc_members(v2.members, n2),
    );
    lemma_le8_inj(v1.members.len() as u64, v2.members.len() as u64);
    assert(n1 == n2);
    assert(enc_members(v1.members, n1) + Seq::<u8>::empty() =~= enc_members(v1.members, n1));
    assert(enc_members(v2.members, n2) + Seq::<u8>::empty() =~= enc_members(v2.members, n2));
    lemma_members_prefix(v1.members, v2.members, n1, Seq::empty(), Seq::empty());
    assert(v1.members =~= v2.members);
}

/// Structurally different inputs encode differently: whenever two bounded
/// mapped structures differ in any field, their canonical byte strings
/// differ too.
pub proof fn lemma_distinct_structures_encode_distinctly(
    v1: MultiSurfaceShape,
    v2: MultiSurfaceShape,
)
    requires
        bounded_structure(v1),
        bounded_structure(v2),
        v1 != v2,
    ensures
        enc_multi_surface(v1) != enc_multi_surface(v2),
{
    if enc_multi_surface(v1) == enc_multi_surface(v2) {
        lemma_encoding_injective(v1, v2);
    }
}

} // verus!
