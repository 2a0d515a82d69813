//! The geometry resolver: from the mapped structure to the validated
//! domain geometry.
//!
//! The resolver settles the feature's identity (the explicit identifier
//! when one is present, a stable content hash otherwise), silently drops
//! surface members that carry no inline polygon — by-reference members are
//! recognized, not resolved — and converts the remaining polygons through
//! the domain constructors.  The first failure aborts the whole parse.

use vstd::prelude::*;

use crate::deser::deserialize_multi_surface;
use crate::deser::is_ws;
use crate::deser::skip_ws;
use crate::deser::spec_document;
use crate::deser::spec_skip_ws;
use crate::domain::id_text_from_hashed_u64;
use crate::domain::multi_surface_from_members;
use crate::domain::multi_surface_id;
use crate::domain::members_rejection;
use crate::domain::multi_surface_set_id;
use crate::domain::polygon_from_properties;
use crate::domain::polygon_built;
use crate::domain::pos_text_valid;
use crate::domain::position_of;
use crate::domain::position_from_text;
use crate::domain::push_char;
use crate::domain::ring_built;
use crate::domain::ring_from_positions;
use crate::domain::ring_points_accepted;
use crate::domain::ring_property_built;
use crate::domain::ring_rejection;
use crate::domain::ring_property_of;
use crate::domain::surface_members_of;
use crate::domain::surface_property_built;
use crate::domain::sha256_hex_u64;
use crate::domain::string_from_utf8;
use crate::domain::surface_member_count;
use crate::domain::surface_property_of;
use crate::errors::ConversionError;
use crate::errors::ParseError;
use crate::model::GmlLinearRing;
use crate::model::GmlMultiSurface;
use crate::model::GmlPolygon;
use crate::model::MemberShape;
use crate::model::MultiSurfaceShape;
use crate::model::PolygonShape;
use crate::model::RingShape;
use crate::stable_hash::content_hash;
use crate::stable_hash::hash_multi_surface;
use egml_core::model::geometry::DirectPosition;
use egml_core::model::geometry::aggregates::MultiSurface;
use egml_core::model::geometry::primitives::AbstractRingProperty;
use egml_core::model::geometry::primitives::AbstractSurfaceProperty;
use egml_core::model::geometry::primitives::LinearRing;
use vstd::string::StringSliceAdditionalSpecFns;

verus! {

/// The ordinate texts of one 3-D point, as split from a coordinate list.
pub struct PosText {
    pub x: Vec<u8>,
    pub y: Vec<u8>,
    pub z: Vec<u8>,
}

/// View of one point's ordinate texts.
pub ghost struct PosTextShape {
    pub x: Seq<u8>,
    pub y: Seq<u8>,
    pub z: Seq<u8>,
}

impl View for PosText {
    type V = PosTextShape;

    open spec fn view(&self) -> PosTextShape {
        PosTextShape { x: self.x@, y: self.y@, z: self.z@ }
    }
}

/// The first position at or after `i` whose byte is whitespace.
pub open spec fn spec_token_end(s: Seq<u8>, i: int) -> int
    decreases s.len() - i,
{
    if i < 0 || i >= s.len() {
        i
    } else if !is_ws(s[i]) {
        spec_token_end(s, i + 1)
    } else {
        i
    }
}

proof fn lemma_token_end(s: Seq<u8>, i: int)
    requires
        0 <= i <= s.len(),
    ensures
        i <= spec_token_end(s, i) <= s.len(),
    decreases s.len() - i,
{
    if i < s.len() && !is_ws(s[i]) {
        lemma_token_end(s, i + 1);
    }
}

fn token_end(s: &[u8], i: usize) -> (j: usize)
    requires
        i <= s@.len(),
    ensures
        j as int == spec_token_end(s@, i as int),
        i <= j <= s@.len(),
    decreases s@.len() - i,
{
    proof {
        lemma_token_end(s@, i as int);
    }
    if i < s.len() {
        let b = s[i];
        if !(b == 32 || b == 9 || b == 10 || b == 13) {
            return token_end(s, i + 1);
        }
    }
    i
}

/// The whitespace-separated tokens of `s` from position `i` on.
pub open spec fn spec_tokens(s: Seq<u8>, i: int) -> Seq<Seq<u8>>
    decreases s.len() - i,
{
    let j = spec_skip_ws(s, i);
    if j < i || s.len() < j || j >= s.len() {
        Seq::empty()
    } else {
        let e = spec_token_end(s, j);
        if e <= j || s.len() < e {
            // unreachable: the byte at `j` is no whitespace; keeps the
            // recursion visibly decreasing
            Seq::empty()
        } else {
            seq![s.subrange(j, e)] + spec_tokens(s, e)
        }
    }
}

fn tokens_from(s: &[u8], i: usize) -> (r: Vec<Vec<u8>>)
    requires
        i <= s@.len(),
    ensures
        r@.map_values(|t: Vec<u8>| t@) == spec_tokens(s@, i as int),
    decreases s@.len() - i,
{
    let j = skip_ws(s, i);
    if j >= s.len() {
        proof {
            assert(Seq::<Vec<u8>>::empty().map_values(|t: Vec<u8>| t@) =~= Seq::<Seq<u8>>::empty());
        }
        return Vec::new();
    }
    let e = token_end(s, j);
    if e <= j {
        proof {
            assert(Seq::<Vec<u8>>::empty().map_values(|t: Vec<u8>| t@) =~= Seq::<Seq<u8>>::empty());
        }
        return Vec::new();
    }
    let tok = vstd::slice::slice_to_vec(vstd::slice::slice_subrange(s, j, e));
    let rest = tokens_from(s, e);
    let mut v = rest;
    v.insert(0, tok);
    proof {
        assert(v@.map_values(|t: Vec<u8>| t@) =~= seq![s@.subrange(j as int, e as int)]
            + spec_tokens(s@, e as int));
    }
    v
}

/// The tokens of `toks` grouped in threes, each group one point.
pub open spec fn spec_triples(toks: Seq<Seq<u8>>) -> Seq<PosTextShape>
    decreases toks.len(),
{
    if toks.len() < 3 {
        Seq::empty()
    } else {
        seq![PosTextShape { x: toks[0], y: toks[1], z: toks[2] }] + spec_triples(toks.skip(3))
    }
}

fn triples_from(toks: &Vec<Vec<u8>>, k: usize) -> (r: Vec<PosText>)
    requires
        k <= toks@.len(),
    ensures
        r@.map_values(|p: PosText| p@) == spec_triples(
            toks@.map_values(|t: Vec<u8>| t@).skip(k as int),
        ),
    decreases toks@.len() - k,
{
    if toks.len() - k < 3 {
        proof {
            assert(Seq::<PosText>::empty().map_values(|p: PosText| p@) =~= Seq::<
                PosTextShape,
            >::empty());
        }
        return Vec::new();
    }
    let x = vstd::slice::slice_to_vec(toks[k].as_slice());
    let y = vstd::slice::slice_to_vec(toks[k + 1].as_slice());
    let z = vstd::slice::slice_to_vec(toks[k + 2].as_slice());
    let rest = triples_from(toks, k + 3);
    let mut v = rest;
    v.insert(0, PosText { x, y, z });
    proof {
        let tv = toks@.map_values(|t: Vec<u8>| t@);
        assert(tv.skip(k as int).skip(3) =~= tv.skip(k as int + 3));
        assert(tv.skip(k as int)[0] == tv[k as int]);
        assert(tv.skip(k as int)[1] == tv[k as int + 1]);
        assert(tv.skip(k as int)[2] == tv[k as int + 2]);
        assert(v@.map_values(|p: PosText| p@) =~= seq![
            PosTextShape { x: tv[k as int], y: tv[k as int + 1], z: tv[k as int + 2] },
        ] + spec_triples(tv.skip(k as int + 3)));
    }
    v
}

/// The points with runs of consecutive equal points collapsed to one.
pub open spec fn spec_dedup(ps: Seq<PosTextShape>) -> Seq<PosTextShape>
    decreases ps.len(),
{
    if ps.len() <= 1 {
        ps
    } else if ps[0] == ps[1] {
        spec_dedup(ps.drop_first())
    } else {
        seq![ps[0]] + spec_dedup(ps.drop_first())
    }
}

/// The points with an explicit closing vertex — a last point equal to the
/// first — dropped, as the domain ring is implicitly closed.
pub open spec fn spec_strip_closing(ps: Seq<PosTextShape>) -> Seq<PosTextShape> {
    if ps.len() >= 2 && ps[0] == ps[ps.len() - 1] {
        ps.drop_last()
    } else {
        ps
    }
}

fn bytes_eq(a: &[u8], b: &[u8]) -> (r: bool)
    ensures
        r == (a@ == b@),
{
    if a.len() != b.len() {
        proof {
            assert(a@.len() != b@.len());
        }
        return false;
    }
    let mut k: usize = 0;
    while k < a.len()
        invariant
            a@.len() == b@.len(),
            k <= a@.len(),
            forall|m: int| 0 <= m < k ==> a@[m] == b@[m],
        decreases a@.len() - k,
    {
        if a[k] != b[k] {
            return false;
        }
        k += 1;
    }
    proof {
        assert(a@ =~= b@);
    }
    true
}

fn pos_text_eq(a: &PosText, b: &PosText) -> (r: bool)
    ensures
        r == (a@ == b@),
{
    let r = bytes_eq(a.x.as_slice(), b.x.as_slice()) && bytes_eq(a.y.as_slice(), b.y.as_slice())
        && bytes_eq(a.z.as_slice(), b.z.as_slice());
    proof {
        if a.x@ == b.x@ && a.y@ == b.y@ && a.z@ == b.z@ {
            assert(a@ == b@);
        }
    }
    r
}

fn dedup_from(ps: &Vec<PosText>, k: usize) -> (r: Vec<PosText>)
    requires
        k <= ps@.len(),
    ensures
        r@.map_values(|p: PosText| p@) == spec_dedup(
            ps@.map_values(|p: PosText| p@).skip(k as int),
        ),
    decreases ps@.len() - k,
{
    let ghost pv = ps@.map_values(|p: PosText| p@);
    if ps.len() - k <= 1 {
        if ps.len() - k == 0 {
            proof {
                assert(Seq::<PosText>::empty().map_values(|p: PosText| p@) =~= pv.skip(k as int));
            }
            return Vec::new();
        }
        let mut v: Vec<PosText> = Vec::new();
        let one = PosText {
            x: vstd::slice::slice_to_vec(ps[k].x.as_slice()),
            y: vstd::slice::slice_to_vec(ps[k].y.as_slice()),
            z: vstd::slice::slice_to_vec(ps[k].z.as_slice()),
        };
        v.push(one);
        proof {
            assert(v@.map_values(|p: PosText| p@) =~= pv.skip(k as int));
        }
        return v;
    }
    proof {
        assert(pv.skip(k as int).drop_first() =~= pv.skip(k as int + 1));
        assert(pv.skip(k as int)[0] == pv[k as int]);
        assert(pv.skip(k as int)[1] == pv[k as int + 1]);
    }
    if pos_text_eq(&ps[k], &ps[k + 1]) {
        dedup_from(ps, k + 1)
    } else {
        let rest = dedup_from(ps, k + 1);
        let mut v = rest;
        let head = PosText {
            x: vstd::slice::slice_to_vec(ps[k].x.as_slice()),
            y: vstd::slice::slice_to_vec(ps[k].y.as_slice()),
            z: vstd::slice::slice_to_vec(ps[k].z.as_slice()),
        };
        v.insert(0, head);
        proof {
            assert(v@.map_values(|p: PosText| p@) =~= seq![pv[k as int]] + spec_dedup(
                pv.skip(k as int + 1),
            ));
        }
        v
    }
}

fn strip_closing(ps: Vec<PosText>) -> (r: Vec<PosText>)
    ensures
        r@.map_values(|p: PosText| p@) == spec_strip_closing(ps@.map_values(|p: PosText| p@)),
{
    let ghost pv = ps@.map_values(|p: PosText| p@);
    if ps.len() >= 2 {
        let last: usize = ps.len() - 1;
        if pos_text_eq(&ps[0], &ps[last]) {
            let mut v = ps;
            let _ = v.pop();
            proof {
                assert(v@.map_values(|p: PosText| p@) =~= pv.drop_last());
            }
            return v;
        }
    }
    ps
}

/// The points a ring's coordinate text denotes, after grouping in threes,
/// collapsing consecutive duplicates, and dropping an explicit closing
/// vertex.
pub open spec fn ring_points(r: RingShape) -> Seq<PosTextShape> {
    spec_strip_closing(spec_dedup(spec_triples(spec_tokens(r.pos_list, 0))))
}

/// Whether a ring's coordinate text splits into whole points: three
/// ordinate tokens each.
pub open spec fn ring_token_count_ok(r: RingShape) -> bool {
    spec_tokens(r.pos_list, 0).len() % 3 == 0
}

/// Whether every point among `ps` has three parseable, finite ordinates.
pub open spec fn all_points_valid(ps: Seq<PosTextShape>) -> bool {
    forall|k: int| 0 <= k < ps.len() ==> pos_text_valid(ps[k].x, ps[k].y, ps[k].z)
}

/// The domain position one point's ordinate texts denote.
pub open spec fn point_position(p: PosTextShape) -> DirectPosition {
    position_of(p.x, p.y, p.z)
}

/// Whether the domain model accepts the cleaned points of a ring as a
/// linear ring, once each point's texts are read as a position.
pub open spec fn ring_accepted(r: RingShape) -> bool {
    ring_points_accepted(ring_points(r).map_values(|p: PosTextShape| point_position(p)))
}

/// Whether a ring converts: its coordinate text splits into whole points,
/// every ordinate parses as a finite number, and the domain model accepts
/// the cleaned point sequence.
pub open spec fn ring_ok(r: RingShape) -> bool {
    ring_token_count_ok(r) && all_points_valid(ring_points(r)) && ring_accepted(r)
}

/// The domain ring a convertible ring's text denotes.
pub open spec fn converted_ring(r: RingShape) -> LinearRing {
    ring_built(ring_points(r).map_values(|p: PosTextShape| point_position(p)))
}

/// The error a ring that does not convert is rejected with: the first of
/// the three checks — whole points, parseable ordinates, domain
/// acceptance — that fails decides.
pub open spec fn ring_error(r: RingShape) -> ConversionError {
    if !ring_token_count_ok(r) {
        ConversionError::CoordinateCountNotTriple
    } else if !all_points_valid(ring_points(r)) {
        ConversionError::InvalidCoordinate
    } else {
        ConversionError::Domain(
            ring_rejection(ring_points(r).map_values(|p: PosTextShape| point_position(p))),
        )
    }
}

/// Converts one mapped ring into a domain ring.
///
/// The coordinate text is split and grouped here; whether the resulting
/// positions form a ring is the domain model's decision, reported as a
/// [`ConversionError::Domain`].  The four outcomes — success and the three
/// failure classes — partition the inputs.
pub fn convert_ring(r: &GmlLinearRing) -> (res: Result<LinearRing, ConversionError>)
    ensures
        res is Ok <==> ring_ok(r@),
        !ring_token_count_ok(r@) <==> res matches Err(ConversionError::CoordinateCountNotTriple),
        (ring_token_count_ok(r@) && !all_points_valid(ring_points(r@))) <==> res matches Err(
            ConversionError::InvalidCoordinate,
        ),
        (ring_token_count_ok(r@) && all_points_valid(ring_points(r@)) && !ring_accepted(r@)) <==> (
        res matches Err(ConversionError::Domain(_))),
        res is Ok ==> res->Ok_0 == converted_ring(r@),
        res is Err ==> res->Err_0 == ring_error(r@),
{
    let toks = tokens_from(r.pos_list.as_slice(), 0);
    if toks.len() % 3 != 0 {
        return Err(ConversionError::CoordinateCountNotTriple);
    }
    let pts = triples_from(&toks, 0);
    proof {
        assert(toks@.map_values(|t: Vec<u8>| t@).skip(0) =~= toks@.map_values(|t: Vec<u8>| t@));
    }
    let deduped = dedup_from(&pts, 0);
    proof {
        assert(pts@.map_values(|p: PosText| p@).skip(0) =~= pts@.map_values(|p: PosText| p@));
    }
    let cleaned = strip_closing(deduped);
    let ghost cps = ring_points(r@);
    let mut positions: Vec<DirectPosition> = Vec::new();
    let mut k: usize = 0;
    while k < cleaned.len()
        invariant
            ring_token_count_ok(r@),
            cleaned@.map_values(|p: PosText| p@) == cps,
            cps == ring_points(r@),
            k <= cleaned@.len(),
            positions@.len() == k,
            forall|m: int| 0 <= m < k ==> pos_text_valid(cps[m].x, cps[m].y, cps[m].z),
            forall|m: int| 0 <= m < k ==> positions@[m] == point_position(#[trigger] cps[m]),
        decreases cleaned@.len() - k,
    {
        let p = &cleaned[k];
        proof {
            assert(cps[k as int] == cleaned@[k as int]@);
        }
        match position_from_text(p.x.as_slice(), p.y.as_slice(), p.z.as_slice()) {
            Some(pos) => {
                positions.push(pos);
            },
            None => {
                proof {
                    assert(!pos_text_valid(cps[k as int].x, cps[k as int].y, cps[k as int].z));
                    assert(!all_points_valid(cps));
                }
                return Err(ConversionError::InvalidCoordinate);
            },
        }
        k += 1;
    }
    proof {
        assert(all_points_valid(cps));
        assert(positions@ =~= cps.map_values(|p: PosTextShape| point_position(p)));
    }
    match ring_from_positions(positions) {
        Ok(ring) => Ok(ring),
        Err(e) => Err(ConversionError::Domain(e)),
    }
}

/// Whether every ring of a polygon converts: the exterior and each
/// interior ring in turn.
pub open spec fn polygon_ok(p: PolygonShape) -> bool {
    ring_ok(p.exterior) && forall|k: int| 0 <= k < p.interiors.len() ==> ring_ok(
        #[trigger] p.interiors[k],
    )
}

/// The inline surface property a convertible polygon denotes: its rings
/// converted and assembled in source order.
pub open spec fn converted_polygon(p: PolygonShape) -> AbstractSurfaceProperty {
    surface_property_built(
        polygon_built(
            ring_property_built(converted_ring(p.exterior)),
            p.interiors.map_values(|r: RingShape| ring_property_built(converted_ring(r))),
        ),
    )
}

/// The index of the first ring among the first `k` of `rs` that does not
/// convert, or `k` when they all do.
pub open spec fn first_bad_ring(rs: Seq<RingShape>, k: int) -> int
    decreases k,
{
    if k <= 0 {
        0
    } else {
        let f = first_bad_ring(rs, k - 1);
        if f < k - 1 {
            f
        } else if !ring_ok(rs[k - 1]) {
            k - 1
        } else {
            k
        }
    }
}

proof fn lemma_first_bad_ring(rs: Seq<RingShape>, k: int, n: int)
    requires
        0 <= k < n,
        forall|m: int| 0 <= m < k ==> ring_ok(#[trigger] rs[m]),
        !ring_ok(rs[k]),
    ensures
        first_bad_ring(rs, n) == k,
    decreases n,
{
    if n == k + 1 {
        lemma_first_bad_ring_all_ok(rs, k);
    } else {
        lemma_first_bad_ring(rs, k, n - 1);
    }
}

proof fn lemma_first_bad_ring_all_ok(rs: Seq<RingShape>, k: int)
    requires
        0 <= k,
        forall|m: int| 0 <= m < k ==> ring_ok(#[trigger] rs[m]),
    ensures
        first_bad_ring(rs, k) == k,
    decreases k,
{
    if k > 0 {
        lemma_first_bad_ring_all_ok(rs, k - 1);
    }
}

/// The error a polygon that does not convert is rejected with: that of
/// its first failing ring, the exterior counted first.
pub open spec fn polygon_error(p: PolygonShape) -> ConversionError {
    if !ring_ok(p.exterior) {
        ring_error(p.exterior)
    } else {
        ring_error(p.interiors[first_bad_ring(p.interiors, p.interiors.len() as int)])
    }
}

/// Converts one mapped polygon into an inline domain surface property.
///
/// Rings are converted in source order, the exterior first; the first
/// rejection aborts the conversion and is handed back unchanged.
pub fn convert_polygon(p: &GmlPolygon) -> (res: Result<AbstractSurfaceProperty, ConversionError>)
    ensures
        res is Ok <==> polygon_ok(p@),
        res is Ok ==> res->Ok_0 == converted_polygon(p@),
        res is Err ==> res->Err_0 == polygon_error(p@),
        !ring_token_count_ok(p@.exterior) ==> res matches Err(
            ConversionError::CoordinateCountNotTriple,
        ),
{
    let exterior = match convert_ring(&p.exterior) {
        Ok(ring) => ring,
        Err(e) => {
            proof {
                assert(!ring_ok(p@.exterior));
            }
            return Err(e);
        },
    };
    proof {
        assert(ring_ok(p@.exterior));
    }
    let exterior_prop = ring_property_of(exterior);
    let mut interior_props: Vec<AbstractRingProperty> = Vec::new();
    let mut k: usize = 0;
    while k < p.interiors.len()
        invariant
            ring_ok(p@.exterior),
            exterior_prop == ring_property_built(converted_ring(p@.exterior)),
            k <= p.interiors@.len(),
            forall|m: int| 0 <= m < k ==> ring_ok(#[trigger] p@.interiors[m]),
            interior_props@ == p@.interiors.subrange(0, k as int).map_values(
                |r: RingShape| ring_property_built(converted_ring(r)),
            ),
        decreases p.interiors@.len() - k,
    {
        proof {
            assert(p@.interiors[k as int] == p.interiors@[k as int]@);
        }
        let ring = match convert_ring(&p.interiors[k]) {
            Ok(ring) => ring,
            Err(e) => {
                proof {
                    assert(!ring_ok(p@.interiors[k as int]));
                    lemma_first_bad_ring(p@.interiors, k as int, p@.interiors.len() as int);
                }
                return Err(e);
            },
        };
        interior_props.push(ring_property_of(ring));
        proof {
            assert(interior_props@ =~= p@.interiors.subrange(0, k as int + 1).map_values(
                |r: RingShape| ring_property_built(converted_ring(r)),
            ));
        }
        k += 1;
    }
    proof {
        assert(p@.interiors.len() == p.interiors@.len());
        assert(p@.interiors.subrange(0, p@.interiors.len() as int) =~= p@.interiors);
    }
    let polygon = polygon_from_properties(exterior_prop, interior_props);
    Ok(surface_property_of(polygon))
}

/// How many of the first `k` members carry an inline polygon.
pub open spec fn inline_upto(members: Seq<MemberShape>, k: int) -> int
    decreases k,
{
    if k <= 0 {
        0
    } else {
        inline_upto(members, k - 1) + if members[k - 1].polygon is Some {
            1int
        } else {
            0int
        }
    }
}

/// How many members of a mapped structure carry an inline polygon.
pub open spec fn inline_count(v: MultiSurfaceShape) -> int {
    inline_upto(v.members, v.members.len() as int)
}

proof fn lemma_inline_upto_mono(members: Seq<MemberShape>, a: int, b: int)
    requires
        0 <= a <= b,
    ensures
        inline_upto(members, a) <= inline_upto(members, b),
    decreases b,
{
    if a < b {
        lemma_inline_upto_mono(members, a, b - 1);
    }
}

proof fn lemma_inline_upto_bounds(members: Seq<MemberShape>, k: int)
    requires
        0 <= k,
    ensures
        0 <= inline_upto(members, k) <= k,
    decreases k,
{
    if k > 0 {
        lemma_inline_upto_bounds(members, k - 1);
    }
}

/// The surface members the first `k` members of a mapped structure
/// contribute: the conversions of exactly those with an inline polygon,
/// in source order, reference-only members simply absent.
pub open spec fn converted_upto(members: Seq<MemberShape>, k: int) -> Seq<AbstractSurfaceProperty>
    decreases k,
{
    if k <= 0 {
        Seq::empty()
    } else {
        converted_upto(members, k - 1) + match members[k - 1].polygon {
            None => Seq::<AbstractSurfaceProperty>::empty(),
            Some(p) => seq![converted_polygon(p)],
        }
    }
}

/// The surface members a whole mapped structure contributes.
pub open spec fn converted_members(v: MultiSurfaceShape) -> Seq<AbstractSurfaceProperty> {
    converted_upto(v.members, v.members.len() as int)
}

/// Whether a member converts: a reference-only member always does — it is
/// simply dropped — and an inline polygon must have every ring convert.
pub open spec fn member_ok(m: MemberShape) -> bool {
    m.polygon matches Some(p) ==> polygon_ok(p)
}

/// Whether every member of a mapped structure converts.
pub open spec fn members_ok(v: MultiSurfaceShape) -> bool {
    forall|k: int| 0 <= k < v.members.len() ==> member_ok(#[trigger] v.members[k])
}

/// The index of the first member among the first `k` of `members` that
/// does not convert, or `k` when they all do.
pub open spec fn first_bad_member(members: Seq<MemberShape>, k: int) -> int
    decreases k,
{
    if k <= 0 {
        0
    } else {
        let f = first_bad_member(members, k - 1);
        if f < k - 1 {
            f
        } else if !member_ok(members[k - 1]) {
            k - 1
        } else {
            k
        }
    }
}

proof fn lemma_first_bad_member(members: Seq<MemberShape>, k: int, n: int)
    requires
        0 <= k < n,
        forall|m: int| 0 <= m < k ==> member_ok(#[trigger] members[m]),
        !member_ok(members[k]),
    ensures
        first_bad_member(members, n) == k,
    decreases n,
{
    if n == k + 1 {
        lemma_first_bad_member_all_ok(members, k);
    } else {
        lemma_first_bad_member(members, k, n - 1);
    }
}

proof fn lemma_first_bad_member_all_ok(members: Seq<MemberShape>, k: int)
    requires
        0 <= k,
        forall|m: int| 0 <= m < k ==> member_ok(#[trigger] members[m]),
    ensures
        first_bad_member(members, k) == k,
    decreases k,
{
    if k > 0 {
        lemma_first_bad_member_all_ok(members, k - 1);
    }
}

/// The error a mapped structure that does not resolve is rejected with:
/// the first failing member's polygon error, or — when every member
/// converts but none carries an inline polygon — the domain's rejection
/// of the empty member list.
pub open spec fn resolve_error(v: MultiSurfaceShape) -> ParseError {
    if !members_ok(v) {
        ParseError::PolygonConversion(
            polygon_error(
                v.members[first_bad_member(v.members, v.members.len() as int)].polygon->Some_0,
            ),
        )
    } else {
        ParseError::PolygonConversion(
            ConversionError::Domain(members_rejection(converted_members(v))),
        )
    }
}

/// The characters of a byte string, one character per byte.
pub open spec fn chars_of(b: Seq<u8>) -> Seq<char> {
    b.map_values(|x: u8| x as char)
}

/// The characters an explicit identifier's bytes denote: their UTF-8
/// decoding when they are valid UTF-8, else one character per raw byte.
/// The reader keeps attribute values verbatim, so an entity reference in
/// an identifier stays as written.
pub open spec fn id_chars(b: Seq<u8>) -> Seq<char> {
    if vstd::utf8::valid_utf8(b) {
        vstd::utf8::decode_utf8(b)
    } else {
        chars_of(b)
    }
}

/// The identity a mapped structure resolves to: its identifier attribute
/// when non-empty, else the hex digest derived from its content hash.
/// Identity resolution always succeeds; there is no error path for a
/// missing identifier.
pub open spec fn resolved_id(v: MultiSurfaceShape) -> Seq<char> {
    if v.id.len() > 0 {
        id_chars(v.id)
    } else {
        sha256_hex_u64(content_hash(v))
    }
}

fn resolve_identity(ms: &GmlMultiSurface) -> (r: String)
    ensures
        r@ == resolved_id(ms@),
        r@.len() > 0,
{
    if ms.id.len() > 0 {
        if let Some(s) = string_from_utf8(vstd::slice::slice_to_vec(ms.id.as_slice())) {
            return s;
        }
        let mut s = String::new();
        let mut k: usize = 0;
        while k < ms.id.len()
            invariant
                !vstd::utf8::valid_utf8(ms.id@),
                k <= ms.id@.len(),
                s@.len() == k,
                forall|m: int| 0 <= m < k ==> s@[m] == (ms.id@[m] as char),
            decreases ms.id@.len() - k,
        {
            push_char(&mut s, ms.id[k] as char);
            k += 1;
        }
        proof {
            assert(s@ =~= chars_of(ms.id@));
        }
        s
    } else {
        let h = hash_multi_surface(ms);
        id_text_from_hashed_u64(h)
    }
}

/// Resolves a mapped structure into the domain multi-surface.
///
/// Members without an inline polygon contribute nothing; the polygons of
/// the remaining members are converted in source order and handed, with
/// the resolved identity, to the domain constructor, whose rejection —
/// for instance of an empty member list — is reported like any other
/// domain rejection.
pub fn resolve_multi_surface(ms: GmlMultiSurface) -> (res: Result<MultiSurface, ParseError>)
    ensures
        res is Ok <==> inline_count(ms@) > 0 && members_ok(ms@),
        res is Ok ==> surface_member_count(res->Ok_0) == inline_count(ms@) && multi_surface_id(
            res->Ok_0,
        ) == Some(resolved_id(ms@)) && surface_members_of(res->Ok_0) == converted_members(ms@),
        res is Err ==> res->Err_0 == resolve_error(ms@),
        inline_count(ms@) == 0 ==> res matches Err(
            ParseError::PolygonConversion(ConversionError::Domain(_)),
        ),
        res is Err ==> res matches Err(ParseError::PolygonConversion(_)),
{
    let id_text = resolve_identity(&ms);
    let mut props: Vec<AbstractSurfaceProperty> = Vec::new();
    let mut k: usize = 0;
    while k < ms.members.len()
        invariant
            k <= ms.members@.len(),
            props@.len() == inline_upto(ms@.members, k as int),
            props@ == converted_upto(ms@.members, k as int),
            forall|m: int| 0 <= m < k ==> member_ok(#[trigger] ms@.members[m]),
        decreases ms.members@.len() - k,
    {
        proof {
            assert(ms@.members[k as int] == ms.members@[k as int]@);
        }
        match &ms.members[k].polygon {
            None => {
                proof {
                    assert(props@ =~= converted_upto(ms@.members, k as int + 1));
                }
            },
            Some(p) => {
                match convert_polygon(p) {
                    Ok(prop) => {
                        props.push(prop);
                        proof {
                            assert(ms@.members[k as int].polygon == Some(p@));
                            assert(props@ =~= converted_upto(ms@.members, k as int + 1));
                        }
                    },
                    Err(e) => {
                        proof {
                            lemma_inline_upto_bounds(ms@.members, k as int);
                            assert(inline_upto(ms@.members, k as int + 1) >= 1);
                            lemma_inline_upto_mono(
                                ms@.members,
                                k as int + 1,
                                ms@.members.len() as int,
                            );
                            assert(ms@.members[k as int].polygon == Some(p@));
                            assert(!member_ok(ms@.members[k as int]));
                            assert(!members_ok(ms@));
                            lemma_first_bad_member(
                                ms@.members,
                                k as int,
                                ms@.members.len() as int,
                            );
                        }
                        return Err(ParseError::PolygonConversion(e));
                    },
                }
            },
        }
        k += 1;
    }
    proof {
        assert(ms@.members.len() == ms.members@.len());
    }
    proof {
        assert(members_ok(ms@));
    }
    match multi_surface_from_members(props) {
        Err(e) => {
            proof {
                assert(inline_count(ms@) == 0);
            }
            Err(ParseError::PolygonConversion(ConversionError::Domain(e)))
        },
        Ok(mut surface) => {
            multi_surface_set_id(&mut surface, id_text);
            Ok(surface)
        },
    }
}

/// Parses markup text into a validated domain multi-surface.
///
/// The text is deserialized against the mapped shape — a failure there is
/// a [`ParseError::Deserialization`], and nothing else is attempted — and
/// the mapped structure is then resolved: identity first, then the member
/// polygons.  A single call either yields a complete multi-surface or one
/// error; never a partial result.
pub fn parse_multi_surface(source_text: &str) -> (res: Result<MultiSurface, ParseError>)
    ensures
        ({
            let doc = spec_document(source_text.spec_bytes());
            match doc {
                Err(e) => res matches Err(ParseError::Deserialization(de)) && de == e,
                Ok(v) => {
                    &&& res is Ok <==> inline_count(v) > 0 && members_ok(v)
                    &&& res is Ok ==> surface_member_count(res->Ok_0) == inline_count(v)
                        && multi_surface_id(res->Ok_0) == Some(resolved_id(v))
                        && surface_members_of(res->Ok_0) == converted_members(v)
                    &&& inline_count(v) == 0 ==> (res matches Err(
                        ParseError::PolygonConversion(ConversionError::Domain(_)),
                    ))
                    &&& res is Err ==> (res matches Err(ParseError::PolygonConversion(_)))
                    &&& res is Err ==> res->Err_0 == resolve_error(v)
                },
            }
        }),
{
    let bytes = source_text.as_bytes();
    match deserialize_multi_surface(bytes) {
        Err(e) => Err(ParseError::Deserialization(e)),
        Ok(ms) => resolve_multi_surface(ms),
    }
}

/// An explicit identifier wins, independent of member content: two mapped
/// structures with the same non-empty identifier attribute resolve to the
/// same identity, namely that attribute's characters, whatever their
/// members hold.
pub proof fn lemma_explicit_id_independent_of_members(a: MultiSurfaceShape, b: MultiSurfaceShape)
    requires
        a.id == b.id,
        a.id.len() > 0,
    ensures
        resolved_id(a) == id_chars(a.id),
        resolved_id(a) == resolved_id(b),
{
}

/// Fallback identity is deterministic: the resolved identity is a function
/// of the document's bytes, so parsing the same text twice — with an
/// absent identifier attribute or not — resolves the same identity both
/// times.  Together with the contract of [`parse_multi_surface`], which
/// pins the identity of every successful parse to `resolved_id` of the
/// deserialized structure, this rules out any run-to-run variation.
pub proof fn lemma_resolved_id_deterministic(s1: Seq<u8>, s2: Seq<u8>)
    requires
        s1 == s2,
        spec_document(s1) is Ok,
    ensures
        resolved_id(spec_document(s1)->Ok_0) == resolved_id(spec_document(s2)->Ok_0),
{
}

/// Reference-only members contribute nothing: when every member lacks an
/// inline polygon, no member contributes a polygon, so a parse of such a
/// structure can only be rejected by the domain constructor for its empty
/// member list — a domain rejection, never a per-member conversion error.
pub proof fn lemma_reference_only_members_contribute_nothing(v: MultiSurfaceShape)
    requires
        forall|k: int| 0 <= k < v.members.len() ==> v.members[k].polygon is None,
    ensures
        inline_count(v) == 0,
{
    lemma_inline_upto_none(v.members, v.members.len() as int);
}

proof fn lemma_inline_upto_none(members: Seq<MemberShape>, k: int)
    requires
        k <= members.len(),
        forall|m: int| 0 <= m < members.len() ==> members[m].polygon is None,
    ensures
        inline_upto(members, k) == 0,
    decreases k,
{
    if k > 0 {
        lemma_inline_upto_none(members, k - 1);
    }
}

} // verus!
