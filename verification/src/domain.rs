//! The trusted boundary to the `egml_core` domain model.
//!
//! The geometry types and their constructors are owned by `egml_core`; this
//! crate does not reimplement their topological invariants.  Each wrapper
//! below makes exactly one call into the domain layer and states, over the
//! named spec functions, what that layer's source shows.

use vstd::prelude::*;

use egml_core::model::base::AsAbstractGmlMut;
use egml_core::model::geometry::DirectPosition;
use egml_core::model::geometry::aggregates::MultiSurface;
use egml_core::model::geometry::primitives::AbstractRingKind;
use egml_core::model::geometry::primitives::AbstractRingProperty;
use egml_core::model::geometry::primitives::AbstractSurface;
use egml_core::model::geometry::primitives::AbstractSurfaceKind;
use egml_core::model::geometry::primitives::AbstractSurfaceProperty;
use egml_core::model::geometry::primitives::LinearRing;
use egml_core::model::geometry::primitives::Polygon;

verus! {

#[verifier::external_type_specification]
#[verifier::external_body]
pub struct ExEgmlError(egml_core::Error);

#[verifier::external_type_specification]
#[verifier::external_body]
pub struct ExDirectPosition(DirectPosition);

#[verifier::external_type_specification]
#[verifier::external_body]
pub struct ExLinearRing(LinearRing);

#[verifier::external_type_specification]
#[verifier::external_body]
pub struct ExAbstractRingProperty(AbstractRingProperty);

#[verifier::external_type_specification]
#[verifier::external_body]
pub struct ExPolygon(Polygon);

#[verifier::external_type_specification]
#[verifier::external_body]
pub struct ExAbstractSurfaceProperty(AbstractSurfaceProperty);

#[verifier::external_type_specification]
#[verifier::external_body]
pub struct ExMultiSurface(MultiSurface);

/// Whether three ordinate texts denote a finite 3-D position: each must be
/// the decimal text of a finite number.  The outcome is a function of the
/// three texts alone.
pub uninterp spec fn pos_text_valid(x: Seq<u8>, y: Seq<u8>, z: Seq<u8>) -> bool;

/// The position the domain layer builds from three ordinate texts; the
/// texts are parsed as numbers, so the outcome is a function of the three
/// texts alone.
pub uninterp spec fn position_of(x: Seq<u8>, y: Seq<u8>, z: Seq<u8>) -> DirectPosition;

/// Whether the domain layer holds two positions equal, as its position
/// type's equality compares them; a function of the two positions alone.
pub uninterp spec fn pos_eq(a: DirectPosition, b: DirectPosition) -> bool;

/// The linear ring the domain layer builds from an accepted position
/// sequence; a function of the positions alone.
pub uninterp spec fn ring_built(points: Seq<DirectPosition>) -> LinearRing;

/// The inline ring property wrapping a ring; a function of the ring alone.
pub uninterp spec fn ring_property_built(ring: LinearRing) -> AbstractRingProperty;

/// The polygon assembled from an exterior ring property and interior ring
/// properties; a function of those parts alone.
pub uninterp spec fn polygon_built(
    exterior: AbstractRingProperty,
    interiors: Seq<AbstractRingProperty>,
) -> Polygon;

/// The inline surface property wrapping a polygon; a function of the
/// polygon alone.
pub uninterp spec fn surface_property_built(polygon: Polygon) -> AbstractSurfaceProperty;

/// The surface members a domain multi-surface holds, in order.
pub uninterp spec fn surface_members_of(ms: MultiSurface) -> Seq<AbstractSurfaceProperty>;

/// The rejection the domain layer reports for a position sequence that is
/// no linear ring; a function of the positions alone.
pub uninterp spec fn ring_rejection(points: Seq<DirectPosition>) -> egml_core::Error;

/// The rejection the domain layer reports for an empty member list; a
/// function of the members alone.
pub uninterp spec fn members_rejection(members: Seq<AbstractSurfaceProperty>) -> egml_core::Error;

/// The 64-character uppercase hex digest that the domain layer derives by
/// hashing a 64-bit value; a function of the value alone.
pub uninterp spec fn sha256_hex_u64(val: u64) -> Seq<char>;

/// How many surface members a domain multi-surface holds.
pub uninterp spec fn surface_member_count(ms: MultiSurface) -> int;

/// The identifier a domain multi-surface carries, as its characters.
pub uninterp spec fn multi_surface_id(ms: MultiSurface) -> Option<Seq<char>>;

/// Relies on `f64`'s `FromStr` and on `DirectPosition::new`: the three
/// ordinate texts are parsed as numbers and the position is built from
/// them; `DirectPosition::new` rejects NaN and infinite values, so the call
/// yields a position exactly when all three texts denote finite numbers.
#[verifier::external_body]
pub(crate) fn position_from_text(x: &[u8], y: &[u8], z: &[u8]) -> (r: Option<DirectPosition>)
    ensures
        r is Some <==> pos_text_valid(x@, y@, z@),
        r matches Some(p) ==> p == position_of(x@, y@, z@),
{
    let sx = core::str::from_utf8(x).ok()?;
    let sy = core::str::from_utf8(y).ok()?;
    let sz = core::str::from_utf8(z).ok()?;
    let vx = sx.parse().ok()?;
    let vy = sy.parse().ok()?;
    let vz = sz.parse().ok()?;
    DirectPosition::new(vx, vy, vz).ok()
}

/// Whether the domain model accepts a position sequence as a linear ring:
/// at least three positions, no two adjacent ones equal, and the first
/// and last unequal, comparing positions as the domain does.
pub open spec fn ring_points_accepted(points: Seq<DirectPosition>) -> bool {
    &&& points.len() >= 3
    &&& !pos_eq(points[0], points[points.len() - 1])
    &&& forall|k: int|
        0 <= k < points.len() - 1 ==> !pos_eq(#[trigger] points[k], points[k + 1])
}

/// Relies on `LinearRing::new`: its validation shows that it succeeds
/// exactly on the position sequences of [`ring_points_accepted`].
#[verifier::external_body]
pub(crate) fn ring_from_positions(points: Vec<DirectPosition>) -> (r: Result<
    LinearRing,
    egml_core::Error,
>)
    ensures
        r is Ok ==> points@.len() >= 3,
        r is Ok ==> !pos_eq(points@[0], points@[points@.len() - 1]),
        r is Ok ==> forall|k: int| 0 <= k < points@.len() - 1 ==> !pos_eq(#[trigger] points@[k], points@[k + 1]),
        ring_points_accepted(points@) ==> r is Ok,
        r is Ok ==> r->Ok_0 == ring_built(points@),
        r is Err ==> r->Err_0 == ring_rejection(points@),
{
    LinearRing::new(points)
}

/// Relies on `AbstractRingProperty::from_object`: it wraps a ring as an
/// inline ring property, a function of the ring alone.
#[verifier::external_body]
pub(crate) fn ring_property_of(ring: LinearRing) -> (r: AbstractRingProperty)
    ensures
        r == ring_property_built(ring),
{
    AbstractRingProperty::from_object(AbstractRingKind::LinearRing(ring))
}

/// Relies on `Polygon::from_abstract_surface`: it assembles a polygon from
/// an exterior ring property and interior ring properties, cannot fail,
/// and stores nothing but those parts.
#[verifier::external_body]
pub(crate) fn polygon_from_properties(
    exterior: AbstractRingProperty,
    interiors: Vec<AbstractRingProperty>,
) -> (r: Polygon)
    ensures
        r == polygon_built(exterior, interiors@),
{
    Polygon::from_abstract_surface(AbstractSurface::default(), Some(exterior), interiors)
}

/// Relies on `AbstractSurfaceProperty::from_object`: it wraps a polygon as
/// an inline surface property, a function of the polygon alone.
#[verifier::external_body]
pub(crate) fn surface_property_of(polygon: Polygon) -> (r: AbstractSurfaceProperty)
    ensures
        r == surface_property_built(polygon),
{
    AbstractSurfaceProperty::from_object(AbstractSurfaceKind::Polygon(polygon))
}

/// Relies on `MultiSurface::new`: it stores the given members, which
/// `surface_member` hands back unchanged and in order, and rejects
/// exactly an empty member list.
#[verifier::external_body]
pub(crate) fn multi_surface_from_members(members: Vec<AbstractSurfaceProperty>) -> (r: Result<
    MultiSurface,
    egml_core::Error,
>)
    ensures
        r is Ok <==> members@.len() > 0,
        r is Ok ==> surface_member_count(r->Ok_0) == members@.len(),
        r is Ok ==> surface_members_of(r->Ok_0) == members@,
        r is Err ==> r->Err_0 == members_rejection(members@),
{
    MultiSurface::new(members)
}

/// Relies on `Id::try_from` and `AsAbstractGmlMut::set_id`: a non-empty
/// string is a valid identifier, and setting it touches nothing but the
/// identifier field.
#[verifier::external_body]
pub(crate) fn multi_surface_set_id(ms: &mut MultiSurface, value: String)
    requires
        value@.len() > 0,
    ensures
        multi_surface_id(*final(ms)) == Some(value@),
        surface_member_count(*final(ms)) == surface_member_count(*old(ms)),
        surface_members_of(*final(ms)) == surface_members_of(*old(ms)),
{
    let id = egml_core::model::base::Id::try_from(value).unwrap();
    ms.set_id(id);
}

/// Relies on `Id::from_hashed_u64`: the identifier is the SHA-256 digest of
/// the value's little-endian bytes as a 64-character hex string, a function
/// of the value alone.
#[verifier::external_body]
pub(crate) fn id_text_from_hashed_u64(val: u64) -> (r: String)
    ensures
        r@ == sha256_hex_u64(val),
        r@.len() == 64,
{
    egml_core::model::base::Id::from_hashed_u64(val).into()
}

/// Relies on `String::from_utf8`: it succeeds exactly on valid UTF-8 and
/// yields its decoding; an empty string comes from empty bytes alone.
#[verifier::external_body]
pub(crate) fn string_from_utf8(v: Vec<u8>) -> (r: Option<String>)
    ensures
        r is Some <==> vstd::utf8::valid_utf8(v@),
        r matches Some(s) ==> s@ == vstd::utf8::decode_utf8(v@),
        r matches Some(s) ==> (s@.len() == 0 <==> v@.len() == 0),
{
    String::from_utf8(v).ok()
}

/// Relies on `String::push`: it appends the character.
#[verifier::external_body]
pub(crate) fn push_char(s: &mut String, c: char)
    ensures
        final(s)@ == old(s)@.push(c),
{
    s.push(c);
}

} // verus!
