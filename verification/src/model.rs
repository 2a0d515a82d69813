//! The mapped structure: the shape of a `gml:MultiSurface` element as the
//! deserializer populates it from markup, before any geometric validation.
//!
//! The structure is purely structural.  Coordinate lists are kept as the raw
//! bytes of the `gml:posList` text; turning them into numbers is the
//! resolver's business.  Each exec type has a ghost view over sequences, and
//! contracts throughout the crate speak of those views.

use vstd::prelude::*;

verus! {

/// View of a linear ring: the raw coordinate text of its `gml:posList`.
pub ghost struct RingShape {
    pub pos_list: Seq<u8>,
}

/// View of a polygon: one exterior ring and its interior (hole) rings, in
/// source order.
pub ghost struct PolygonShape {
    pub exterior: RingShape,
    pub interiors: Seq<RingShape>,
}

/// View of a surface member: a by-reference pointer (empty when absent) and
/// an optional inline polygon.
pub ghost struct MemberShape {
    pub href: Seq<u8>,
    pub polygon: Option<PolygonShape>,
}

/// View of a whole multi-surface element: the identifier attribute (empty
/// when absent) and the surface members in source order.
pub ghost struct MultiSurfaceShape {
    pub id: Seq<u8>,
    pub members: Seq<MemberShape>,
}

/// A mapped `gml:LinearRing`: the raw text of its `gml:posList` child.
pub struct GmlLinearRing {
    pub pos_list: Vec<u8>,
}

impl View for GmlLinearRing {
    type V = RingShape;

    open spec fn view(&self) -> RingShape {
        RingShape { pos_list: self.pos_list@ }
    }
}

/// A mapped `gml:Polygon`: the required exterior ring and any interior
/// rings, in source order.
pub struct GmlPolygon {
    pub exterior: GmlLinearRing,
    pub interiors: Vec<GmlLinearRing>,
}

impl View for GmlPolygon {
    type V = PolygonShape;

    open spec fn view(&self) -> PolygonShape {
        PolygonShape {
            exterior: self.exterior@,
            interiors: self.interiors@.map_values(|r: GmlLinearRing| r@),
        }
    }
}

/// A mapped `gml:surfaceMember`: either an inline polygon or a by-reference
/// pointer.  Both fields are structurally always present: the reference
/// defaults to empty and the polygon to absent.
pub struct GmlSurfaceMember {
    pub href: Vec<u8>,
    pub polygon: Option<GmlPolygon>,
}

impl View for GmlSurfaceMember {
    type V = MemberShape;

    open spec fn view(&self) -> MemberShape {
        MemberShape {
            href: self.href@,
            polygon: match self.polygon {
                Some(ref p) => Some(p@),
                None => None,
            },
        }
    }
}

/// A mapped `gml:MultiSurface`: the `gml:id` attribute (empty when absent)
/// and the surface members in source order, duplicates allowed.
pub struct GmlMultiSurface {
    pub id: Vec<u8>,
    pub members: Vec<GmlSurfaceMember>,
}

impl View for GmlMultiSurface {
    type V = MultiSurfaceShape;

    open spec fn view(&self) -> MultiSurfaceShape {
        MultiSurfaceShape {
            id: self.id@,
            members: self.members@.map_values(|m: GmlSurfaceMember| m@),
        }
    }
}

} // verus!
