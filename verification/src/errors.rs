//! The error taxonomy: a parse either fails while deserializing the markup
//! into the mapped structure, or while converting that structure into the
//! domain geometry.  The first failure aborts the whole parse; no partial
//! result is ever returned.

use vstd::prelude::*;

verus! {

/// A failure of the markup reader: the input is not well-formed markup or
/// does not match the expected structural shape.
#[derive(Clone, Copy, Debug, PartialEq, Eq, Structural)]
pub enum DeserializeError {
    /// The input ended inside an unfinished construct.
    UnexpectedEnd,
    /// A tag or attribute is syntactically malformed.
    MalformedTag,
    /// An element's name is not the one the shape requires here; this covers
    /// a wrong root element.
    UnexpectedElement,
    /// An element that must carry content is self-closing: a polygon without
    /// an exterior, or a ring without a coordinate list.
    MissingContent,
    /// Bytes other than whitespace follow the root element.
    TrailingContent,
}

/// A failure while converting a member's inline polygon, or the assembled
/// multi-surface, into the domain geometry.
#[derive(Debug)]
pub enum ConversionError {
    /// A ring's coordinate list does not split into groups of three
    /// ordinates per point.
    CoordinateCountNotTriple,
    /// An ordinate token is not the text of a finite number.
    InvalidCoordinate,
    /// The domain model rejected a ring, a polygon, or the assembled
    /// multi-surface; carries the domain layer's reason.
    Domain(egml_core::Error),
}

/// What a parse reports when it does not return a multi-surface.
#[derive(Debug)]
pub enum ParseError {
    /// The markup could not be deserialized into the mapped structure.
    Deserialization(DeserializeError),
    /// A polygon, or the assembled multi-surface, violates a domain-level
    /// invariant.
    PolygonConversion(ConversionError),
}

} // verus!
