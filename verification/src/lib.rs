//! Reading GML multi-surface geometry from markup text.
//!
//! The crate turns the textual representation of a `gml:MultiSurface`
//! element into the validated domain geometry of `egml_core`.  The markup
//! is deserialized by a verified byte-level reader into a mapped structure,
//! the feature's identity is resolved (an explicit `gml:id` attribute, or a
//! stable content hash when none is usable), surface members without an
//! inline polygon are skipped, and the remaining polygons are handed to the
//! domain constructors, whose rejections are reported as errors.

pub mod deser;
pub mod domain;
pub mod errors;
pub mod model;
pub mod resolve;
pub mod stable_hash;

pub use model::GmlLinearRing;
pub use model::GmlMultiSurface;
pub use model::GmlPolygon;
pub use model::GmlSurfaceMember;
pub use resolve::parse_multi_surface;
