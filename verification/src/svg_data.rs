//! The parsed SVG document model: tags with typed attribute values, the
//! document tree, its printer and its fingerprints.

pub mod attributes;
pub mod svg;
pub mod tag;
pub mod treehash;

pub use attributes::SVGAttValue;
pub use svg::SVG;
pub use tag::Tag;
pub use treehash::TreeHash;
