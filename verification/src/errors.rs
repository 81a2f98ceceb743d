use vstd::prelude::*;

verus! {

/// A configuration error: the scan cannot start at all.
///
/// Per-query failures are not errors of this kind; they are counted in
/// the scan's result and never abort the scan.
#[derive(Clone, Copy, PartialEq, Eq, Structural, Debug)]
pub enum ConfigError {
    /// The polygon has fewer than three vertices.
    InvalidPolygon,
    /// The polygon's bounding box is too flat: the grid step derived
    /// from its latitude extent would not be positive, so the grid walk
    /// could not terminate.
    DegeneratePolygon,
    /// Neither a place-type code nor a keyword was supplied.
    InvalidFilter,
}

} // verus!
