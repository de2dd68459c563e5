//! Mesh indexing: welds the corners of a polygon mesh that share an
//! attribute-index tuple into one deduplicated vertex buffer, and emits one
//! compact index buffer per named material group.

pub mod mesh;
pub mod welding;
pub mod indexer;

use vstd::prelude::*;

verus! {

/// The largest number of distinct vertices one build may produce: the vertex
/// count itself must fit the sixteen-bit output index width, so a mesh that
/// reaches 65536 distinct vertices fails fast rather than corrupt rendering
/// through silent truncation.
pub const MAX_VERTEX_COUNT: usize = 65535;

} // verus!
