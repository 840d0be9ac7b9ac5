//! The bounding box of a single UI element.

use vstd::prelude::*;

verus! {

/// Largest magnitude allowed for a box corner coordinate or extent.
///
/// The bound is generous for screen layouts and keeps every product that
/// the selection geometry forms inside `i128`.
pub const BOX_COORD_MAX: i64 = 1_000_000;

/// An axis-aligned rectangle: `(x, y)` is the top-left corner, `w` and `h`
/// the extents. Zero-area boxes are legal. Coordinates are whole grid
/// units; positions (see [`crate::navigation::Position`]) are half-units,
/// so the centre `(x + w/2, y + h/2)` of any box is exactly representable.
#[derive(Clone, Copy, Debug, PartialEq, Eq, Structural)]
pub struct UiBoundingBox {
    pub x: i64,
    pub y: i64,
    pub w: i64,
    pub h: i64,
}

impl UiBoundingBox {
    /// A box is well formed when its extents are non-negative and all of
    /// its fields stay within [`BOX_COORD_MAX`].
    pub open spec fn wf(self) -> bool {
        &&& -BOX_COORD_MAX <= self.x <= BOX_COORD_MAX
        &&& -BOX_COORD_MAX <= self.y <= BOX_COORD_MAX
        &&& 0 <= self.w <= BOX_COORD_MAX
        &&& 0 <= self.h <= BOX_COORD_MAX
    }
}

} // verus!
