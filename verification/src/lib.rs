//! Directional UI-element navigation.
//!
//! Given a current cursor position, a requested target position (which
//! implies a direction of travel), a collection of rectangular UI element
//! bounds, and an angular window centred on that direction, the library
//! picks the element whose centre lies inside the window and closest to
//! the requested position.
//!
//! All geometry is exact integer arithmetic. Positions are measured in
//! half-units of the bounding-box grid, so that the centre of any box with
//! integer corner and extent is itself representable as a position. The
//! angular window is described by the cosine of its half-angle as an exact
//! rational, and membership in the window is decided with sign, cross- and
//! dot-product comparisons, never with rounded trigonometry.

pub mod angle;
pub mod navigation;
pub mod state;
pub mod ui_bounding_box;
