//! Exact rasterization of a single circle over a background.
//!
//! Pixel positions are mapped to a resolution-independent world frame
//! `[-aspect, +aspect] x [-1, +1]` (vertical axis pointing up), where the
//! circle lives. World coordinates are exact rationals, so the membership test
//! and the screen/world round trip carry no rounding error.
pub mod circle;
pub mod color;
pub mod geometry;
pub mod raster;
