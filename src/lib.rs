//! Automatic sidebearings for font glyphs.
//!
//! The library decodes glyph outlines into explicit path segments, flattens
//! composite glyphs, and turns per-scanline outline intersections into spacing
//! polygons and sidebearing values.
//!
//! All coordinates are whole design units. Where a step of the computation
//! yields a fraction, it is rounded as its specification states: implied
//! on-curve points and transformed points round down, the italic shear rounds
//! to the nearest unit, and sidebearing values round up.
pub mod arith;
pub mod components;
pub mod outline;
pub mod sidebearing;
pub mod smoothing;
pub mod spacing;
