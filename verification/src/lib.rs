//! A 16×16 matrix of addressable LEDs, wired as one serpentine strand,
//! presented as a raster surface with its origin in the top-left corner.
//!
//! [`mapping`] relates logical coordinates to positions on the strand and
//! proves that relation a bijection. [`frame`] states what drawing does to a
//! frame, and [`display`] owns the frame buffer and offers the drawing
//! operations. [`geometry`] and [`color`] hold the plain values they work
//! on. [`animation`] steers the demonstration that travels across the panel.

pub mod animation;
pub mod color;
pub mod display;
pub mod frame;
pub mod geometry;
pub mod mapping;

pub use animation::Bounce;
pub use color::Color;
pub use display::LedDisplay;
pub use frame::{Pixel, PIXELS, SIDE};
pub use geometry::{Point, Size};
pub use mapping::{strand_index_of, DrawError};
