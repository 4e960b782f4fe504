//! A trail-diffusion engine: wandering particles leave ink on a pixel canvas,
//! and every tick the ink bleeds into darker neighbouring cells and fades.
//!
//! All quantities are integers. Colour vectors count thousandths of a pixel
//! level, world coordinates count millionths of a world unit, and time counts
//! milliseconds.

pub mod fixed;
pub mod pixel;
pub mod point;
pub mod raster;
pub mod canvas;
pub mod chance;
pub mod color;
pub mod mask;
pub mod settings;
pub mod diffusion;
pub mod trace;
pub mod particle;
pub mod simulation;
