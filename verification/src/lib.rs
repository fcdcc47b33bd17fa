//! Verified integer core of the Tri-Space ambient engine: engine constants,
//! mode selectors, the grain slot allocator, ring-buffer index arithmetic,
//! block partitioning and the dither noise generator.

pub mod config;
pub mod bits;
pub mod slots;
pub mod ring;
pub mod blocks;
pub mod dither;
pub mod grain;
pub mod taps;
