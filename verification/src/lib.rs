//! Offline asset compiler for memory-constrained monochrome displays.
//!
//! The crate turns rasterized font glyphs and RGBA images into compact
//! tables: 1-bit bitmap rows are run-length encoded into 16-bit words,
//! a sorted character subset is compiled into a sparse range table that
//! maps code points to dense glyph-array indices, and RGBA pixel grids
//! are thresholded into 1-bit-per-pixel bitmaps.

pub mod error;
pub mod font;
pub mod ft;
pub mod image;
pub mod index;
pub mod pixel;
pub mod rle;
