//! Error taxonomy of the asset compiler.
//!
//! Every failure aborts the build of the current asset; nothing is emitted
//! for an asset whose build failed, and no error is downgraded to a warning.

use vstd::prelude::*;

verus! {

/// One variant per failure category.
#[derive(Debug)]
pub enum BuildError {
    /// The source asset could not be read.
    Io,
    /// Malformed font or image data: a collaborator handed back a bitmap
    /// or a metric that breaks the data model's invariants.
    Decode,
    /// The rasterizer could not produce a glyph for a requested character.
    Rasterization(freetype::Error),
    /// A rasterized glyph has a negative vertical bearing: the font is
    /// unsupported, and the condition is deliberately not corrected.
    NegativeBearing,
    /// A font build was requested with zero characters.
    EmptyAlphabet,
}

} // verus!
