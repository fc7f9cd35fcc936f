//! Trusted declarations for the freetype crate.
//!
//! The rasterizer itself is outside the scope of verification: these items
//! declare the freetype types the library carries around and wrap the calls
//! the glyph builder makes, stating of each only what the crate's source
//! shows.

use vstd::prelude::*;

verus! {

/// Relies on the freetype crate's `Error` enum: carried only as an opaque
/// value inside the library's own error type.
#[verifier::external_type_specification]
#[verifier::external_body]
pub struct ExFtError(freetype::Error);

/// Relies on the freetype crate's `Face`: an opaque handle to an open font
/// face, used only as the receiver of the wrapped calls below.
#[verifier::external_type_specification]
#[verifier::external_body]
#[verifier::reject_recursive_types(BYTES)]
pub struct ExFace<BYTES>(freetype::Face<BYTES>);

/// What the freetype glyph slot holds after a character was loaded and
/// rendered: the glyph's bitmap and metrics, copied out as plain values.
pub struct RawGlyph {
    /// Bitmap width in pixels.
    pub width: i32,
    /// Bitmap height in rows.
    pub rows: i32,
    /// Bytes per bitmap row; positive for downward flow.
    pub pitch: i32,
    /// The bitmap bytes, row-major.
    pub buffer: Vec<u8>,
    /// Horizontal bearing in pixels.
    pub left: i32,
    /// Vertical bearing (top) in pixels.
    pub top: i32,
    /// Advance width in 1/64 pixel units.
    pub advance: i64,
}

/// Relies on freetype's `Face::set_char_size` (`FT_Set_Char_Size`): sets
/// the active size of the face from character dimensions in 1/64 point
/// units and a resolution in dots per inch.
#[verifier::external_body]
pub(crate) fn ft_set_char_size(
    face: &freetype::Face,
    char_width: isize,
    char_height: isize,
    horz_resolution: u32,
    vert_resolution: u32,
) -> (r: Result<(), freetype::Error>) {
    face.set_char_size(char_width, char_height, horz_resolution, vert_resolution)
}

/// Relies on freetype's `Face::load_char` (`FT_Load_Char`) with the
/// `RENDER | TARGET_MONO` load flags: loads the glyph of one character and
/// renders it into the face's glyph slot as a 1-bit-per-pixel bitmap.
#[verifier::external_body]
pub(crate) fn ft_load_char_mono(face: &freetype::Face, char_code: usize) -> (r: Result<
    (),
    freetype::Error,
>) {
    face.load_char(
        char_code,
        freetype::face::LoadFlag::RENDER | freetype::face::LoadFlag::TARGET_MONO,
    )
}

/// Relies on freetype's glyph slot and bitmap accessors (`Face::glyph`,
/// `GlyphSlot::bitmap`, `bitmap_left`, `bitmap_top`, `advance`, and
/// `Bitmap::width`, `rows`, `pitch`, `buffer`): they describe the bitmap
/// rendered by the last `load_char`. The crate's `Bitmap::buffer` returns a
/// slice of exactly `|pitch| * rows` bytes when that product is positive
/// and an empty slice when it is zero.
#[verifier::external_body]
pub(crate) fn ft_read_glyph(face: &freetype::Face) -> (r: RawGlyph)
    ensures
        (0 <= r.pitch && 0 <= r.rows && r.pitch * r.rows <= i32::MAX) ==> r.buffer@.len()
            == r.pitch * r.rows,
{
    let slot = face.glyph();
    let bitmap = slot.bitmap();
    RawGlyph {
        width: bitmap.width(),
        rows: bitmap.rows(),
        pitch: bitmap.pitch(),
        buffer: bitmap.buffer().to_vec(),
        left: slot.bitmap_left(),
        top: slot.bitmap_top(),
        advance: slot.advance().x as i64,
    }
}

/// Relies on freetype's `Face::size_metrics`: the ascender and descender of
/// the face's active size, in 1/64 pixel units, available once a size was
/// set on the face.
#[verifier::external_body]
pub(crate) fn ft_size_metrics(face: &freetype::Face) -> (r: Option<(i64, i64)>) {
    match face.size_metrics() {
        Some(m) => Some((m.ascender as i64, m.descender as i64)),
        None => None,
    }
}

} // verus!
