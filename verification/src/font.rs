//! Glyph table building.
//!
//! For each requested character the rasterizer renders a 1-bit bitmap; the
//! builder checks it, run-length encodes it row by row, and assembles the
//! glyph records in ascending code point order, together with font-wide
//! metrics and the compiled character-to-index table.

use crate::error::BuildError;
use crate::ft::{ft_load_char_mono, ft_read_glyph, ft_set_char_size, ft_size_metrics, RawGlyph};
use crate::image::{encode_image, image_words, Bitmap, EncodedImage};
use crate::index::{
    compile, lemma_lookup_inverts, lookup_spec, sort_dedup, strictly_increasing, table_chars,
    table_wf, CharRange,
};
use vstd::prelude::*;

verus! {

/// Resolution configured on the rasterizer: at 72 dots per inch one
/// typographic point equals one pixel.
pub const DOTS_PER_INCH: u32 = 72;

/// One glyph ready for emission.
pub struct Glyph {
    /// The glyph bitmap, run-length encoded.
    pub image: EncodedImage,
    /// Horizontal bearing in pixels.
    pub left: i32,
    /// Vertical bearing in pixels; never negative.
    pub top: i32,
    /// Advance width in pixels, rounded up from 1/64 pixel units.
    pub advance: i64,
}

impl Glyph {
    /// A well-formed glyph: consistent encoded image, non-negative
    /// vertical bearing and advance.
    pub open spec fn wf(&self) -> bool {
        &&& self.image.wf()
        &&& self.top >= 0
        &&& self.advance >= 0
    }
}

/// Everything emitted for one font: font-wide metrics, the glyphs in
/// ascending code point order, and the compiled lookup table.
pub struct FontBundle {
    /// Ascender in pixels, rounded up.
    pub ascender: i64,
    /// Descender magnitude in pixels, rounded up, reported positive.
    pub descender: i64,
    /// One glyph per covered code point, in ascending code point order.
    pub glyphs: Vec<Glyph>,
    /// Range table mapping code points to glyph-array indices.
    pub index: Vec<CharRange>,
}

impl FontBundle {
    /// The code points whose glyphs the bundle holds, in glyph order.
    pub open spec fn covered(&self) -> Seq<u32> {
        table_chars(self.index@)
    }

    /// A well-formed bundle: the lookup table is well-formed and covers an
    /// ascending code point sequence with exactly one glyph per code
    /// point, every glyph is well-formed, and the metrics are
    /// non-negative.
    pub open spec fn wf(&self) -> bool {
        &&& table_wf(self.index@)
        &&& strictly_increasing(self.covered())
        &&& self.glyphs@.len() == self.covered().len()
        &&& forall|k: int| 0 <= k < self.glyphs@.len() ==> (#[trigger] self.glyphs@[k]).wf()
        &&& self.ascender >= 0
        &&& self.descender >= 0
    }
}

/// THE BUNDLE LOOKUP LAW: in a well-formed bundle the compiled table is a
/// correct index into the glyph array. Looking up the `i`-th covered code
/// point yields exactly glyph-array position `i`, and looking up a code
/// point without a glyph yields nothing.
pub proof fn lemma_bundle_lookup(b: FontBundle)
    requires
        b.wf(),
    ensures
        forall|i: int|
            0 <= i < b.covered().len() ==> #[trigger] lookup_spec(b.index@, b.covered()[i])
                == Some(i),
        forall|c: u32| !b.covered().contains(c) ==> lookup_spec(b.index@, c) is None,
{
    lemma_lookup_inverts(b.index@, b.covered());
}

/// Rounds a non-negative quantity in 1/64 pixel units up to whole pixels.
pub fn units_to_px_ceil(units: i64) -> (px: i64)
    requires
        0 <= units,
        units <= i64::MAX - 63,
    ensures
        px == (units + 63) / 64,
        0 <= px,
        64 * px >= units,
        64 * (px - 1) < units,
{
    (units + 63) / 64
}

/// Rounds the magnitude of a non-positive descender up to whole pixels;
/// the result is reported positive.
pub fn descender_px(units: i64) -> (px: i64)
    requires
        units <= 0,
        -(i64::MAX - 63) <= units,
    ensures
        px == ((-units) + 63) / 64,
        0 <= px,
        64 * px >= -units,
        64 * (px - 1) < -units,
{
    units_to_px_ceil(-units)
}

/// Turns the font-wide size metrics into pixel values.
///
/// Metrics that are present and in range yield the ascender and the
/// descender magnitude rounded up to whole pixels, exactly; absent or
/// out-of-range metrics are malformed data. The range limits only keep
/// the rounding free of overflow.
pub fn metrics_to_px(m: Option<(i64, i64)>) -> (r: Result<(i64, i64), BuildError>)
    ensures
        match r {
            Ok(p) => {
                &&& m matches Some(u) && 0 <= u.0 <= i64::MAX - 63 && -(i64::MAX - 63) <= u.1
                    <= 0
                &&& p.0 == (m->Some_0.0 + 63) / 64
                &&& p.1 == ((-m->Some_0.1) + 63) / 64
                &&& p.0 >= 0 && p.1 >= 0
            },
            Err(e) => {
                &&& e is Decode
                &&& !(m matches Some(u) && 0 <= u.0 <= i64::MAX - 63 && -(i64::MAX - 63) <= u.1
                    <= 0)
            },
        },
{
    match m {
        None => Err(BuildError::Decode),
        Some((asc, desc)) => {
            if !(0 <= asc && asc <= i64::MAX - 63) {
                return Err(BuildError::Decode);
            }
            if !(-(i64::MAX - 63) <= desc && desc <= 0) {
                return Err(BuildError::Decode);
            }
            Ok((units_to_px_ceil(asc), descender_px(desc)))
        },
    }
}

/// A rendered glyph slot is usable when its dimensions are consistent:
/// non-negative sizes, a buffer of exactly `pitch * rows` bytes, rows wide
/// enough for the pixels, a width within the 15-bit run-length limit, and
/// an advance that is non-negative and can be rounded.
pub open spec fn raster_ok(raw: RawGlyph) -> bool {
    &&& 0 <= raw.width <= 0x7FFF
    &&& 0 <= raw.rows
    &&& 0 <= raw.pitch
    &&& raw.buffer@.len() == raw.pitch * raw.rows
    &&& (raw.rows > 0 ==> 1 <= raw.width && (raw.width + 7) / 8 <= raw.pitch)
    &&& 0 <= raw.advance <= i64::MAX - 63
}

/// The glyph's encoded form stays within the 16-bit word budget: the
/// header block plus every row's run words take at most `0xFFFF` words.
pub open spec fn glyph_fits(raw: RawGlyph) -> bool {
    image_words(glyph_bitmap(raw)) <= 0xFFFF
}

/// The rendered bitmap a consistent glyph slot holds.
pub open spec fn glyph_bitmap(raw: RawGlyph) -> Bitmap {
    Bitmap {
        width: raw.width as usize,
        height: raw.rows as usize,
        stride: raw.pitch as usize,
        buffer: raw.buffer,
    }
}

/// Checks a rendered glyph slot for consistency.
fn check_raster(raw: &RawGlyph) -> (ok: bool)
    ensures
        ok == raster_ok(*raw),
{
    if raw.width < 0 || raw.width > 0x7FFF {
        return false;
    }
    if raw.rows < 0 || raw.pitch < 0 {
        return false;
    }
    proof {
        assert((raw.pitch as u64) * (raw.rows as u64) <= 0x7FFFFFFFu64 * 0x7FFFFFFFu64)
            by (nonlinear_arith)
            requires
                0 <= raw.pitch as u64 <= 0x7FFFFFFFu64,
                0 <= raw.rows as u64 <= 0x7FFFFFFFu64,
        ;
    }
    let pr: u64 = (raw.pitch as u64) * (raw.rows as u64);
    if (raw.buffer.len() as u64) != pr {
        return false;
    }
    if raw.rows > 0 && (raw.width == 0 || (raw.width + 7) / 8 > raw.pitch) {
        return false;
    }
    if raw.advance < 0 || raw.advance > i64::MAX - 63 {
        return false;
    }
    true
}

/// Builds one glyph from a rendered glyph slot.
///
/// A negative vertical bearing is fatal: the font is unsupported and no
/// glyph is produced. An inconsistent slot is malformed data. Otherwise
/// the slot's bitmap is run-length encoded and the advance rounded up.
pub fn build_glyph(raw: RawGlyph) -> (r: Result<Glyph, BuildError>)
    ensures
        match r {
            Ok(g) => {
                &&& raw.top >= 0
                &&& raster_ok(raw)
                &&& glyph_fits(raw)
                &&& g.wf()
                &&& g.left == raw.left
                &&& g.top == raw.top
                &&& g.advance == (raw.advance + 63) / 64
                &&& g.image.wf()
                &&& g.image.encodes(glyph_bitmap(raw))
            },
            Err(e) => {
                &&& (e is NegativeBearing <==> raw.top < 0)
                &&& (e is Decode <==> (raw.top >= 0 && !(raster_ok(raw) && glyph_fits(raw))))
                &&& (e is NegativeBearing || e is Decode)
            },
        },
{
    if raw.top < 0 {
        return Err(BuildError::NegativeBearing);
    }
    if !check_raster(&raw) {
        return Err(BuildError::Decode);
    }
    let left = raw.left;
    let top = raw.top;
    let advance_units = raw.advance;
    let bm = Bitmap {
        width: raw.width as usize,
        height: raw.rows as usize,
        stride: raw.pitch as usize,
        buffer: raw.buffer,
    };
    assert(bm == glyph_bitmap(raw));
    let image = match encode_image(&bm) {
        Some(img) => img,
        None => {
            return Err(BuildError::Decode);
        },
    };
    let advance = units_to_px_ceil(advance_units);
    Ok(Glyph { image, left, top, advance })
}

/// The code points of a character sequence.
pub open spec fn subset_codes(s: Seq<char>) -> Seq<u32> {
    s.map_values(|c: char| c as u32)
}

/// A font face, open for rasterization.
pub struct Font {
    /// Relied-on rasterizer handle; the face keeps its own glyph slot.
    pub face: freetype::Face,
}

impl Font {
    /// Wraps an already opened face.
    pub fn new(face: freetype::Face) -> (f: Font)
        ensures
            f.face == face,
    {
        Font { face }
    }

    /// Builds the bundle for a character subset at a point size.
    ///
    /// The subset may come in any order and with duplicates: glyphs are
    /// emitted once per distinct character, in ascending code point order,
    /// and the compiled table maps each covered code point to its
    /// glyph-array position. An empty subset fails with the empty-alphabet
    /// error, and only then; rasterizer failures, malformed slots and
    /// negative bearings abort with their own errors, whatever the
    /// rasterizer returned.
    pub fn generate(&self, size: isize, subset: &str) -> (r: Result<FontBundle, BuildError>)
        requires
            1 <= size,
            size * 64 <= isize::MAX,
        ensures
            match r {
                Ok(b) => {
                    &&& subset@.len() > 0
                    &&& b.wf()
                    &&& forall|c: u32|
                        b.covered().contains(c) <==> subset_codes(subset@).contains(c)
                },
                Err(e) => {
                    &&& (e is EmptyAlphabet <==> subset@.len() == 0)
                    &&& (e is EmptyAlphabet || e is Rasterization || e is Decode
                        || e is NegativeBearing)
                },
            },
    {
        let n = subset.unicode_len();
        let mut codes: Vec<u32> = Vec::new();
        let mut i: usize = 0;
        assert(subset_codes(subset@).take(0) =~= Seq::<u32>::empty());
        while i < n
            invariant
                0 <= i <= n == subset@.len(),
                codes@ == subset_codes(subset@).take(i as int),
            decreases n - i,
        {
            let c = subset.get_char(i);
            codes.push(c as u32);
            assert(codes@ =~= subset_codes(subset@).take(i as int + 1));
            i = i + 1;
        }
        assert(subset_codes(subset@).take(n as int) =~= subset_codes(subset@));
        let sorted = sort_dedup(&codes);
        if sorted.len() == 0 {
            assert(subset@.len() == 0) by {
                if subset@.len() > 0 {
                    assert(codes@[0] == subset_codes(subset@)[0]);
                    assert(codes@.contains(codes@[0]));
                    assert(sorted@.contains(codes@[0]));
                }
            }
            return Err(BuildError::EmptyAlphabet);
        }
        assert(subset@.len() > 0) by {
            assert(sorted@.contains(sorted@[0]));
            assert(codes@.contains(sorted@[0]));
        }
        match ft_set_char_size(&self.face, 0, size * 64, DOTS_PER_INCH, DOTS_PER_INCH) {
            Ok(_) => (),
            Err(e) => {
                return Err(BuildError::Rasterization(e));
            },
        }
        let mut glyphs: Vec<Glyph> = Vec::new();
        let mut k: usize = 0;
        while k < sorted.len()
            invariant
                0 <= k <= sorted@.len(),
                glyphs@.len() == k,
                forall|t: int| 0 <= t < k ==> (#[trigger] glyphs@[t]).wf(),
                subset@.len() > 0,
            decreases sorted@.len() - k,
        {
            let code = sorted[k];
            match ft_load_char_mono(&self.face, code as usize) {
                Ok(_) => (),
                Err(e) => {
                    return Err(BuildError::Rasterization(e));
                },
            }
            let raw = ft_read_glyph(&self.face);
            match build_glyph(raw) {
                Ok(g) => {
                    glyphs.push(g);
                },
                Err(e) => {
                    return Err(e);
                },
            }
            k = k + 1;
        }
        let (ascender, descender) = match metrics_to_px(ft_size_metrics(&self.face)) {
            Ok(p) => p,
            Err(e) => {
                return Err(e);
            },
        };
        let table = match compile(&sorted) {
            Ok(t) => t,
            Err(e) => {
                return Err(e);
            },
        };
        Ok(FontBundle { ascender, descender, glyphs, index: table })
    }
}

} // verus!
