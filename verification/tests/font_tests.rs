use epd_fontgen::error::BuildError;
use epd_fontgen::font::{build_glyph, descender_px, metrics_to_px, units_to_px_ceil, Font};
use epd_fontgen::ft::RawGlyph;
use epd_fontgen::index::lookup;

const FONT_PATH: &str = "/usr/share/fonts/truetype/dejavu/DejaVuSans.ttf";

#[test]
fn metric_rounding_rounds_up() {
    // one 1/64 pixel unit of ascender becomes one whole pixel
    assert_eq!(units_to_px_ceil(1), 1);
    assert_eq!(units_to_px_ceil(0), 0);
    assert_eq!(units_to_px_ceil(64), 1);
    assert_eq!(units_to_px_ceil(65), 2);
    // one unit of descender rounds up in magnitude, reported positive
    assert_eq!(descender_px(-1), 1);
    assert_eq!(descender_px(0), 0);
    assert_eq!(descender_px(-64), 1);
    assert_eq!(descender_px(-640), 10);
}

#[test]
fn metrics_become_pixels_or_fail() {
    // one unit each way rounds to one whole pixel
    assert_eq!(metrics_to_px(Some((1, -1))).unwrap(), (1, 1));
    assert_eq!(metrics_to_px(Some((1216, -256))).unwrap(), (19, 4));
    assert!(matches!(metrics_to_px(None), Err(BuildError::Decode)));
    // a negative ascender or positive descender is malformed
    assert!(matches!(metrics_to_px(Some((-1, -1))), Err(BuildError::Decode)));
    assert!(matches!(metrics_to_px(Some((1, 1))), Err(BuildError::Decode)));
}

#[test]
fn negative_bearing_is_fatal() {
    let raw = RawGlyph {
        width: 1,
        rows: 1,
        pitch: 1,
        buffer: vec![0x80],
        left: 0,
        top: -1,
        advance: 64,
    };
    assert!(matches!(build_glyph(raw), Err(BuildError::NegativeBearing)));
}

#[test]
fn inconsistent_slot_is_malformed() {
    // buffer shorter than pitch * rows
    let raw = RawGlyph {
        width: 8,
        rows: 2,
        pitch: 1,
        buffer: vec![0xFF],
        left: 0,
        top: 0,
        advance: 64,
    };
    assert!(matches!(build_glyph(raw), Err(BuildError::Decode)));
}

#[test]
fn oversized_glyph_is_malformed() {
    // consistent slot, but the encoded image cannot fit 16-bit offsets
    let raw = RawGlyph {
        width: 1,
        rows: 65535,
        pitch: 1,
        buffer: vec![0u8; 65535],
        left: 0,
        top: 0,
        advance: 64,
    };
    assert!(matches!(build_glyph(raw), Err(BuildError::Decode)));
}

#[test]
fn glyph_from_consistent_slot() {
    let raw = RawGlyph {
        width: 1,
        rows: 1,
        pitch: 1,
        buffer: vec![0x80],
        left: 2,
        top: 3,
        advance: 65,
    };
    let g = build_glyph(raw).unwrap();
    assert_eq!(g.left, 2);
    assert_eq!(g.top, 3);
    assert_eq!(g.advance, 2);
    assert_eq!(g.image.width, 1);
    assert_eq!(g.image.height, 1);
    assert_eq!(g.image.data, vec![2, 3, 0x8001]);
}

#[test]
fn generate_orders_glyphs_by_code_point() {
    let library = freetype::Library::init().unwrap();
    let face = library.new_face(FONT_PATH, 0).unwrap();
    let font = Font::new(face);
    let bundle = font.generate(16, "bda").unwrap();
    // three distinct characters: a, b, d in ascending order
    assert_eq!(bundle.glyphs.len(), 3);
    assert_eq!(bundle.index.len(), 2);
    assert_eq!(bundle.index[0].start, 'a' as u32);
    assert_eq!(bundle.index[0].length, 2);
    assert_eq!(bundle.index[0].base, 0);
    assert_eq!(bundle.index[1].start, 'd' as u32);
    assert_eq!(bundle.index[1].length, 1);
    assert_eq!(bundle.index[1].base, 2);
    assert_eq!(lookup(&bundle.index, 'a' as u32), Some(0));
    assert_eq!(lookup(&bundle.index, 'b' as u32), Some(1));
    assert_eq!(lookup(&bundle.index, 'd' as u32), Some(2));
    assert_eq!(lookup(&bundle.index, 'c' as u32), None);
    // the same subset in another order gives the same table
    let bundle2 = font.generate(16, "adb").unwrap();
    assert_eq!(bundle2.glyphs.len(), 3);
    assert_eq!(bundle2.index, bundle.index);
}

#[test]
fn generate_produces_consistent_images_and_metrics() {
    let library = freetype::Library::init().unwrap();
    let face = library.new_face(FONT_PATH, 0).unwrap();
    let font = Font::new(face);
    let bundle = font.generate(16, "Ag").unwrap();
    assert!(bundle.ascender >= 1);
    assert!(bundle.descender >= 1);
    for g in bundle.glyphs.iter() {
        assert!(g.top >= 0);
        assert!(g.advance >= 1);
        let h = g.image.height;
        assert_eq!(g.image.data[0] as usize, h + 1);
        for y in 0..h {
            assert!(g.image.data[y] <= g.image.data[y + 1]);
        }
        assert_eq!(g.image.data[h] as usize, g.image.data.len());
        // a 16 px letter has visible pixels
        assert!(g.image.width >= 1);
        assert!(g.image.height >= 1);
    }
}

#[test]
fn generate_refuses_empty_subset() {
    let library = freetype::Library::init().unwrap();
    let face = library.new_face(FONT_PATH, 0).unwrap();
    let font = Font::new(face);
    assert!(matches!(font.generate(16, ""), Err(BuildError::EmptyAlphabet)));
}
