use epd_fontgen::image::{encode_image, Bitmap};
use epd_fontgen::pixel::{build_bitmap, is_foreground, level_of};

#[test]
fn threshold_boundary_is_exact() {
    // avg_rgb 127 with full alpha gives level 128: background
    assert_eq!(level_of(127, 127, 127, 255), 128);
    assert!(!is_foreground(127, 127, 127, 255));
    // avg_rgb 128 with full alpha gives level 127: foreground
    assert_eq!(level_of(128, 128, 128, 255), 127);
    assert!(is_foreground(128, 128, 128, 255));
}

#[test]
fn transparent_pixels_are_foreground() {
    // zero alpha scales any darkness down to level 0
    assert_eq!(level_of(0, 0, 0, 0), 0);
    assert!(is_foreground(0, 0, 0, 0));
}

#[test]
fn black_is_background_white_is_foreground() {
    assert_eq!(level_of(0, 0, 0, 255), 255);
    assert!(!is_foreground(0, 0, 0, 255));
    assert_eq!(level_of(255, 255, 255, 255), 0);
    assert!(is_foreground(255, 255, 255, 255));
}

#[test]
fn build_bitmap_packs_bits_msb_first() {
    // one row, two pixels: black (background), white (foreground)
    let pixels = vec![0u8, 0, 0, 255, 255, 255, 255, 255];
    let bm = build_bitmap(&pixels, 2, 1);
    assert_eq!(bm.width, 2);
    assert_eq!(bm.height, 1);
    assert_eq!(bm.stride, 1);
    assert_eq!(bm.buffer, vec![0b0100_0000u8]);
}

#[test]
fn build_bitmap_pads_rows_to_bytes() {
    // 9 pixels per row: stride is 2 bytes
    let mut pixels = Vec::new();
    for x in 0..9 {
        let v = if x % 2 == 0 { 255u8 } else { 0 };
        pixels.extend_from_slice(&[v, v, v, 255]);
    }
    let bm = build_bitmap(&pixels, 9, 1);
    assert_eq!(bm.stride, 2);
    assert_eq!(bm.buffer, vec![0b1010_1010u8, 0b1000_0000]);
}

#[test]
fn header_offsets_are_consistent() {
    // 2x2 bitmap: row 0 is "10", row 1 is "01"
    let bm = Bitmap {
        width: 2,
        height: 2,
        stride: 1,
        buffer: vec![0b1000_0000u8, 0b0100_0000],
    };
    let img = encode_image(&bm).unwrap();
    assert_eq!(img.width, 2);
    assert_eq!(img.height, 2);
    // header block of height + 1 words, then the rows' runs
    assert_eq!(img.data, vec![3, 5, 7, 0x8001, 0x0001, 0x0001, 0x8001]);
    // header consistency: first offset is the header size, offsets grow
    // strictly (every row holds at least one run), the last offset is the
    // total word count
    let h = img.height;
    assert_eq!(img.data[0] as usize, h + 1);
    for y in 0..h {
        assert!(img.data[y] < img.data[y + 1]);
    }
    assert_eq!(img.data[h] as usize, img.data.len());
}

#[test]
fn empty_image_is_header_only() {
    let bm = Bitmap { width: 0, height: 0, stride: 0, buffer: Vec::new() };
    let img = encode_image(&bm).unwrap();
    assert_eq!(img.data, vec![1]);
}

#[test]
fn wide_simple_image_fits_the_word_budget() {
    // worst case would need 4 * 20000 run words, but the blank rows
    // encode to one run each: 5 header words plus 4 runs
    let bm = Bitmap { width: 20000, height: 4, stride: 2500, buffer: vec![0u8; 10000] };
    let img = encode_image(&bm).unwrap();
    assert_eq!(img.data.len(), 9);
    assert_eq!(img.data[0], 5);
    assert_eq!(img.data[4] as usize, img.data.len());
}

#[test]
fn oversized_image_is_refused() {
    // the header block alone leaves no room in 16-bit offsets
    let bm = Bitmap { width: 1, height: 65535, stride: 1, buffer: vec![0u8; 65535] };
    assert!(encode_image(&bm).is_none());
}
