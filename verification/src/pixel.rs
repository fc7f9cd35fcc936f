//! Binary thresholding of RGBA pixel grids.
//!
//! A decoded RGBA image is turned into a 1-bit-per-pixel row-major bitmap
//! for direct indexing by the renderer: no run-length structure, one bit
//! per pixel, MSB first, rows padded to whole bytes.

use crate::image::Bitmap;
use vstd::prelude::*;

verus! {

/// Darkness levels at or above this threshold become background; the value
/// biases anti-aliased edges toward foreground.
pub const LEVEL_THRESHOLD: u16 = 128;

/// Effective darkness of one RGBA pixel: the unweighted average of the
/// three color channels, inverted and scaled by alpha, with truncating
/// division at each step.
pub open spec fn pixel_level(r: u8, g: u8, b: u8, a: u8) -> int {
    (255 - (r + g + b) / 3) * a / 255
}

/// A pixel becomes a foreground bit when its darkness level is below the
/// threshold.
pub open spec fn pixel_set(r: u8, g: u8, b: u8, a: u8) -> bool {
    pixel_level(r, g, b, a) < LEVEL_THRESHOLD
}

/// Computes one pixel's darkness level.
pub fn level_of(r: u8, g: u8, b: u8, a: u8) -> (lv: u8)
    ensures
        lv as int == pixel_level(r, g, b, a),
{
    let avg: u16 = (r as u16 + g as u16 + b as u16) / 3;
    assert(avg <= 255);
    let dark: u16 = 255 - avg;
    proof {
        assert(dark * (a as u16) <= 255 * 255) by (nonlinear_arith)
            requires
                dark <= 255,
                a <= 255,
        ;
        assert(dark * (a as u16) / 255 <= 255) by (nonlinear_arith)
            requires
                dark * (a as u16) <= 255 * 255,
        ;
    }
    let lv: u16 = dark * (a as u16) / 255;
    lv as u8
}

/// Decides whether one pixel becomes a foreground bit.
pub fn is_foreground(r: u8, g: u8, b: u8, a: u8) -> (fg: bool)
    ensures
        fg == pixel_set(r, g, b, a),
{
    (level_of(r, g, b, a) as u16) < LEVEL_THRESHOLD
}

/// Channel `ch` of the pixel at `(x, y)` of an RGBA grid, four bytes per
/// pixel, row-major.
pub open spec fn grid_channel(pixels: Seq<u8>, width: int, x: int, y: int, ch: int) -> u8 {
    pixels[4 * (y * width + x) + ch]
}

/// Whether the grid pixel at `(x, y)` becomes a foreground bit.
pub open spec fn grid_set(pixels: Seq<u8>, width: int, x: int, y: int) -> bool {
    pixel_set(
        grid_channel(pixels, width, x, y, 0),
        grid_channel(pixels, width, x, y, 1),
        grid_channel(pixels, width, x, y, 2),
        grid_channel(pixels, width, x, y, 3),
    )
}

/// Bit `u` of a byte, MSB first: bit 0 is the most significant.
pub open spec fn nth_bit(b: u8, u: int) -> bool {
    (b >> ((7 - u) as u8)) & 1 == 1
}

proof fn lemma_zero_bit(t: u8)
    by (bit_vector)
    requires
        t < 8,
    ensures
        (0u8 >> t) & 1 == 0,
{
}

proof fn lemma_or_bit(b: u8, s: u8, t: u8)
    by (bit_vector)
    requires
        s < 8,
        t < 8,
    ensures
        ((b | (1u8 << s)) >> t) & 1 == (if s == t {
            1u8
        } else {
            (b >> t) & 1
        }),
{
}

/// Thresholds a decoded RGBA grid into a 1-bit-per-pixel bitmap.
///
/// The output bit at `(x, y)` is set exactly when the grid pixel there
/// clears the threshold; rows are padded to `ceil(width / 8)` bytes.
pub fn build_bitmap(pixels: &Vec<u8>, width: usize, height: usize) -> (r: Bitmap)
    requires
        pixels@.len() == 4 * width * height,
    ensures
        r.wf(),
        r.width == width,
        r.height == height,
        r.stride == (width + 7) / 8,
        forall|x: int, y: int|
            0 <= x < width && 0 <= y < height ==> (#[trigger] r.row_pixels(y)[x] == grid_set(
                pixels@,
                width as int,
                x,
                y,
            )),
{
    let stride: usize = width / 8 + (if width % 8 != 0 {
        1
    } else {
        0
    });
    assert(stride == (width + 7) / 8);
    let total: usize = pixels.len();
    let mut buffer: Vec<u8> = Vec::new();
    let mut y: usize = 0;
    while y < height
        invariant
            0 <= y <= height,
            stride == (width + 7) / 8,
            total == pixels@.len() == 4 * width * height,
            buffer@.len() == y * stride,
            forall|x: int, yy: int|
                0 <= x < width && 0 <= yy < y ==> #[trigger] nth_bit(
                    byte_of(buffer@, stride as int, x, yy),
                    x % 8,
                ) == grid_set(pixels@, width as int, x, yy),
        decreases height - y,
    {
        let mut bix: usize = 0;
        let ghost row0 = buffer@.len() as int;
        while bix < stride
            invariant
                0 <= bix <= stride,
                0 <= y < height,
                stride == (width + 7) / 8,
                total == pixels@.len() == 4 * width * height,
                buffer@.len() == y * stride + bix,
                row0 == y * stride,
                forall|x: int, yy: int|
                    0 <= x < width && 0 <= yy < y ==> #[trigger] nth_bit(
                        byte_of(buffer@, stride as int, x, yy),
                        x % 8,
                    ) == grid_set(pixels@, width as int, x, yy),
                forall|x: int|
                    0 <= x < width && x / 8 < bix ==> #[trigger] nth_bit(
                        byte_of(buffer@, stride as int, x, y as int),
                        x % 8,
                    ) == grid_set(pixels@, width as int, x, y as int),
            decreases stride - bix,
        {
            let mut acc: u8 = 0;
            let mut bt: usize = 0;
            proof {
                assert forall|u: int| 0 <= u < 8 implies !nth_bit(acc, u) by {
                    lemma_zero_bit((7 - u) as u8);
                }
            }
            while bt < 8
                invariant
                    0 <= bt <= 8,
                    0 <= y < height,
                    0 <= bix < stride,
                    stride == (width + 7) / 8,
                    total == pixels@.len() == 4 * width * height,
                    forall|u: int|
                        0 <= u < bt ==> #[trigger] nth_bit(acc, u) == (bix * 8 + u < width
                            && grid_set(pixels@, width as int, bix * 8 + u, y as int)),
                    forall|u: int| bt <= u < 8 ==> !#[trigger] nth_bit(acc, u),
                decreases 8 - bt,
            {
                let x: usize = bix * 8 + bt;
                if x < width {
                    proof {
                        assert(4 * (y * width + x) + 3 < 4 * width * height) by (nonlinear_arith)
                            requires
                                0 <= x < width,
                                0 <= y < height,
                        ;
                        assert(4 * (y * width + x) <= 4 * (y * width + x) + 3);
                        assert(y * width + x >= 0) by (nonlinear_arith)
                            requires
                                y >= 0,
                                width >= 0,
                                x >= 0,
                        ;
                    }
                    let idx: usize = 4 * (y * width + x);
                    let fg = is_foreground(
                        pixels[idx],
                        pixels[idx + 1],
                        pixels[idx + 2],
                        pixels[idx + 3],
                    );
                    if fg {
                        let ghost acc0 = acc;
                        acc = acc | (1u8 << ((7 - bt) as u8));
                        proof {
                            assert forall|u: int| 0 <= u < 8 implies nth_bit(acc, u) == (u
                                == bt as int || nth_bit(acc0, u)) by {
                                lemma_or_bit(acc0, (7 - bt) as u8, (7 - u) as u8);
                            }
                        }
                    }
                }
                bt = bt + 1;
            }
            let ghost bprev = buffer@;
            buffer.push(acc);
            proof {
                assert(buffer@ == bprev.push(acc));
                assert(buffer@.len() == y * stride + bix + 1);
                assert(forall|idx: int| 0 <= idx < bprev.len() ==> buffer@[idx] == #[trigger] bprev[idx]);
                assert(buffer@[bprev.len() as int] == acc);
                assert forall|x: int|
                    0 <= x < width && x / 8 < bix + 1 implies #[trigger] nth_bit(
                    byte_of(buffer@, stride as int, x, y as int),
                    x % 8,
                ) == grid_set(pixels@, width as int, x, y as int) by {
                    if x / 8 == bix {
                        assert(y * stride + x / 8 == bprev.len() as int);
                        assert(byte_of(buffer@, stride as int, x, y as int) == acc);
                        assert(x == bix * 8 + (x % 8));
                        assert(nth_bit(acc, x % 8) == (bix * 8 + (x % 8) < width && grid_set(
                            pixels@,
                            width as int,
                            bix * 8 + (x % 8),
                            y as int,
                        )));
                    } else {
                        assert(0 <= y * stride + x / 8 < bprev.len());
                        assert(byte_of(buffer@, stride as int, x, y as int) == byte_of(
                            bprev,
                            stride as int,
                            x,
                            y as int,
                        ));
                    }
                }
                assert forall|x: int, yy: int|
                    0 <= x < width && 0 <= yy < y implies #[trigger] nth_bit(
                    byte_of(buffer@, stride as int, x, yy),
                    x % 8,
                ) == grid_set(pixels@, width as int, x, yy) by {
                    assert(x / 8 < stride);
                    assert(yy * stride + x / 8 < y * stride) by (nonlinear_arith)
                        requires
                            0 <= yy < y,
                            0 <= x / 8 < stride,
                    ;
                    assert(yy * stride + x / 8 >= 0) by (nonlinear_arith)
                        requires
                            yy >= 0,
                            stride >= 0,
                            x / 8 >= 0,
                    ;
                    assert(byte_of(buffer@, stride as int, x, yy) == byte_of(
                        bprev,
                        stride as int,
                        x,
                        yy,
                    ));
                }
            }
            bix = bix + 1;
        }
        proof {
            assert(y * stride + stride == (y + 1) * stride) by (nonlinear_arith);
        }
        y = y + 1;
    }
    let r = Bitmap { width, height, stride, buffer };
    proof {
        assert(r.buffer@.len() == r.stride * r.height) by (nonlinear_arith)
            requires
                r.buffer@.len() == height * stride,
                r.stride == stride,
                r.height == height,
        ;
        assert forall|x: int, yy: int|
            0 <= x < width && 0 <= yy < height implies (#[trigger] r.row_pixels(yy)[x] == grid_set(
            pixels@,
            width as int,
            x,
            yy,
        )) by {
            assert(x / 8 < stride);
            assert(yy * stride + stride <= height * stride) by (nonlinear_arith)
                requires
                    0 <= yy < height,
                    stride >= 0,
            ;
            assert(yy * stride >= 0) by (nonlinear_arith)
                requires
                    yy >= 0,
                    stride >= 0,
            ;
            assert((yy + 1) * stride == yy * stride + stride) by (nonlinear_arith);
            assert(r.row(yy).len() == stride);
            assert(r.row(yy)[x / 8] == r.buffer@[yy * stride + x / 8]);
            assert(r.row(yy)[x / 8] == byte_of(r.buffer@, stride as int, x, yy));
            assert(nth_bit(byte_of(r.buffer@, stride as int, x, yy), x % 8) == grid_set(
                pixels@,
                width as int,
                x,
                yy,
            ));
        }
    }
    r
}

/// The byte holding pixel `x` of row `y` in a packed buffer.
pub open spec fn byte_of(buffer: Seq<u8>, stride: int, x: int, y: int) -> u8 {
    buffer[y * stride + x / 8]
}

} // verus!
