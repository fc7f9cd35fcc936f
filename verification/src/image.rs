//! Run-length encoded images.
//!
//! An [`EncodedImage`] packs a 1-bit-per-pixel bitmap into one `Vec` of
//! 16-bit words: a header block of `height + 1` offsets followed by the
//! concatenated run words of every row.

use crate::rle::{
    encode_row, lemma_run_count_bounds, row_bits, run_count, runs_decode, runs_wf, MAX_RUN_LEN,
};
use vstd::prelude::*;
use vstd::slice::slice_subrange;

verus! {

/// A 1-bit-per-pixel row-major bitmap, MSB first within each byte.
pub struct Bitmap {
    /// Width in pixels.
    pub width: usize,
    /// Height in pixels.
    pub height: usize,
    /// Bytes per row, at least `ceil(width / 8)`.
    pub stride: usize,
    /// `stride * height` bytes of pixel data.
    pub buffer: Vec<u8>,
}

impl Bitmap {
    /// Data-model invariant: the buffer holds exactly `stride * height`
    /// bytes and rows are wide enough for `width` pixels.
    pub open spec fn wf(&self) -> bool {
        &&& self.buffer@.len() == self.stride * self.height
        &&& (self.height > 0 ==> (self.width + 7) / 8 <= self.stride)
    }

    /// The bytes of row `y`.
    pub open spec fn row(&self, y: int) -> Seq<u8> {
        self.buffer@.subrange(y * self.stride, (y + 1) * self.stride)
    }

    /// The pixels of row `y`.
    pub open spec fn row_pixels(&self, y: int) -> Seq<bool> {
        row_bits(self.row(y), self.width as int)
    }
}

/// The run words of row `y` inside an encoded word sequence whose header
/// block holds the row offsets.
pub open spec fn row_segment(data: Seq<u16>, y: int) -> Seq<u16> {
    data.subrange(data[y] as int, data[y + 1] as int)
}

/// A run-length encoded image.
///
/// `data[0] == height + 1` is the size of the header block and the start
/// offset of row 0's run words; for each row `y`, `data[y + 1]` is the word
/// offset one past the end of that row's run words, so `data[height]` is the
/// total word count.
pub struct EncodedImage {
    /// Header block followed by the run words of every row.
    pub data: Vec<u16>,
    /// Width in pixels.
    pub width: usize,
    /// Height in pixels.
    pub height: usize,
}

impl EncodedImage {
    /// Start offset of row `y`'s run words; `offset(height)` is the total
    /// word count.
    pub open spec fn offset(&self, y: int) -> int {
        self.data@[y] as int
    }

    /// The run words of row `y`.
    pub open spec fn row_words(&self, y: int) -> Seq<u16> {
        row_segment(self.data@, y)
    }

    /// Header consistency: the first offset equals `height + 1`, offsets
    /// are non-decreasing and stay within the word count, the offset after
    /// the last row equals the total word count, and every row's run words
    /// are maximal.
    pub open spec fn wf(&self) -> bool {
        &&& self.data@.len() >= self.height + 1
        &&& self.offset(0) == self.height + 1
        &&& forall|y: int|
            0 <= y <= self.height ==> self.height + 1 <= #[trigger] self.offset(y)
                <= self.data@.len()
        &&& forall|y: int| 0 <= y < self.height ==> #[trigger] self.offset(y) <= self.offset(y + 1)
        &&& self.offset(self.height as int) == self.data@.len()
        &&& forall|y: int| 0 <= y < self.height ==> runs_wf(#[trigger] self.row_words(y))
    }

    /// The image encodes bitmap `bm`: same size, and each row's run words
    /// decode to exactly that row's pixels.
    pub open spec fn encodes(&self, bm: Bitmap) -> bool {
        &&& self.width == bm.width
        &&& self.height == bm.height
        &&& forall|y: int|
            0 <= y < self.height ==> runs_decode(#[trigger] self.row_words(y)) == bm.row_pixels(y)
    }
}

/// THE HEADER GROWTH LAW: in an encoded image of a bitmap with at least
/// one pixel per row, every row holds at least one run word, so the
/// header offsets increase strictly.
pub proof fn lemma_offsets_strict(img: EncodedImage, bm: Bitmap)
    requires
        img.wf(),
        img.encodes(bm),
        bm.width >= 1,
    ensures
        forall|y: int| 0 <= y < img.height ==> #[trigger] img.offset(y) < img.offset(y + 1),
{
    assert forall|y: int| 0 <= y < img.height implies #[trigger] img.offset(y) < img.offset(
        y + 1,
    ) by {
        assert(runs_decode(img.row_words(y)).len() == bm.width);
        if img.row_words(y).len() == 0 {
            assert(runs_decode(img.row_words(y)).len() == 0);
        }
    }
}

/// The number of run words the first `y` rows of a bitmap encode to.
pub open spec fn rows_run_count(bm: Bitmap, y: int) -> int
    decreases y,
{
    if y <= 0 {
        0
    } else {
        rows_run_count(bm, y - 1) + run_count(bm.row_pixels(y - 1))
    }
}

/// The number of 16-bit words a bitmap encodes to: the header block plus
/// every row's run words.
pub open spec fn image_words(bm: Bitmap) -> int {
    bm.height + 1 + rows_run_count(bm, bm.height as int)
}

/// Row run counts accumulate monotonically.
proof fn lemma_rows_run_count_mono(bm: Bitmap, a: int, b: int)
    requires
        0 <= a <= b,
    ensures
        rows_run_count(bm, a) <= rows_run_count(bm, b),
    decreases b - a,
{
    if a < b {
        lemma_rows_run_count_mono(bm, a, b - 1);
        lemma_run_count_bounds(bm.row_pixels(b - 1));
    }
}

/// Run-length encodes a bitmap row by row.
///
/// The encoding exists exactly when the image fits the format: the header
/// block and the run words of every row together take at most `0xFFFF`
/// 16-bit words, so that every header offset is exact. An image over that
/// budget yields nothing.
pub fn encode_image(bm: &Bitmap) -> (r: Option<EncodedImage>)
    requires
        bm.wf(),
        bm.height > 0 ==> 1 <= bm.width,
        bm.width <= MAX_RUN_LEN as usize,
    ensures
        match r {
            Some(img) => img.wf() && img.encodes(*bm) && image_words(*bm) <= 0xFFFF,
            None => image_words(*bm) > 0xFFFF,
        },
{
    let height = bm.height;
    let width = bm.width;
    if height > 0xFFFE {
        proof {
            lemma_rows_run_count_mono(*bm, 0, height as int);
        }
        return None;
    }
    let mut data: Vec<u16> = Vec::new();
    let mut k: usize = 0;
    while k < height + 1
        invariant
            k <= height + 1,
            height + 1 <= 0xFFFF,
            data@.len() == k,
        decreases height + 1 - k,
    {
        data.push(0);
        k = k + 1;
    }
    data.set(0, (height + 1) as u16);
    let mut y: usize = 0;
    while y < height
        invariant
            y <= height,
            bm.wf(),
            bm.height > 0 ==> 1 <= bm.width,
            bm.width <= MAX_RUN_LEN as usize,
            height == bm.height,
            width == bm.width,
            height + 1 <= 0xFFFF,
            data@.len() >= height + 1,
            data@.len() == height + 1 + rows_run_count(*bm, y as int),
            data@.len() <= 0xFFFF,
            data@[0] as int == height + 1,
            data@[y as int] as int == data@.len(),
            forall|t: int| 0 <= t <= y ==> height + 1 <= #[trigger] data@[t] as int <= data@.len(),
            forall|t: int| 0 <= t < y ==> #[trigger] data@[t] as int <= data@[t + 1] as int,
            forall|t: int|
                0 <= t < y ==> runs_wf(#[trigger] row_segment(data@, t)) && runs_decode(
                    row_segment(data@, t),
                ) == bm.row_pixels(t),
        decreases height - y,
    {
        proof {
            assert(y * bm.stride + bm.stride <= bm.stride * bm.height) by (nonlinear_arith)
                requires
                    0 <= y < bm.height,
                    bm.stride >= 0,
            ;
            assert((y + 1) * bm.stride == y * bm.stride + bm.stride) by (nonlinear_arith);
            assert(y * bm.stride >= 0) by (nonlinear_arith)
                requires
                    y >= 0,
                    bm.stride >= 0,
            ;
        }
        let buf_len: usize = bm.buffer.len();
        assert(y * bm.stride + bm.stride <= buf_len);
        let row: &[u8] = slice_subrange(bm.buffer.as_slice(), y * bm.stride, (y + 1) * bm.stride);
        let runs = encode_row(row, width);
        let ghost runs_seq = runs@;
        let ghost before = data@;
        proof {
            assert(row@ == bm.row(y as int));
            assert(runs_seq.len() == run_count(bm.row_pixels(y as int)));
            assert(rows_run_count(*bm, y as int + 1) == rows_run_count(*bm, y as int) + run_count(
                bm.row_pixels(y as int),
            ));
        }
        let mut tail = runs;
        data.append(&mut tail);
        if data.len() > 0xFFFF {
            proof {
                lemma_rows_run_count_mono(*bm, y as int + 1, height as int);
            }
            return None;
        }
        data.set(y + 1, data.len() as u16);
        proof {
            let after = data@;
            let len0 = before.len() as int;
            assert(after.len() == len0 + runs_seq.len());
            // the new row's segment is exactly its run words
            assert(after[y as int] as int == len0);
            assert(after[y as int + 1] as int == after.len());
            assert(row_segment(after, y as int) =~= runs_seq);
            // older rows kept their header entries and run words
            assert(forall|t: int| 0 <= t <= y ==> #[trigger] after[t] == before[t]);
            assert(forall|t: int| 0 <= t < y ==> row_segment(after, t) =~= row_segment(before, t));
        }
        y = y + 1;
    }
    Some(EncodedImage { data, width, height })
}

} // verus!
