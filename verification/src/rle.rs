//! Run-length encoding of 1-bit-per-pixel bitmap rows.
//!
//! A row is scanned left to right, most significant bit first within each
//! byte. Maximal runs of equal pixels are packed into 16-bit words: bit 15
//! holds the run's color, bits 14..0 hold its length.

use vstd::prelude::*;

verus! {

/// The largest run length that fits in the 15 low bits of a run word.
pub const MAX_RUN_LEN: u16 = 0x7FFF;

/// The color a packed run word stands for: bit 15.
pub open spec fn run_color(w: u16) -> bool {
    w & 0x8000 == 0x8000
}

/// The length a packed run word stands for: bits 14..0.
pub open spec fn run_len(w: u16) -> int {
    (w & 0x7FFF) as int
}

/// The pixel of `row` at position `i`, MSB first within each byte.
pub open spec fn row_bit(row: Seq<u8>, i: int) -> bool {
    (row[i / 8] >> ((7 - (i % 8)) as u8)) & 1 == 1
}

/// The first `width` pixels of `row`.
pub open spec fn row_bits(row: Seq<u8>, width: int) -> Seq<bool> {
    Seq::new(width as nat, |i: int| row_bit(row, i))
}

/// The pixel sequence one run stands for.
pub open spec fn run_pixels(color: bool, length: int) -> Seq<bool> {
    Seq::new(length as nat, |j: int| color)
}

/// The pixel sequence a run word sequence stands for: each word expanded
/// to `run_len` copies of its color, in order.
pub open spec fn runs_decode(runs: Seq<u16>) -> Seq<bool>
    decreases runs.len(),
{
    if runs.len() == 0 {
        Seq::empty()
    } else {
        runs_decode(runs.drop_last()) + run_pixels(run_color(runs.last()), run_len(runs.last()))
    }
}

/// The number of maximal runs in a pixel sequence: one per color change,
/// and one for the first pixel.
pub open spec fn run_count(p: Seq<bool>) -> int
    decreases p.len(),
{
    if p.len() == 0 {
        0
    } else if p.len() == 1 {
        1
    } else {
        run_count(p.drop_last()) + if p[p.len() - 2] == p.last() {
            0int
        } else {
            1int
        }
    }
}

/// A pixel sequence has between one run (if non-empty) and one run per
/// pixel.
pub proof fn lemma_run_count_bounds(p: Seq<bool>)
    ensures
        0 <= run_count(p) <= p.len(),
        p.len() > 0 ==> 1 <= run_count(p),
    decreases p.len(),
{
    if p.len() > 1 {
        lemma_run_count_bounds(p.drop_last());
    }
}

/// Maximality of a run sequence: every run is non-empty and no two
/// adjacent runs share a color.
pub open spec fn runs_wf(runs: Seq<u16>) -> bool {
    &&& forall|k: int| 0 <= k < runs.len() ==> 1 <= #[trigger] run_len(runs[k])
    &&& forall|k: int|
        0 <= k && k + 1 < runs.len() ==> run_color(#[trigger] runs[k]) != run_color(runs[k + 1])
}

/// Appending a run word extends the decoded pixels by that run.
pub proof fn lemma_runs_decode_push(runs: Seq<u16>, w: u16)
    ensures
        runs_decode(runs.push(w)) == runs_decode(runs) + run_pixels(run_color(w), run_len(w)),
{
    assert(runs.push(w).drop_last() =~= runs);
    assert(runs.push(w).last() == w);
}

proof fn lemma_pack(c: u8, l: u16)
    by (bit_vector)
    requires
        c <= 1,
        l <= 0x7FFF,
    ensures
        ((((c as u16) << 15) | l) & 0x8000 == 0x8000) <==> c == 1,
        (((c as u16) << 15) | l) & 0x7FFF == l,
{
}

/// Reads the pixel of `row` at position `i` (MSB first within each byte).
fn bit_at(row: &[u8], i: usize) -> (b: bool)
    requires
        i / 8 < row@.len(),
    ensures
        b == row_bit(row@, i as int),
{
    let byte: u8 = row[i / 8];
    let sh: u8 = (7 - (i % 8)) as u8;
    (byte >> sh) & 1 == 1
}

/// Packs one run into a 16-bit word: bit 15 the color, bits 14..0 the length.
fn pack_run(color: bool, length: u16) -> (w: u16)
    requires
        1 <= length <= 0x7FFF,
    ensures
        run_color(w) == color,
        run_len(w) == length as int,
{
    let c: u8 = if color {
        1
    } else {
        0
    };
    proof {
        lemma_pack(c, length);
    }
    ((c as u16) << 15) | length
}

/// Run-length encodes the first `width` pixels of `row`.
///
/// The run words decode to exactly the encoded pixels (the encoding is
/// invertible), every run is non-empty, and no two adjacent runs share a
/// color.
pub fn encode_row(row: &[u8], width: usize) -> (runs: Vec<u16>)
    requires
        1 <= width <= MAX_RUN_LEN as usize,
        row@.len() >= (width + 7) / 8,
    ensures
        runs_decode(runs@) == row_bits(row@, width as int),
        runs_wf(runs@),
        runs@.len() == run_count(row_bits(row@, width as int)),
        runs@.len() >= 1,
{
    let ghost pixels = row_bits(row@, width as int);
    let mut runs: Vec<u16> = Vec::new();
    let first = bit_at(row, 0);
    let mut color: bool = first;
    let mut length: u16 = 1;
    let mut i: usize = 1;
    assert(runs_decode(runs@) + run_pixels(color, length as int) =~= pixels.take(1));
    assert(pixels.take(1).len() == 1);
    while i < width
        invariant
            1 <= i <= width <= 0x7FFF,
            row@.len() >= (width + 7) / 8,
            pixels == row_bits(row@, width as int),
            1 <= length <= i,
            runs_decode(runs@) + run_pixels(color, length as int) == pixels.take(i as int),
            runs_wf(runs@),
            runs@.len() > 0 ==> run_color(runs@.last()) != color,
            pixels[i as int - 1] == color,
            runs@.len() + 1 == run_count(pixels.take(i as int)),
        decreases width - i,
    {
        assert(i / 8 < row@.len()) by {
            assert(i / 8 < (width + 7) / 8);
        }
        let b = bit_at(row, i);
        assert(b == pixels[i as int]);
        proof {
            let p1 = pixels.take(i as int + 1);
            assert(p1.drop_last() =~= pixels.take(i as int));
            assert(p1[i as int - 1] == color && p1.last() == b);
            assert(run_count(p1) == run_count(pixels.take(i as int)) + if b == color {
                0int
            } else {
                1int
            });
        }
        if b == color {
            proof {
                let d = runs_decode(runs@) + run_pixels(color, length as int);
                assert(d.len() == i as int);
                assert(forall|k: int|
                    0 <= k < i as int ==> #[trigger] pixels.take(i as int + 1)[k] == d[k]);
                assert(pixels.take(i as int + 1)[i as int] == color);
                assert(runs_decode(runs@) + run_pixels(color, length as int + 1) =~= pixels.take(
                    i as int + 1,
                ));
            }
            length = length + 1;
        } else {
            let w = pack_run(color, length);
            proof {
                lemma_runs_decode_push(runs@, w);
            }
            runs.push(w);
            color = b;
            length = 1;
            assert(runs_decode(runs@) + run_pixels(color, length as int) =~= pixels.take(
                i as int + 1,
            ));
        }
        i = i + 1;
    }
    let w = pack_run(color, length);
    proof {
        lemma_runs_decode_push(runs@, w);
    }
    runs.push(w);
    assert(runs_decode(runs@) =~= pixels.take(width as int));
    assert(pixels.take(width as int) =~= pixels);
    runs
}

/// Expands a run word sequence back into pixels.
pub fn decode_runs(runs: &[u16]) -> (pixels: Vec<bool>)
    requires
        runs_decode(runs@).len() <= usize::MAX,
    ensures
        pixels@ == runs_decode(runs@),
{
    let mut pixels: Vec<bool> = Vec::new();
    let mut i: usize = 0;
    assert(runs@.take(0) =~= Seq::<u16>::empty());
    while i < runs.len()
        invariant
            0 <= i <= runs@.len(),
            runs_decode(runs@).len() <= usize::MAX,
            pixels@ == runs_decode(runs@.take(i as int)),
        decreases runs@.len() - i,
    {
        let w = runs[i];
        let color = (w & 0x8000) == 0x8000;
        let length = w & 0x7FFF;
        assert(color == run_color(w) && length as int == run_len(w));
        proof {
            assert(runs@.take(i as int).push(w) =~= runs@.take(i as int + 1));
            lemma_runs_decode_push(runs@.take(i as int), w);
            lemma_decode_take_len_bounded(runs@, i as int + 1);
        }
        let mut j: u16 = 0;
        while j < length
            invariant
                0 <= j <= length,
                length as int == run_len(w),
                color == run_color(w),
                runs_decode(runs@).len() <= usize::MAX,
                runs_decode(runs@.take(i as int)).len() + length <= usize::MAX,
                pixels@ == runs_decode(runs@.take(i as int)) + run_pixels(color, j as int),
            decreases length - j,
        {
            pixels.push(color);
            assert(pixels@ =~= runs_decode(runs@.take(i as int)) + run_pixels(
                color,
                j as int + 1,
            ));
            j = j + 1;
        }
        assert(pixels@ == runs_decode(runs@.take(i as int + 1)));
        i = i + 1;
    }
    assert(runs@.take(runs@.len() as int) =~= runs@);
    pixels
}

/// A prefix of a run sequence decodes to no more pixels than the whole.
proof fn lemma_decode_take_len_bounded(runs: Seq<u16>, k: int)
    requires
        0 <= k <= runs.len(),
    ensures
        runs_decode(runs.take(k)).len() <= runs_decode(runs).len(),
    decreases runs.len() - k,
{
    if k < runs.len() {
        lemma_decode_take_len_bounded(runs, k + 1);
        assert(runs.take(k + 1).drop_last() =~= runs.take(k));
        assert(runs_decode(runs.take(k + 1)) == runs_decode(runs.take(k)) + run_pixels(
            run_color(runs[k]),
            run_len(runs[k]),
        ));
    } else {
        assert(runs.take(k) =~= runs);
    }
}

} // verus!
