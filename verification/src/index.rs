//! Sparse character-to-glyph-index compilation.
//!
//! A sorted, duplicate-free sequence of code points is compiled into the
//! minimal table of contiguous ranges such that looking a character up
//! costs one comparison per range rather than one per character. Each range
//! maps the characters in `[start, start + length)` to the dense
//! glyph-array indices `[base, base + length)`.

use crate::error::BuildError;
use vstd::prelude::*;

verus! {

/// One contiguous range of code points: character `start + j` maps to
/// glyph-array index `base + j` for `0 <= j < length`.
#[derive(Clone, Copy, Debug, PartialEq, Eq, Structural)]
pub struct CharRange {
    /// First code point of the range.
    pub start: u32,
    /// Number of consecutive code points in the range.
    pub length: u64,
    /// Glyph-array index of the range's first character.
    pub base: usize,
}

/// A sequence is strictly increasing: sorted with no duplicates.
pub open spec fn strictly_increasing(s: Seq<u32>) -> bool {
    forall|i: int, j: int| 0 <= i < j < s.len() ==> s[i] < s[j]
}

/// The code points one range covers, in order.
pub open spec fn range_chars(r: CharRange) -> Seq<u32> {
    Seq::new(r.length as nat, |j: int| (r.start + j) as u32)
}

/// The code points a range table covers, in order.
pub open spec fn table_chars(rs: Seq<CharRange>) -> Seq<u32>
    decreases rs.len(),
{
    if rs.len() == 0 {
        Seq::empty()
    } else {
        table_chars(rs.drop_last()) + range_chars(rs.last())
    }
}

/// Ranges are non-empty, stay within `u32`, and are separated: a gap of at
/// least one absent code point lies between consecutive ranges, so no range
/// could be merged into its neighbour (the table is minimal).
pub open spec fn ranges_separated(rs: Seq<CharRange>) -> bool {
    &&& forall|k: int| 0 <= k < rs.len() ==> 1 <= (#[trigger] rs[k]).length
    &&& forall|k: int| 0 <= k < rs.len() ==> (#[trigger] rs[k]).start + rs[k].length - 1 <= u32::MAX
    &&& forall|k: int|
        0 <= k && k + 1 < rs.len() ==> (#[trigger] rs[k]).start + rs[k].length < rs[k + 1].start
}

/// Well-formed table: separated ranges whose `base` fields equal the
/// number of code points covered by the preceding ranges, i.e. the
/// glyph-array position of the range's first character.
pub open spec fn table_wf(rs: Seq<CharRange>) -> bool {
    &&& ranges_separated(rs)
    &&& forall|k: int|
        0 <= k < rs.len() ==> rs[k].base == (#[trigger] table_chars(rs.take(k))).len()
}

/// First-match lookup: the index `base + (c - start)` of the first range
/// holding `c`, or `None` when no range holds it.
pub open spec fn lookup_spec(rs: Seq<CharRange>, c: u32) -> Option<int>
    decreases rs.len(),
{
    if rs.len() == 0 {
        None
    } else if rs[0].start <= c && c < rs[0].start + rs[0].length {
        Some(rs[0].base + c - rs[0].start)
    } else {
        lookup_spec(rs.drop_first(), c)
    }
}

/// Appending a range extends the covered code points by that range's.
pub proof fn lemma_table_chars_push(rs: Seq<CharRange>, r: CharRange)
    ensures
        table_chars(rs.push(r)) == table_chars(rs) + range_chars(r),
{
    assert(rs.push(r).drop_last() =~= rs);
}

/// A prefix of a table covers a prefix of the code points.
proof fn lemma_table_prefix_agree(rs: Seq<CharRange>, m: int)
    requires
        0 <= m <= rs.len(),
    ensures
        table_chars(rs.take(m)).len() <= table_chars(rs).len(),
        forall|idx: int|
            0 <= idx < table_chars(rs.take(m)).len() ==> #[trigger] table_chars(rs)[idx]
                == table_chars(rs.take(m))[idx],
    decreases rs.len() - m,
{
    if m < rs.len() {
        lemma_table_prefix_agree(rs, m + 1);
        assert(rs.take(m + 1).drop_last() =~= rs.take(m));
        assert(table_chars(rs.take(m + 1)) == table_chars(rs.take(m)) + range_chars(rs[m]));
    } else {
        assert(rs.take(m) =~= rs);
    }
}

/// Compiles a sorted, duplicate-free code point sequence into the minimal
/// range table.
///
/// Fails exactly on an empty alphabet; on success the table is well-formed
/// and covers exactly the input code points, in order.
pub fn compile(chars: &Vec<u32>) -> (r: Result<Vec<CharRange>, BuildError>)
    requires
        strictly_increasing(chars@),
    ensures
        match r {
            Ok(table) => chars@.len() > 0 && table_wf(table@) && table_chars(table@) == chars@,
            Err(e) => chars@.len() == 0 && e is EmptyAlphabet,
        },
{
    if chars.len() == 0 {
        return Err(BuildError::EmptyAlphabet);
    }
    let mut table: Vec<CharRange> = Vec::new();
    let mut run_start: u32 = chars[0];
    let mut run_length: u64 = 1;
    let mut i: usize = 1;
    while i < chars.len()
        invariant
            strictly_increasing(chars@),
            1 <= i <= chars@.len(),
            1 <= run_length,
            run_length as int <= i as int,
            run_start + run_length - 1 <= u32::MAX,
            forall|t: int|
                i - run_length <= t < i ==> #[trigger] chars@[t] == run_start + t - (
                i - run_length),
            table_chars(table@) == chars@.take(i - run_length as int),
            ranges_separated(table@),
            forall|k: int|
                0 <= k < table@.len() ==> table@[k].base == (#[trigger] table_chars(
                    table@.take(k),
                )).len(),
            table@.len() > 0 ==> table@.last().start + table@.last().length < run_start,
        decreases chars@.len() - i,
    {
        let c = chars[i];
        assert(chars@[i - run_length as int] == run_start);
        assert(chars@[i as int - 1] == run_start + run_length - 1);
        assert(c > run_start + run_length - 1);
        if ((c - run_start) as u64) == run_length {
            assert(c == run_start + run_length);
            run_length = run_length + 1;
        } else {
            assert(c > run_start + run_length);
            let r = CharRange { start: run_start, length: run_length, base: i - (run_length as usize) };
            let ghost tb = table@;
            proof {
                lemma_table_chars_push(tb, r);
                assert(range_chars(r) =~= chars@.subrange(i - run_length as int, i as int));
                assert(table_chars(tb) + chars@.subrange(i - run_length as int, i as int)
                    =~= chars@.take(i as int));
            }
            table.push(r);
            proof {
                assert forall|k: int|
                    0 <= k < table@.len() implies table@[k].base == (#[trigger] table_chars(
                    table@.take(k),
                )).len() by {
                    assert(table@.take(k) =~= tb.take(k));
                    if k == tb.len() {
                        assert(tb.take(k) =~= tb);
                    }
                }
            }
            run_start = c;
            run_length = 1;
        }
        i = i + 1;
    }
    let r = CharRange {
        start: run_start,
        length: run_length,
        base: chars.len() - (run_length as usize),
    };
    let ghost tb = table@;
    proof {
        lemma_table_chars_push(tb, r);
        assert(range_chars(r) =~= chars@.subrange(i - run_length as int, i as int));
        assert(table_chars(tb) + chars@.subrange(i - run_length as int, i as int)
            =~= chars@.take(i as int));
        assert(chars@.take(i as int) =~= chars@);
    }
    table.push(r);
    proof {
        assert forall|k: int|
            0 <= k < table@.len() implies table@[k].base == (#[trigger] table_chars(
            table@.take(k),
        )).len() by {
            assert(table@.take(k) =~= tb.take(k));
            if k == tb.len() {
                assert(tb.take(k) =~= tb);
            }
        }
    }
    Ok(table)
}

/// Earlier ranges end at or before a later range starts.
proof fn lemma_range_end_le_start(rs: Seq<CharRange>, a: int, b: int)
    requires
        ranges_separated(rs),
        0 <= a < b < rs.len(),
    ensures
        rs[a].start + rs[a].length < rs[b].start + 1,
    decreases b - a,
{
    if a + 1 < b {
        lemma_range_end_le_start(rs, a, b - 1);
    }
}

/// A character inside range `k` is found there, at index `base + (c - start)`.
proof fn lemma_lookup_hits(rs: Seq<CharRange>, k: int, c: u32)
    requires
        ranges_separated(rs),
        0 <= k < rs.len(),
        rs[k].start <= c < rs[k].start + rs[k].length,
    ensures
        lookup_spec(rs, c) == Some(rs[k].base + c - rs[k].start),
    decreases k,
{
    if k > 0 {
        lemma_range_end_le_start(rs, 0, k);
        let tail = rs.drop_first();
        assert(ranges_separated(tail)) by {
            assert(forall|t: int| 0 <= t < tail.len() ==> tail[t] == rs[t + 1]);
        }
        lemma_lookup_hits(tail, k - 1, c);
    }
}

/// A character inside no range is not found.
proof fn lemma_lookup_misses(rs: Seq<CharRange>, c: u32)
    requires
        forall|k: int|
            0 <= k < rs.len() ==> !((#[trigger] rs[k]).start <= c && c < rs[k].start
                + rs[k].length),
    ensures
        lookup_spec(rs, c) is None,
    decreases rs.len(),
{
    if rs.len() > 0 {
        let tail = rs.drop_first();
        assert(forall|t: int| 0 <= t < tail.len() ==> tail[t] == rs[t + 1]);
        lemma_lookup_misses(tail, c);
    }
}

/// The code point at position `base + j` of the covered sequence is
/// `start + j` of range `k`.
proof fn lemma_table_chars_index(rs: Seq<CharRange>, k: int, j: int)
    requires
        table_wf(rs),
        0 <= k < rs.len(),
        0 <= j < rs[k].length,
    ensures
        0 <= rs[k].base + j < table_chars(rs).len(),
        table_chars(rs)[rs[k].base + j] == rs[k].start + j,
{
    lemma_table_prefix_agree(rs, k + 1);
    assert(rs.take(k + 1).drop_last() =~= rs.take(k));
    assert(table_chars(rs.take(k + 1)) == table_chars(rs.take(k)) + range_chars(rs[k]));
    assert(table_chars(rs.take(k + 1))[rs[k].base + j] == rs[k].start + j);
}

/// The range whose slice of the covered sequence holds position `i`.
proof fn index_to_range(rs: Seq<CharRange>, i: int) -> (k: int)
    requires
        table_wf(rs),
        0 <= i < table_chars(rs).len(),
    ensures
        0 <= k < rs.len(),
        rs[k].base <= i < rs[k].base + rs[k].length,
    decreases rs.len(),
{
    let front = rs.drop_last();
    assert(rs.take(rs.len() - 1) =~= front);
    if i >= table_chars(front).len() {
        rs.len() - 1
    } else {
        assert(table_wf(front)) by {
            assert(forall|t: int| 0 <= t < front.len() ==> front[t] == rs[t]);
            assert(forall|t: int| 0 <= t <= front.len() ==> front.take(t) =~= rs.take(t));
        }
        let k = index_to_range(front, i);
        k
    }
}

/// Looking up the `i`-th covered code point yields `i`.
proof fn lemma_lookup_finds_all(rs: Seq<CharRange>, chars: Seq<u32>)
    requires
        table_wf(rs),
        table_chars(rs) == chars,
    ensures
        forall|i: int| 0 <= i < chars.len() ==> #[trigger] lookup_spec(rs, chars[i]) == Some(i),
{
    assert forall|i: int| 0 <= i < chars.len() implies #[trigger] lookup_spec(rs, chars[i])
        == Some(i) by {
        let k = index_to_range(rs, i);
        lemma_table_chars_index(rs, k, i - rs[k].base);
        lemma_lookup_hits(rs, k, chars[i]);
    }
}

/// Looking up an uncovered code point yields nothing.
proof fn lemma_lookup_rejects(rs: Seq<CharRange>, chars: Seq<u32>)
    requires
        table_wf(rs),
        table_chars(rs) == chars,
    ensures
        forall|c: u32| !chars.contains(c) ==> lookup_spec(rs, c) is None,
{
    assert forall|c: u32| !chars.contains(c) implies lookup_spec(rs, c) is None by {
        assert forall|k: int|
            0 <= k < rs.len() implies !((#[trigger] rs[k]).start <= c && c < rs[k].start
            + rs[k].length) by {
            if rs[k].start <= c && c < rs[k].start + rs[k].length {
                lemma_table_chars_index(rs, k, c - rs[k].start);
                assert(chars[rs[k].base + (c - rs[k].start)] == c);
                assert(chars.contains(c));
            }
        }
        lemma_lookup_misses(rs, c);
    }
}

/// THE LOOKUP LAW: a well-formed table covering a code point sequence is a
/// correct index. Looking up the `i`-th covered code point yields exactly
/// glyph-array position `i`, and looking up an uncovered code point yields
/// nothing.
pub proof fn lemma_lookup_inverts(rs: Seq<CharRange>, chars: Seq<u32>)
    requires
        table_wf(rs),
        table_chars(rs) == chars,
    ensures
        forall|i: int| 0 <= i < chars.len() ==> #[trigger] lookup_spec(rs, chars[i]) == Some(i),
        forall|c: u32| !chars.contains(c) ==> lookup_spec(rs, c) is None,
{
    lemma_lookup_finds_all(rs, chars);
    lemma_lookup_rejects(rs, chars);
}

/// A range's indices stay within the covered sequence's length.
proof fn lemma_base_within(rs: Seq<CharRange>, k: int)
    requires
        table_wf(rs),
        0 <= k < rs.len(),
    ensures
        rs[k].base + rs[k].length <= table_chars(rs).len(),
{
    lemma_table_prefix_agree(rs, k + 1);
    assert(rs.take(k + 1).drop_last() =~= rs.take(k));
    assert(table_chars(rs.take(k + 1)) == table_chars(rs.take(k)) + range_chars(rs[k]));
}

/// Looks a code point up in a compiled range table.
pub fn lookup(table: &Vec<CharRange>, c: u32) -> (r: Option<usize>)
    requires
        table_wf(table@),
        table_chars(table@).len() <= usize::MAX,
    ensures
        match r {
            Some(i) => lookup_spec(table@, c) == Some(i as int),
            None => lookup_spec(table@, c) is None,
        },
{
    let mut k: usize = 0;
    while k < table.len()
        invariant
            table_wf(table@),
            table_chars(table@).len() <= usize::MAX,
            0 <= k <= table@.len(),
            forall|t: int|
                0 <= t < k ==> !((#[trigger] table@[t]).start <= c && c < table@[t].start
                    + table@[t].length),
        decreases table@.len() - k,
    {
        let r0 = table[k];
        if c >= r0.start {
            let off = c - r0.start;
            if (off as u64) < r0.length {
                proof {
                    lemma_base_within(table@, k as int);
                    lemma_lookup_hits(table@, k as int, c);
                }
                return Some(r0.base + (off as usize));
            }
        }
        k = k + 1;
    }
    proof {
        lemma_lookup_misses(table@, c);
    }
    None
}

/// Sorts a code point sequence and removes duplicates: the result is
/// strictly increasing and holds exactly the input's elements.
pub fn sort_dedup(input: &Vec<u32>) -> (out: Vec<u32>)
    ensures
        strictly_increasing(out@),
        forall|c: u32| out@.contains(c) <==> input@.contains(c),
{
    let mut out: Vec<u32> = Vec::new();
    let mut i: usize = 0;
    assert(input@.take(0) =~= Seq::<u32>::empty());
    while i < input.len()
        invariant
            0 <= i <= input@.len(),
            strictly_increasing(out@),
            forall|c: u32| out@.contains(c) <==> input@.take(i as int).contains(c),
        decreases input@.len() - i,
    {
        let c = input[i];
        let ghost prev = out@;
        let mut j: usize = 0;
        while j < out.len() && out[j] < c
            invariant
                0 <= j <= out@.len(),
                forall|t: int| 0 <= t < j ==> #[trigger] out@[t] < c,
                out@ == prev,
            decreases out@.len() - j,
        {
            j = j + 1;
        }
        if j == out.len() || out[j] > c {
            out.insert(j, c);
            proof {
                assert(out@[j as int] == c);
                assert(forall|t: int| 0 <= t < j ==> #[trigger] out@[t] == prev[t]);
                assert(forall|t: int| j < t < out@.len() ==> #[trigger] out@[t] == prev[t - 1]);
                assert(forall|u: int| j <= u < prev.len() ==> c < #[trigger] prev[u]);
                assert(strictly_increasing(out@));
                assert forall|x: u32| out@.contains(x) implies prev.contains(x) || x == c by {
                    let t = choose|t: int| 0 <= t < out@.len() && #[trigger] out@[t] == x;
                    if t < j {
                        assert(prev[t] == x);
                        assert(prev.contains(x));
                    } else if t > j {
                        assert(prev[t - 1] == x);
                        assert(prev.contains(x));
                    }
                }
                assert forall|x: u32| prev.contains(x) implies out@.contains(x) by {
                    let t = choose|t: int| 0 <= t < prev.len() && #[trigger] prev[t] == x;
                    if t < j {
                        assert(out@[t] == x);
                    } else {
                        assert(out@[t + 1] == x);
                    }
                    assert(out@.contains(x));
                }
            }
        } else {
            assert(out@[j as int] == c);
        }
        proof {
            assert(out@.contains(c)) by {
                assert(out@[j as int] == c);
            }
            assert forall|x: u32|
                input@.take(i as int + 1).contains(x) implies input@.take(i as int).contains(x)
                || x == c by {
                let t = choose|t: int|
                    0 <= t < i + 1 && #[trigger] input@.take(i as int + 1)[t] == x;
                if t < i {
                    assert(input@.take(i as int)[t] == x);
                    assert(input@.take(i as int).contains(x));
                } else {
                    assert(input@.take(i as int + 1)[i as int] == input@[i as int]);
                }
            }
            assert forall|x: u32|
                input@.take(i as int).contains(x) implies input@.take(i as int + 1).contains(
                x,
            ) by {
                let t = choose|t: int| 0 <= t < i && #[trigger] input@.take(i as int)[t] == x;
                assert(input@.take(i as int + 1)[t] == x);
                assert(input@.take(i as int + 1).contains(x));
            }
            assert(input@.take(i as int + 1)[i as int] == c);
            assert(input@.take(i as int + 1).contains(c));
            assert forall|x: u32| out@.contains(x) <==> input@.take(i as int + 1).contains(
                x,
            ) by {
                let a = prev.contains(x);
                let b = input@.take(i as int).contains(x);
                let d = input@.take(i as int + 1).contains(x);
                assert(a <==> b);
                assert(d <==> (b || x == c));
            }
        }
        i = i + 1;
    }
    assert(input@.take(input@.len() as int) =~= input@);
    out
}

} // verus!
