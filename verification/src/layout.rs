//! The measures of a line of glyphs: where the pen stands before each glyph,
//! the shared baseline, and the size of the canvas that holds them all.
//!
//! Advances arrive in whole pixels. The canvas is as wide as their exact sum,
//! and the pen stands before each glyph at the exact sum of the advances
//! before it: one policy for both.

use crate::glyph::{run_of, GlyphView, PlacedGlyph};
use vstd::prelude::*;

verus! {

/// Where the pen stands before glyph `n`: the sum of the advances of the
/// glyphs before it.
pub open spec fn pen_offset(glyphs: Seq<GlyphView>, n: int) -> nat
    recommends
        0 <= n <= glyphs.len(),
    decreases n,
{
    if n <= 0 {
        0
    } else {
        pen_offset(glyphs, n - 1) + glyphs[n - 1].advance as nat
    }
}

/// The width of the canvas: the sum of all advances.
pub open spec fn canvas_width(glyphs: Seq<GlyphView>) -> nat {
    pen_offset(glyphs, glyphs.len() as int)
}

/// The height of a glyph's bitmap, zero where it has none.
pub open spec fn bitmap_height(glyph: GlyphView) -> nat {
    match glyph.bitmap {
        Some(bitmap) => bitmap.height,
        None => 0,
    }
}

/// The greatest bitmap height among the first `n` glyphs.
pub open spec fn baseline_upto(glyphs: Seq<GlyphView>, n: int) -> nat
    recommends
        0 <= n <= glyphs.len(),
    decreases n,
{
    if n <= 0 {
        0
    } else {
        let before = baseline_upto(glyphs, n - 1);
        let here = bitmap_height(glyphs[n - 1]);
        if here > before {
            here
        } else {
            before
        }
    }
}

/// The shared baseline: the greatest bitmap height of the run, zero where no
/// glyph has a bitmap.
pub open spec fn baseline(glyphs: Seq<GlyphView>) -> nat {
    baseline_upto(glyphs, glyphs.len() as int)
}

/// How many rows below the canvas's top a bitmap with top bearing `top`
/// starts: `baseline - top`, and zero where that would be negative.
pub open spec fn vertical_offset(baseline: nat, top: int) -> nat {
    if baseline - top > 0 {
        (baseline - top) as nat
    } else {
        0
    }
}

/// The row just below a glyph's bitmap once it is placed: its height plus its
/// vertical offset. Zero for a glyph without a bitmap.
pub open spec fn bottom_edge(glyph: GlyphView, baseline: nat) -> nat {
    match glyph.bitmap {
        Some(bitmap) => bitmap.height + vertical_offset(baseline, bitmap.top),
        None => 0,
    }
}

/// The lowest bottom edge among the first `n` glyphs.
pub open spec fn height_upto(glyphs: Seq<GlyphView>, baseline: nat, n: int) -> nat
    recommends
        0 <= n <= glyphs.len(),
    decreases n,
{
    if n <= 0 {
        0
    } else {
        let before = height_upto(glyphs, baseline, n - 1);
        let here = bottom_edge(glyphs[n - 1], baseline);
        if here > before {
            here
        } else {
            before
        }
    }
}

/// The height of the canvas: the lowest bottom edge of the run, with every
/// bitmap placed against the shared baseline.
pub open spec fn canvas_height(glyphs: Seq<GlyphView>) -> nat {
    height_upto(glyphs, baseline(glyphs), glyphs.len() as int)
}

/// The canvas of the run can be held in memory: its width, its height and
/// the number of its pixels each fit in a `usize`.
pub open spec fn fits_in_memory(glyphs: Seq<GlyphView>) -> bool {
    &&& canvas_width(glyphs) <= usize::MAX
    &&& canvas_height(glyphs) <= usize::MAX
    &&& canvas_width(glyphs) * canvas_height(glyphs) <= usize::MAX
}

/// The pen never moves back.
pub proof fn lemma_pen_offset_monotone(glyphs: Seq<GlyphView>, i: int, j: int)
    requires
        i <= j,
    ensures
        pen_offset(glyphs, i) <= pen_offset(glyphs, j),
    decreases j - i,
{
    if i < j {
        lemma_pen_offset_monotone(glyphs, i, j - 1);
    }
}

/// The baseline over the first `n` glyphs is at least each of their bitmap
/// heights.
pub proof fn lemma_baseline_upto_bounds(glyphs: Seq<GlyphView>, n: int, i: int)
    requires
        0 <= i < n <= glyphs.len(),
    ensures
        bitmap_height(glyphs[i]) <= baseline_upto(glyphs, n),
    decreases n,
{
    if i < n - 1 {
        lemma_baseline_upto_bounds(glyphs, n - 1, i);
    }
}

/// The baseline over the first `n` glyphs is zero or the bitmap height of one
/// of them.
pub proof fn lemma_baseline_upto_attained(glyphs: Seq<GlyphView>, n: int)
    requires
        0 <= n <= glyphs.len(),
    ensures
        baseline_upto(glyphs, n) == 0 || exists|i: int|
            0 <= i < n && #[trigger] bitmap_height(glyphs[i]) == baseline_upto(glyphs, n),
    decreases n,
{
    if n > 0 {
        lemma_baseline_upto_attained(glyphs, n - 1);
        if bitmap_height(glyphs[n - 1]) > baseline_upto(glyphs, n - 1) {
            assert(bitmap_height(glyphs[n - 1]) == baseline_upto(glyphs, n));
        } else if baseline_upto(glyphs, n - 1) != 0 {
            let i = choose|i: int|
                0 <= i < n - 1 && #[trigger] bitmap_height(glyphs[i]) == baseline_upto(
                    glyphs,
                    n - 1,
                );
            assert(bitmap_height(glyphs[i]) == baseline_upto(glyphs, n));
        }
    }
}

/// The height over the first `n` glyphs is at least each of their bottom
/// edges.
pub proof fn lemma_height_upto_bounds(glyphs: Seq<GlyphView>, baseline: nat, n: int, i: int)
    requires
        0 <= i < n <= glyphs.len(),
    ensures
        bottom_edge(glyphs[i], baseline) <= height_upto(glyphs, baseline, n),
    decreases n,
{
    if i < n - 1 {
        lemma_height_upto_bounds(glyphs, baseline, n - 1, i);
    }
}

/// The height over the first `n` glyphs is zero or the bottom edge of one of
/// them.
pub proof fn lemma_height_upto_attained(glyphs: Seq<GlyphView>, baseline: nat, n: int)
    requires
        0 <= n <= glyphs.len(),
    ensures
        height_upto(glyphs, baseline, n) == 0 || exists|i: int|
            0 <= i < n && #[trigger] bottom_edge(glyphs[i], baseline) == height_upto(
                glyphs,
                baseline,
                n,
            ),
    decreases n,
{
    if n > 0 {
        lemma_height_upto_attained(glyphs, baseline, n - 1);
        if bottom_edge(glyphs[n - 1], baseline) > height_upto(glyphs, baseline, n - 1) {
            assert(bottom_edge(glyphs[n - 1], baseline) == height_upto(glyphs, baseline, n));
        } else if height_upto(glyphs, baseline, n - 1) != 0 {
            let i = choose|i: int|
                0 <= i < n - 1 && #[trigger] bottom_edge(glyphs[i], baseline) == height_upto(
                    glyphs,
                    baseline,
                    n - 1,
                );
            assert(bottom_edge(glyphs[i], baseline) == height_upto(glyphs, baseline, n));
        }
    }
}

/// Where the pen stands depends on the advances alone: two runs with the
/// same advances put the pen at the same columns, whatever their bitmaps.
pub proof fn lemma_pen_offset_from_advances(first: Seq<GlyphView>, second: Seq<GlyphView>, n: int)
    requires
        0 <= n <= first.len(),
        n <= second.len(),
        forall|i: int| 0 <= i < n ==> (#[trigger] first[i]).advance == second[i].advance,
    ensures
        pen_offset(first, n) == pen_offset(second, n),
    decreases n,
{
    if n > 0 {
        lemma_pen_offset_from_advances(first, second, n - 1);
    }
}

/// A bitmap whose top bearing is no greater than the baseline starts
/// `baseline - top` rows down; one whose top bearing is greater starts at the
/// canvas's top.
pub proof fn lemma_vertical_offset(baseline: nat, top: int)
    ensures
        top <= baseline ==> vertical_offset(baseline, top) == baseline - top,
        top >= baseline ==> vertical_offset(baseline, top) == 0,
{
}

/// Every bitmap of a run, placed at its vertical offset under the shared
/// baseline, ends at or above the canvas's bottom; and no bitmap is taller
/// than the baseline.
pub proof fn lemma_bitmap_within_height(glyphs: Seq<GlyphView>, i: int)
    requires
        0 <= i < glyphs.len(),
    ensures
        bitmap_height(glyphs[i]) <= baseline(glyphs),
        bottom_edge(glyphs[i], baseline(glyphs)) <= canvas_height(glyphs),
        glyphs[i].bitmap matches Some(bitmap) ==> bitmap.height + vertical_offset(
            baseline(glyphs),
            bitmap.top,
        ) <= canvas_height(glyphs),
{
    lemma_baseline_upto_bounds(glyphs, glyphs.len() as int, i);
    lemma_height_upto_bounds(glyphs, baseline(glyphs), glyphs.len() as int, i);
}

/// For a run of one glyph with a bitmap, the baseline is the bitmap's height
/// and the canvas is as high as the bitmap's bottom edge and as wide as the
/// glyph's advance.
pub proof fn lemma_single_glyph(glyph: GlyphView)
    requires
        glyph.bitmap is Some,
    ensures
        canvas_width(seq![glyph]) == glyph.advance,
        baseline(seq![glyph]) == glyph.bitmap.unwrap().height,
        canvas_height(seq![glyph]) == glyph.bitmap.unwrap().height + vertical_offset(
            glyph.bitmap.unwrap().height,
            glyph.bitmap.unwrap().top,
        ),
{
    let run = seq![glyph];
    assert(run[0] == glyph);
    assert(pen_offset(run, 0) == 0);
    assert(pen_offset(run, 1) == glyph.advance);
    assert(baseline_upto(run, 0) == 0);
    assert(baseline_upto(run, 1) == glyph.bitmap.unwrap().height);
    assert(height_upto(run, baseline(run), 0) == 0);
    assert(height_upto(run, baseline(run), 1) == bottom_edge(glyph, baseline(run)));
}

/// A run in which no glyph has a bitmap has baseline zero and a canvas of no
/// height.
pub proof fn lemma_no_bitmaps_no_height(glyphs: Seq<GlyphView>, n: int)
    requires
        0 <= n <= glyphs.len(),
        forall|i: int| 0 <= i < n ==> (#[trigger] glyphs[i]).bitmap is None,
    ensures
        baseline_upto(glyphs, n) == 0,
        forall|baseline: nat| #[trigger] height_upto(glyphs, baseline, n) == 0,
    decreases n,
{
    if n > 0 {
        lemma_no_bitmaps_no_height(glyphs, n - 1);
        assert(glyphs[n - 1].bitmap is None);
        assert forall|baseline: nat| #[trigger] height_upto(glyphs, baseline, n) == 0 by {
            assert(height_upto(glyphs, baseline, n - 1) == 0);
        }
    }
}

/// The width of the canvas for `glyphs`: the sum of their advances. `None`
/// exactly where that sum does not fit in a `usize`.
pub fn total_width(glyphs: &[PlacedGlyph]) -> (r: Option<usize>)
    ensures
        r.is_some() == (canvas_width(run_of(glyphs@)) <= usize::MAX),
        r matches Some(width) ==> width == canvas_width(run_of(glyphs@)),
{
    let mut width: usize = 0;
    let mut i: usize = 0;
    while i < glyphs.len()
        invariant
            0 <= i <= glyphs@.len(),
            width == pen_offset(run_of(glyphs@), i as int),
        decreases glyphs@.len() - i,
    {
        let advance: usize = glyphs[i].advance;
        if advance > usize::MAX - width {
            proof {
                lemma_pen_offset_monotone(run_of(glyphs@), i + 1, glyphs@.len() as int);
            }
            return None;
        }
        width = width + advance;
        i = i + 1;
    }
    Some(width)
}

/// The shared baseline of `glyphs`: their greatest bitmap height.
pub fn baseline_height(glyphs: &[PlacedGlyph]) -> (r: u32)
    ensures
        r == baseline(run_of(glyphs@)),
{
    let mut best: u32 = 0;
    let mut i: usize = 0;
    while i < glyphs.len()
        invariant
            0 <= i <= glyphs@.len(),
            best == baseline_upto(run_of(glyphs@), i as int),
        decreases glyphs@.len() - i,
    {
        match &glyphs[i].bitmap {
            Some(bitmap) => {
                let height: u32 = bitmap.height();
                if height > best {
                    best = height;
                }
            },
            None => {},
        }
        i = i + 1;
    }
    best
}

/// The vertical offset of a bitmap with top bearing `top` under `baseline`:
/// `baseline - top`, and zero where that would be negative.
pub fn offset_below(baseline: u32, top: i32) -> (r: u64)
    ensures
        r == vertical_offset(baseline as nat, top as int),
        r <= u32::MAX + 0x8000_0000,
{
    let gap: i64 = baseline as i64 - top as i64;
    if gap > 0 {
        gap as u64
    } else {
        0
    }
}

/// The height of the canvas for `glyphs` under `baseline`: their lowest
/// bottom edge.
pub fn total_height(glyphs: &[PlacedGlyph], baseline: u32) -> (r: u64)
    ensures
        r == height_upto(run_of(glyphs@), baseline as nat, glyphs@.len() as int),
{
    let mut best: u64 = 0;
    let mut i: usize = 0;
    while i < glyphs.len()
        invariant
            0 <= i <= glyphs@.len(),
            best == height_upto(run_of(glyphs@), baseline as nat, i as int),
        decreases glyphs@.len() - i,
    {
        match &glyphs[i].bitmap {
            Some(bitmap) => {
                let bottom: u64 = bitmap.height() as u64 + offset_below(baseline, bitmap.top());
                if bottom > best {
                    best = bottom;
                }
            },
            None => {},
        }
        i = i + 1;
    }
    best
}

/// The measures of a run of glyphs.
#[derive(Clone, Copy, Debug, PartialEq, Eq, Structural)]
pub struct Layout {
    /// Width of the canvas in pixels.
    pub width: usize,
    /// The shared baseline, in rows below the canvas's top.
    pub baseline: u32,
    /// Height of the canvas in pixels.
    pub height: usize,
}

/// Measures `glyphs`: the canvas's width, the shared baseline and the
/// canvas's height. `None` exactly where the canvas cannot be held in memory.
pub fn measure(glyphs: &[PlacedGlyph]) -> (r: Option<Layout>)
    ensures
        r.is_some() == fits_in_memory(run_of(glyphs@)),
        r matches Some(layout) ==> layout.width == canvas_width(run_of(glyphs@)) && layout.baseline
            == baseline(run_of(glyphs@)) && layout.height == canvas_height(run_of(glyphs@)),
{
    let baseline: u32 = baseline_height(glyphs);
    let tall: u64 = total_height(glyphs, baseline);
    match total_width(glyphs) {
        Some(width) => {
            if tall > usize::MAX as u64 {
                return None;
            }
            let height: usize = tall as usize;
            match width.checked_mul(height) {
                Some(_) => Some(Layout { width, baseline, height }),
                None => None,
            }
        },
        None => None,
    }
}

} // verus!
