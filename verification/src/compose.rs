//! The compositor: from a run of glyphs to one canvas.
//!
//! The canvas is measured first. The glyphs are then taken in shaping order,
//! each accumulated with the pen where the advances before it put it, and
//! with a tint that goes round eight values, one step per glyph. A glyph
//! without a bitmap, or with one of no height, draws nothing, still moves
//! the pen, and is reported.

use crate::bytes::bytes_of;
use crate::canvas::{
    blank, blit_onto, channel_after, holds_channel, lemma_tinted_channels, lemma_tinted_nothing,
    Canvas, CanvasView, Stamp,
};
use crate::glyph::{run_of, BitmapView, GlyphView, PlacedGlyph};
use crate::layout::{
    baseline, bitmap_height, canvas_height, canvas_width, fits_in_memory,
    lemma_bitmap_within_height, lemma_no_bitmaps_no_height, lemma_pen_offset_monotone, measure,
    pen_offset, vertical_offset,
};
use vstd::prelude::*;

verus! {

/// The tint of the glyph at `index`: the index modulo eight.
pub open spec fn tint_of(index: int) -> u8 {
    (index % 8) as u8
}

/// The canvas after the first `n` glyphs of the run have been accumulated
/// onto the blank canvas measured for the whole run.
pub open spec fn composed_upto(glyphs: Seq<GlyphView>, n: int) -> CanvasView
    recommends
        0 <= n <= glyphs.len(),
    decreases n,
{
    if n <= 0 {
        blank(canvas_width(glyphs), canvas_height(glyphs))
    } else {
        let before = composed_upto(glyphs, n - 1);
        match glyphs[n - 1].bitmap {
            Some(bitmap) => blit_onto(
                before,
                bitmap,
                pen_offset(glyphs, n - 1),
                baseline(glyphs),
                tint_of(n - 1),
            ),
            None => before,
        }
    }
}

/// The canvas of the whole run.
pub open spec fn composition(glyphs: Seq<GlyphView>) -> CanvasView {
    composed_upto(glyphs, glyphs.len() as int)
}

/// The indices, in rising order, of the glyphs among the first `n` that draw
/// nothing: those without a bitmap and those whose bitmap has no height.
pub open spec fn skipped_upto(glyphs: Seq<GlyphView>, n: int) -> Seq<int>
    recommends
        0 <= n <= glyphs.len(),
    decreases n,
{
    if n <= 0 {
        Seq::empty()
    } else if bitmap_height(glyphs[n - 1]) == 0 {
        skipped_upto(glyphs, n - 1).push(n - 1)
    } else {
        skipped_upto(glyphs, n - 1)
    }
}

/// Indices as the integers they stand for.
pub open spec fn indices_of(indices: Seq<usize>) -> Seq<int> {
    indices.map_values(|i: usize| i as int)
}

/// A bitmap of no height leaves the canvas as it was.
pub proof fn lemma_blit_no_height(
    canvas: CanvasView,
    bitmap: BitmapView,
    pen: nat,
    baseline: nat,
    tint: u8,
)
    requires
        bitmap.height == 0,
    ensures
        blit_onto(canvas, bitmap, pen, baseline, tint) == canvas,
{
    let after = blit_onto(canvas, bitmap, pen, baseline, tint);
    assert forall|i: int| 0 <= i < canvas.pixels.len() implies #[trigger] after.pixels[i]
        == canvas.pixels[i] by {
        lemma_tinted_nothing(canvas.pixels[i], tint);
    }
    assert(after.pixels =~= canvas.pixels);
}

/// The size of the canvas does not change while glyphs are accumulated, and
/// it holds one pixel for every place.
pub proof fn lemma_composed_size(glyphs: Seq<GlyphView>, n: int)
    ensures
        composed_upto(glyphs, n).width == canvas_width(glyphs),
        composed_upto(glyphs, n).height == canvas_height(glyphs),
        composed_upto(glyphs, n).well_formed(),
    decreases n,
{
    if n > 0 {
        lemma_composed_size(glyphs, n - 1);
    }
}

/// A run in which no glyph has a bitmap has a canvas of no height and no
/// pixels, as wide as the sum of the advances; nothing is drawn, and every
/// glyph is reported.
pub proof fn lemma_run_without_bitmaps(glyphs: Seq<GlyphView>)
    requires
        forall|i: int| 0 <= i < glyphs.len() ==> (#[trigger] glyphs[i]).bitmap is None,
    ensures
        canvas_height(glyphs) == 0,
        composition(glyphs) == blank(pen_offset(glyphs, glyphs.len() as int), 0),
        composition(glyphs).pixels.len() == 0,
        skipped_upto(glyphs, glyphs.len() as int).len() == glyphs.len(),
        forall|i: int|
            0 <= i < glyphs.len() ==> #[trigger] skipped_upto(glyphs, glyphs.len() as int)[i] == i,
{
    lemma_no_bitmaps_no_height(glyphs, glyphs.len() as int);
    lemma_untouched_without_bitmaps(glyphs, glyphs.len() as int);
    assert(canvas_width(glyphs) * 0 == 0);
}

/// While the glyphs taken so far have no bitmap, the canvas is still blank
/// and each of them is reported.
pub proof fn lemma_untouched_without_bitmaps(glyphs: Seq<GlyphView>, n: int)
    requires
        0 <= n <= glyphs.len(),
        forall|i: int| 0 <= i < n ==> (#[trigger] glyphs[i]).bitmap is None,
    ensures
        composed_upto(glyphs, n) == blank(canvas_width(glyphs), canvas_height(glyphs)),
        skipped_upto(glyphs, n).len() == n,
        forall|i: int| 0 <= i < n ==> #[trigger] skipped_upto(glyphs, n)[i] == i,
    decreases n,
{
    if n > 0 {
        lemma_untouched_without_bitmaps(glyphs, n - 1);
        assert(glyphs[n - 1].bitmap is None);
    }
}

/// A glyph without a bitmap, or with a bitmap of no height, leaves the
/// canvas as it was and still moves the pen on by its advance.
pub proof fn lemma_skipped_glyph_moves_the_pen(glyphs: Seq<GlyphView>, index: int)
    requires
        0 <= index < glyphs.len(),
        bitmap_height(glyphs[index]) == 0,
    ensures
        composed_upto(glyphs, index + 1) == composed_upto(glyphs, index),
        pen_offset(glyphs, index + 1) == pen_offset(glyphs, index) + glyphs[index].advance,
{
    if glyphs[index].bitmap is Some {
        lemma_blit_no_height(
            composed_upto(glyphs, index),
            glyphs[index].bitmap.unwrap(),
            pen_offset(glyphs, index),
            baseline(glyphs),
            tint_of(index),
        );
    }
}

/// On the canvas measured for a run, every row of every bitmap of the run is
/// drawn, and row `y` lands exactly its vertical offset below row `y` of the
/// canvas: no row is moved to keep it inside.
pub proof fn lemma_rows_land_unmoved(glyphs: Seq<GlyphView>, i: int, y: int)
    requires
        0 <= i < glyphs.len(),
        glyphs[i].bitmap is Some,
        0 <= y < glyphs[i].bitmap.unwrap().height,
    ensures
        ({
            let bitmap = glyphs[i].bitmap.unwrap();
            let stamp = Stamp {
                bitmap,
                pen: pen_offset(glyphs, i),
                baseline: baseline(glyphs),
                width: canvas_width(glyphs),
                height: canvas_height(glyphs),
            };
            &&& stamp.rows() == bitmap.height
            &&& stamp.row(y) == y + vertical_offset(baseline(glyphs), bitmap.top)
            &&& stamp.row(y) < canvas_height(glyphs)
        }),
{
    lemma_bitmap_within_height(glyphs, i);
}

/// The canvas of a run depends on what its glyphs are and on nothing else:
/// two runs that are the same glyph by glyph, wherever each is stored, have
/// the same canvas and the same bytes.
pub proof fn lemma_same_run_same_canvas(first: Seq<PlacedGlyph>, second: Seq<PlacedGlyph>)
    requires
        first.len() == second.len(),
        forall|i: int| 0 <= i < first.len() ==> (#[trigger] first[i])@ == second[i]@,
    ensures
        composition(run_of(first)) == composition(run_of(second)),
        bytes_of(composition(run_of(first)).pixels) == bytes_of(
            composition(run_of(second)).pixels,
        ),
        skipped_upto(run_of(first), first.len() as int) == skipped_upto(
            run_of(second),
            second.len() as int,
        ),
{
    assert(run_of(first) =~= run_of(second));
}

/// The glyph at `index` is accumulated under the tint `index % 8`. A colour
/// channel whose bit is set in that tint keeps, in every pixel, the value it
/// had before the glyph; every other channel, alpha always among them, takes
/// up the glyph's coverage of that pixel, stopping at 255.
pub proof fn lemma_tint_cycles(glyphs: Seq<GlyphView>, index: int, target: int, channel: u8)
    requires
        0 <= index < glyphs.len(),
        glyphs[index].bitmap is Some,
        0 <= target < canvas_width(glyphs) * canvas_height(glyphs),
        channel < 4,
    ensures
        ({
            let before = composed_upto(glyphs, index).pixels[target][channel as int];
            let after = composed_upto(glyphs, index + 1).pixels[target][channel as int];
            let stamp = Stamp {
                bitmap: glyphs[index].bitmap.unwrap(),
                pen: pen_offset(glyphs, index),
                baseline: baseline(glyphs),
                width: canvas_width(glyphs),
                height: canvas_height(glyphs),
            };
            let tint = (index % 8) as u8;
            &&& holds_channel(tint, channel) ==> after == before
            &&& !holds_channel(tint, channel) ==> after == channel_after(
                before,
                stamp.coverage(target),
                false,
            )
            &&& channel == 3 ==> !holds_channel(tint, channel)
        }),
{
    lemma_composed_size(glyphs, index);
    let canvas = composed_upto(glyphs, index);
    let stamp = Stamp {
        bitmap: glyphs[index].bitmap.unwrap(),
        pen: pen_offset(glyphs, index),
        baseline: baseline(glyphs),
        width: canvas_width(glyphs),
        height: canvas_height(glyphs),
    };
    lemma_tinted_channels(canvas.pixels[target], stamp.coverage(target), tint_of(index));
}

/// What the compositor hands back.
#[derive(Debug)]
pub struct Composition {
    /// The canvas with every glyph accumulated onto it.
    pub canvas: Canvas,
    /// The shared baseline, in rows below the canvas's top.
    pub baseline: u32,
    /// The indices of the glyphs that drew nothing, in rising order.
    pub skipped: Vec<usize>,
}

/// Composites `glyphs` into one canvas. The result is `None` exactly where
/// the canvas cannot be held in memory.
pub fn compose(glyphs: &[PlacedGlyph]) -> (r: Option<Composition>)
    ensures
        r.is_some() == fits_in_memory(run_of(glyphs@)),
        r matches Some(done) ==> done.canvas@ == composition(run_of(glyphs@)) && done.baseline
            == baseline(run_of(glyphs@)) && indices_of(done.skipped@) == skipped_upto(
            run_of(glyphs@),
            glyphs@.len() as int,
        ),
{
    let ghost run = run_of(glyphs@);
    let layout = match measure(glyphs) {
        Some(layout) => layout,
        None => {
            return None;
        },
    };
    let mut canvas = match Canvas::new(layout.width, layout.height) {
        Some(canvas) => canvas,
        None => {
            return None;
        },
    };
    let mut skipped: Vec<usize> = Vec::new();
    let mut pen: usize = 0;
    let mut tint: u8 = 0;
    let mut i: usize = 0;
    while i < glyphs.len()
        invariant
            0 <= i <= glyphs@.len(),
            run == run_of(glyphs@),
            canvas_width(run) <= usize::MAX,
            layout.baseline == baseline(run),
            canvas@ == composed_upto(run, i as int),
            pen == pen_offset(run, i as int),
            tint == tint_of(i as int),
            indices_of(skipped@) == skipped_upto(run, i as int),
        decreases glyphs@.len() - i,
    {
        let glyph = &glyphs[i];
        assert(run[i as int] == glyph@);
        assert(indices_of(skipped@.push(i)) =~= indices_of(skipped@).push(i as int));
        match &glyph.bitmap {
            Some(bitmap) => {
                if bitmap.height() == 0 {
                    proof {
                        lemma_blit_no_height(
                            canvas@,
                            bitmap@,
                            pen as nat,
                            layout.baseline as nat,
                            tint,
                        );
                    }
                    skipped.push(i);
                } else {
                    canvas.blit(bitmap, pen, layout.baseline, tint);
                }
            },
            None => {
                skipped.push(i);
            },
        }
        proof {
            lemma_pen_offset_monotone(run, i + 1, run.len() as int);
        }
        pen = pen + glyph.advance;
        tint = (tint + 1) % 8;
        i = i + 1;
    }
    Some(Composition { canvas, baseline: layout.baseline, skipped })
}

} // verus!
