//! The canvas: a rectangle of RGBA pixels, row by row, onto which glyph
//! bitmaps are accumulated.
//!
//! A bitmap's coverage is added to each channel of the pixel it lands on and
//! stops at 255. A tint holds chosen colour channels at the value they had.
//! Pixel (`x`, `y`) of a bitmap lands in column `pen + x + left` and in row
//! `y` plus the bitmap's vertical offset. A negative left bearing thus
//! reaches left of the pen, onto what earlier glyphs drew. A pixel that
//! would land outside the canvas lands on its nearest edge instead: columns
//! are kept between the first and the last column, rows at or above the
//! last row.

use crate::glyph::{BitmapView, GlyphBitmap};
use crate::layout::{offset_below, vertical_offset};
use vstd::prelude::*;

verus! {

/// A channel after `coverage` has been accumulated onto it: unchanged where
/// the tint holds it, else the sum, and 255 where the sum is greater.
pub open spec fn channel_after(before: u8, coverage: nat, held: bool) -> u8 {
    if held {
        before
    } else if before + coverage > 255 {
        255u8
    } else {
        (before + coverage) as u8
    }
}

/// Whether `tint` holds `channel`: bit `channel` of the tint is set, for the
/// three colour channels. Alpha, channel 3, is never held.
pub open spec fn holds_channel(tint: u8, channel: u8) -> bool {
    channel < 3 && (tint >> channel) & 1 == 1
}

/// A pixel after `coverage` has been accumulated onto it under `tint`.
pub open spec fn tinted(pixel: [u8; 4], coverage: nat, tint: u8) -> [u8; 4] {
    [
        channel_after(pixel[0], coverage, holds_channel(tint, 0)),
        channel_after(pixel[1], coverage, holds_channel(tint, 1)),
        channel_after(pixel[2], coverage, holds_channel(tint, 2)),
        channel_after(pixel[3], coverage, holds_channel(tint, 3)),
    ]
}

/// Accumulating nothing leaves a pixel as it was.
pub proof fn lemma_tinted_nothing(pixel: [u8; 4], tint: u8)
    ensures
        tinted(pixel, 0, tint) == pixel,
{
    assert(tinted(pixel, 0, tint)@ =~= pixel@);
}

/// Accumulating in two steps gives what accumulating the sum gives.
pub proof fn lemma_tinted_twice(pixel: [u8; 4], first: nat, second: nat, tint: u8)
    ensures
        tinted(tinted(pixel, first, tint), second, tint) == tinted(pixel, first + second, tint),
{
    assert(tinted(tinted(pixel, first, tint), second, tint)@ =~= tinted(
        pixel,
        first + second,
        tint,
    )@);
}

/// Accumulation stops at 255 and never wraps: a channel that the tint does
/// not hold is 255 where the sum reaches 255, the sum itself where it does
/// not, and never less than it was. A channel that the tint holds keeps its
/// value.
pub proof fn lemma_channel_saturates(before: u8, coverage: nat)
    ensures
        before + coverage >= 255 ==> channel_after(before, coverage, false) == 255,
        before + coverage < 255 ==> channel_after(before, coverage, false) == before + coverage,
        channel_after(before, coverage, false) >= before,
        channel_after(before, coverage, true) == before,
{
}

/// The channels that a tint holds are those whose bit is set in it: red for
/// bit 0, green for bit 1, blue for bit 2. Alpha is never held.
pub proof fn lemma_held_channels(tint: u8)
    ensures
        holds_channel(tint, 0) == (tint % 2 == 1),
        holds_channel(tint, 1) == ((tint / 2) % 2 == 1),
        holds_channel(tint, 2) == ((tint / 4) % 2 == 1),
        !holds_channel(tint, 3),
{
    assert(((tint >> 0u8) & 1 == 1) == (tint % 2 == 1)) by (bit_vector);
    assert(((tint >> 1u8) & 1 == 1) == ((tint / 2) % 2 == 1)) by (bit_vector);
    assert(((tint >> 2u8) & 1 == 1) == ((tint / 4) % 2 == 1)) by (bit_vector);
}

/// Each channel of a pixel after accumulation is that channel accumulated
/// by itself.
pub proof fn lemma_tinted_channels(pixel: [u8; 4], coverage: nat, tint: u8)
    ensures
        forall|channel: u8|
            channel < 4 ==> #[trigger] tinted(pixel, coverage, tint)[channel as int]
                == channel_after(pixel[channel as int], coverage, holds_channel(tint, channel)),
{
}

/// Adds `coverage` to each channel of `pixel`, stopping at 255, and puts the
/// colour channels that `tint` holds back to what they were.
pub fn accumulate(pixel: [u8; 4], coverage: u8, tint: u8) -> (r: [u8; 4])
    ensures
        r == tinted(pixel, coverage as nat, tint),
{
    assert((tint & 0b001 > 0) == ((tint >> 0u8) & 1 == 1)) by (bit_vector);
    assert((tint & 0b010 > 0) == ((tint >> 1u8) & 1 == 1)) by (bit_vector);
    assert((tint & 0b100 > 0) == ((tint >> 2u8) & 1 == 1)) by (bit_vector);
    let mut out: [u8; 4] = [
        coverage.saturating_add(pixel[0]),
        coverage.saturating_add(pixel[1]),
        coverage.saturating_add(pixel[2]),
        coverage.saturating_add(pixel[3]),
    ];
    if tint & 0b001 > 0 {
        out[0] = pixel[0];
    }
    if tint & 0b010 > 0 {
        out[1] = pixel[1];
    }
    if tint & 0b100 > 0 {
        out[2] = pixel[2];
    }
    assert(out@ =~= tinted(pixel, coverage as nat, tint)@);
    out
}

/// What a canvas is: its size and its pixels, row by row.
pub struct CanvasView {
    pub width: nat,
    pub height: nat,
    pub pixels: Seq<[u8; 4]>,
}

impl CanvasView {
    /// There is one pixel for every place of the rectangle.
    pub open spec fn well_formed(self) -> bool {
        self.pixels.len() == self.width * self.height
    }

    /// The pixel in column `column` of row `row`.
    pub open spec fn pixel(self, column: int, row: int) -> [u8; 4]
        recommends
            0 <= column < self.width,
            0 <= row < self.height,
    {
        self.pixels[row * self.width + column]
    }
}

/// A canvas of the given size with every channel of every pixel at zero.
pub open spec fn blank(width: nat, height: nat) -> CanvasView {
    CanvasView { width, height, pixels: Seq::new(width * height, |i: int| [0u8, 0u8, 0u8, 0u8]) }
}

/// A bitmap held against a canvas: the pen's column, the baseline, and the
/// canvas's size. It says where each pixel of the bitmap lands.
pub struct Stamp {
    pub bitmap: BitmapView,
    pub pen: nat,
    pub baseline: nat,
    pub width: nat,
    pub height: nat,
}

impl Stamp {
    /// How many rows of the bitmap are drawn: all of them, or as many as the
    /// canvas has.
    pub open spec fn rows(self) -> nat {
        if self.bitmap.height < self.height {
            self.bitmap.height
        } else {
            self.height
        }
    }

    /// The canvas column on which column `x` of the bitmap lands: the pen's
    /// column plus `x` plus the left bearing, but not left of the first
    /// column and not right of the last.
    pub open spec fn column(self, x: int) -> int {
        let wanted = self.pen + x + self.bitmap.left;
        if wanted < 0 {
            0
        } else if wanted < self.width {
            wanted
        } else {
            self.width - 1
        }
    }

    /// The canvas row on which row `y` of the bitmap lands: `y` plus the
    /// bitmap's vertical offset, but not below the last row.
    pub open spec fn row(self, y: int) -> int {
        let lowered = y + vertical_offset(self.baseline, self.bitmap.top);
        if lowered < self.height {
            lowered
        } else {
            self.height - 1
        }
    }

    /// The place among the canvas's pixels on which pixel (`x`, `y`) of the
    /// bitmap lands.
    pub open spec fn index(self, x: int, y: int) -> int {
        self.row(y) * self.width + self.column(x)
    }

    /// What pixel (`x`, `y`) of the bitmap adds to the canvas pixel at
    /// `target`: its coverage where it lands there, else nothing.
    pub open spec fn share(self, target: int, x: int, y: int) -> nat {
        if self.index(x, y) == target {
            self.bitmap.coverage(x, y) as nat
        } else {
            0
        }
    }

    /// What the first `n` pixels of row `y` of the bitmap add to the canvas
    /// pixel at `target`.
    pub open spec fn row_coverage(self, target: int, y: int, n: int) -> nat
        decreases n,
    {
        if n <= 0 {
            0
        } else {
            self.row_coverage(target, y, n - 1) + self.share(target, n - 1, y)
        }
    }

    /// What the first `m` rows of the bitmap add to the canvas pixel at
    /// `target`.
    pub open spec fn coverage_upto(self, target: int, m: int) -> nat
        decreases m,
    {
        if m <= 0 {
            0
        } else {
            self.coverage_upto(target, m - 1) + self.row_coverage(
                target,
                m - 1,
                self.bitmap.width as int,
            )
        }
    }

    /// What the whole bitmap adds to the canvas pixel at `target`: the sum of
    /// the coverage of its pixels that land there.
    pub open spec fn coverage(self, target: int) -> nat {
        self.coverage_upto(target, self.rows() as int)
    }

    /// The bitmap lies wholly inside the canvas: its left edge is not left of
    /// the canvas, its right edge not right of it, and its bottom edge not
    /// below it.
    pub open spec fn fits(self) -> bool {
        &&& self.pen + self.bitmap.left >= 0
        &&& self.pen + self.bitmap.left + self.bitmap.width <= self.width
        &&& self.bitmap.height + vertical_offset(self.baseline, self.bitmap.top) <= self.height
    }

    /// Where the bitmap lies wholly inside the canvas, each of its pixels
    /// lands where the pen, the bearings and the baseline put it, and no two
    /// land on the same place.
    pub proof fn lemma_fitting_pixels_land_apart(self, x: int, y: int, u: int, v: int)
        requires
            self.fits(),
            0 <= x < self.bitmap.width,
            0 <= y < self.bitmap.height,
            0 <= u < self.bitmap.width,
            0 <= v < self.bitmap.height,
        ensures
            self.column(x) == self.pen + self.bitmap.left + x,
            self.row(y) == y + vertical_offset(self.baseline, self.bitmap.top),
            self.index(x, y) == self.index(u, v) ==> x == u && y == v,
    {
        let w = self.width as int;
        let (a, b) = (self.row(y), self.row(v));
        let (c, d) = (self.column(x), self.column(u));
        assert(a * w + c == b * w + d ==> a == b && c == d) by (nonlinear_arith)
            requires
                0 <= c < w,
                0 <= d < w,
        ;
    }

    /// Where the bitmap lies wholly inside the canvas, the first `n` pixels
    /// of row `y` add to the place of pixel (`u`, `v`) its coverage if it is
    /// among them, else nothing.
    pub proof fn lemma_fitting_row(self, u: int, v: int, y: int, n: int)
        requires
            self.fits(),
            0 <= u < self.bitmap.width,
            0 <= v < self.bitmap.height,
            0 <= y < self.bitmap.height,
            0 <= n <= self.bitmap.width,
        ensures
            self.row_coverage(self.index(u, v), y, n) == if y == v && u < n {
                self.bitmap.coverage(u, v) as nat
            } else {
                0
            },
        decreases n,
    {
        if n > 0 {
            self.lemma_fitting_row(u, v, y, n - 1);
            self.lemma_fitting_pixels_land_apart(n - 1, y, u, v);
        }
    }

    /// Where the bitmap lies wholly inside the canvas, the first `m` rows add
    /// to the place of pixel (`u`, `v`) its coverage if it is in them, else
    /// nothing.
    pub proof fn lemma_fitting_rows(self, u: int, v: int, m: int)
        requires
            self.fits(),
            0 <= u < self.bitmap.width,
            0 <= v < self.bitmap.height,
            0 <= m <= self.bitmap.height,
        ensures
            self.coverage_upto(self.index(u, v), m) == if v < m {
                self.bitmap.coverage(u, v) as nat
            } else {
                0
            },
        decreases m,
    {
        if m > 0 {
            self.lemma_fitting_rows(u, v, m - 1);
            self.lemma_fitting_row(u, v, m - 1, self.bitmap.width as int);
        }
    }

    /// A canvas pixel on which none of the first `n` pixels of row `y` lands
    /// gets nothing from them.
    pub proof fn lemma_row_misses(self, target: int, y: int, n: int)
        requires
            forall|x: int| 0 <= x < n ==> #[trigger] self.index(x, y) != target,
        ensures
            self.row_coverage(target, y, n) == 0,
        decreases n,
    {
        if n > 0 {
            self.lemma_row_misses(target, y, n - 1);
            assert(self.index(n - 1, y) != target);
        }
    }

    /// A canvas pixel on which no pixel of the first `m` rows lands gets
    /// nothing from them.
    pub proof fn lemma_rows_miss(self, target: int, m: int)
        requires
            forall|x: int, y: int|
                0 <= x < self.bitmap.width && 0 <= y < m ==> #[trigger] self.index(x, y) != target,
        ensures
            self.coverage_upto(target, m) == 0,
        decreases m,
    {
        if m > 0 {
            self.lemma_rows_miss(target, m - 1);
            self.lemma_row_misses(target, m - 1, self.bitmap.width as int);
        }
    }

    /// Every drawn pixel of the bitmap lands inside the canvas.
    pub proof fn lemma_index_in_canvas(self, x: int, y: int)
        requires
            self.width > 0,
            self.height > 0,
            0 <= x,
            0 <= y,
        ensures
            0 <= self.column(x) < self.width,
            0 <= self.row(y) < self.height,
            0 <= self.index(x, y) < self.width * self.height,
    {
        let r = self.row(y);
        let c = self.column(x);
        let w = self.width as int;
        let h = self.height as int;
        assert(r * w + c < w * h) by (nonlinear_arith)
            requires
                0 <= r <= h - 1,
                0 <= c <= w - 1,
        ;
        assert(0 <= r * w + c) by (nonlinear_arith)
            requires
                0 <= r,
                0 <= c,
                0 <= w,
        ;
    }
}

/// The canvas after a bitmap has been accumulated onto it with the pen at
/// column `pen`, under `baseline` and `tint`.
pub open spec fn blit_onto(
    canvas: CanvasView,
    bitmap: BitmapView,
    pen: nat,
    baseline: nat,
    tint: u8,
) -> CanvasView {
    let stamp = Stamp { bitmap, pen, baseline, width: canvas.width, height: canvas.height };
    CanvasView {
        width: canvas.width,
        height: canvas.height,
        pixels: Seq::new(
            canvas.pixels.len(),
            |i: int| tinted(canvas.pixels[i], stamp.coverage(i), tint),
        ),
    }
}

/// Blitting keeps the canvas's size and the number of its pixels, and each
/// pixel afterwards is the pixel before with the bitmap's coverage of that
/// place accumulated onto it.
pub proof fn lemma_blit_pixel(
    canvas: CanvasView,
    bitmap: BitmapView,
    pen: nat,
    baseline: nat,
    tint: u8,
    target: int,
)
    requires
        0 <= target < canvas.pixels.len(),
    ensures
        blit_onto(canvas, bitmap, pen, baseline, tint).width == canvas.width,
        blit_onto(canvas, bitmap, pen, baseline, tint).height == canvas.height,
        blit_onto(canvas, bitmap, pen, baseline, tint).pixels.len() == canvas.pixels.len(),
        blit_onto(canvas, bitmap, pen, baseline, tint).pixels[target] == tinted(
            canvas.pixels[target],
            (Stamp { bitmap, pen, baseline, width: canvas.width, height: canvas.height }).coverage(
                target,
            ),
            tint,
        ),
{
}

/// A bitmap that lies wholly inside the canvas is accumulated pixel for
/// pixel: pixel (`x`, `y`) of the bitmap lands in column `pen + left + x` of
/// row `y` plus the vertical offset, and that place takes up the coverage of
/// this one pixel.
pub proof fn lemma_blit_pixel_for_pixel(
    canvas: CanvasView,
    bitmap: BitmapView,
    pen: nat,
    baseline: nat,
    tint: u8,
    x: int,
    y: int,
)
    requires
        canvas.well_formed(),
        (Stamp { bitmap, pen, baseline, width: canvas.width, height: canvas.height }).fits(),
        0 <= x < bitmap.width,
        0 <= y < bitmap.height,
    ensures
        ({
            let column = pen + bitmap.left + x;
            let row = y + vertical_offset(baseline, bitmap.top);
            &&& 0 <= column < canvas.width
            &&& 0 <= row < canvas.height
            &&& blit_onto(canvas, bitmap, pen, baseline, tint).pixel(column, row) == tinted(
                canvas.pixel(column, row),
                bitmap.coverage(x, y) as nat,
                tint,
            )
        }),
{
    let stamp = Stamp { bitmap, pen, baseline, width: canvas.width, height: canvas.height };
    stamp.lemma_fitting_pixels_land_apart(x, y, x, y);
    stamp.lemma_index_in_canvas(x, y);
    stamp.lemma_fitting_rows(x, y, bitmap.height as int);
}

/// Blitting changes no pixel but those on which a pixel of the bitmap lands.
pub proof fn lemma_blit_leaves_the_rest(
    canvas: CanvasView,
    bitmap: BitmapView,
    pen: nat,
    baseline: nat,
    tint: u8,
    target: int,
)
    requires
        0 <= target < canvas.pixels.len(),
        forall|x: int, y: int|
            0 <= x < bitmap.width && 0 <= y < bitmap.height ==> #[trigger] (Stamp {
                bitmap,
                pen,
                baseline,
                width: canvas.width,
                height: canvas.height,
            }).index(x, y) != target,
    ensures
        blit_onto(canvas, bitmap, pen, baseline, tint).pixels[target] == canvas.pixels[target],
{
    let stamp = Stamp { bitmap, pen, baseline, width: canvas.width, height: canvas.height };
    stamp.lemma_rows_miss(target, stamp.rows() as int);
    lemma_tinted_nothing(canvas.pixels[target], tint);
}

/// Two bitmaps accumulated one after the other under one tint blend: each
/// pixel is the pixel before with the sum of both coverages accumulated onto
/// it, stopping at 255.
pub proof fn lemma_blit_twice(
    canvas: CanvasView,
    first: BitmapView,
    first_pen: nat,
    second: BitmapView,
    second_pen: nat,
    baseline: nat,
    tint: u8,
    target: int,
)
    requires
        0 <= target < canvas.pixels.len(),
    ensures
        blit_onto(
            blit_onto(canvas, first, first_pen, baseline, tint),
            second,
            second_pen,
            baseline,
            tint,
        ).pixels[target] == tinted(
            canvas.pixels[target],
            (Stamp {
                bitmap: first,
                pen: first_pen,
                baseline,
                width: canvas.width,
                height: canvas.height,
            }).coverage(target) + (Stamp {
                bitmap: second,
                pen: second_pen,
                baseline,
                width: canvas.width,
                height: canvas.height,
            }).coverage(target),
            tint,
        ),
{
    let one = Stamp {
        bitmap: first,
        pen: first_pen,
        baseline,
        width: canvas.width,
        height: canvas.height,
    };
    let two = Stamp {
        bitmap: second,
        pen: second_pen,
        baseline,
        width: canvas.width,
        height: canvas.height,
    };
    lemma_tinted_twice(canvas.pixels[target], one.coverage(target), two.coverage(target), tint);
}

/// A rectangle of RGBA pixels. Every value of this type holds exactly
/// `width * height` pixels.
#[derive(Debug)]
pub struct Canvas {
    width: usize,
    height: usize,
    pixels: Vec<[u8; 4]>,
}

impl View for Canvas {
    type V = CanvasView;

    closed spec fn view(&self) -> CanvasView {
        CanvasView { width: self.width as nat, height: self.height as nat, pixels: self.pixels@ }
    }
}

impl Canvas {
    #[verifier::type_invariant]
    closed spec fn inv(&self) -> bool {
        self@.well_formed()
    }

    /// A canvas of the given size with every pixel at zero, or `None` where
    /// the number of its pixels does not fit in a `usize`.
    pub fn new(width: usize, height: usize) -> (r: Option<Canvas>)
        ensures
            r.is_some() == (width * height <= usize::MAX),
            r matches Some(canvas) ==> canvas@ == blank(width as nat, height as nat),
    {
        match width.checked_mul(height) {
            Some(count) => {
                let pixels = vec![[0u8, 0u8, 0u8, 0u8]; count];
                let canvas = Canvas { width, height, pixels };
                assert forall|i: int| 0 <= i < count implies #[trigger] canvas@.pixels[i] == blank(
                    width as nat,
                    height as nat,
                ).pixels[i] by {
                    assert(canvas@.pixels[i]@ =~= [0u8, 0u8, 0u8, 0u8]@);
                }
                assert(canvas@.pixels =~= blank(width as nat, height as nat).pixels);
                Some(canvas)
            },
            None => None,
        }
    }

    /// Width in pixels.
    pub fn width(&self) -> (r: usize)
        ensures
            r == self@.width,
    {
        self.width
    }

    /// Height in pixels.
    pub fn height(&self) -> (r: usize)
        ensures
            r == self@.height,
    {
        self.height
    }

    /// The pixels, row by row.
    pub fn pixels(&self) -> (r: &[[u8; 4]])
        ensures
            r@ == self@.pixels,
            self@.well_formed(),
    {
        proof {
            use_type_invariant(self);
        }
        self.pixels.as_slice()
    }

    /// The pixel in column `column` of row `row`, or `None` where the canvas
    /// has no such place.
    pub fn pixel(&self, column: usize, row: usize) -> (r: Option<[u8; 4]>)
        ensures
            r.is_some() == (column < self@.width && row < self@.height),
            r matches Some(p) ==> p == self@.pixel(column as int, row as int),
    {
        proof {
            use_type_invariant(self);
        }
        if column < self.width && row < self.height {
            assert(0 <= row * self.width && row * self.width + column < self.width * self.height)
                by (nonlinear_arith)
                requires
                    0 <= row <= self.height - 1,
                    0 <= column <= self.width - 1,
            ;
            assert(self.width * self.height == self.pixels.len());
            Some(self.pixels[row * self.width + column])
        } else {
            None
        }
    }

    /// Accumulates `bitmap` onto the canvas with the pen at column `pen`,
    /// under `baseline` and `tint`.
    pub fn blit(&mut self, bitmap: &GlyphBitmap, pen: usize, baseline: u32, tint: u8)
        ensures
            final(self)@ == blit_onto(old(self)@, bitmap@, pen as nat, baseline as nat, tint),
    {
        proof {
            use_type_invariant(&*self);
            bitmap.lemma_bounds();
        }
        let ghost before = self@;
        let ghost stamp = Stamp {
            bitmap: bitmap@,
            pen: pen as nat,
            baseline: baseline as nat,
            width: before.width,
            height: before.height,
        };
        let cw: usize = self.width;
        let ch: usize = self.height;
        if cw == 0 || ch == 0 {
            assert(before.width * before.height == 0) by (nonlinear_arith)
                requires
                    before.width == 0 || before.height == 0,
            ;
            assert(self@.pixels =~= blit_onto(
                before,
                bitmap@,
                pen as nat,
                baseline as nat,
                tint,
            ).pixels);
            return ;
        }
        let data = bitmap.data();
        assert(data@.len() == data.len() && before.pixels.len() == self.pixels.len());
        let bw: usize = bitmap.width() as usize;
        let bh: usize = bitmap.height() as usize;
        let rows: usize = if bh < ch {
            bh
        } else {
            ch
        };
        let lower: u64 = offset_below(baseline, bitmap.top());
        let left: i64 = bitmap.left() as i64;
        let mut y: usize = 0;
        while y < rows
            invariant
                0 <= y <= rows,
                rows == stamp.rows(),
                rows <= bh,
                bw == bitmap@.width,
                bh == bitmap@.height,
                bw <= u32::MAX,
                bh <= u32::MAX,
                left == bitmap@.left,
                i32::MIN <= left <= i32::MAX,
                before.pixels.len() <= usize::MAX,
                data@.len() <= usize::MAX,
                lower == vertical_offset(baseline as nat, bitmap@.top),
                lower <= u32::MAX + 0x8000_0000,
                data@ == bitmap@.data,
                bitmap@.well_formed(),
                cw == before.width,
                ch == before.height,
                cw > 0,
                ch > 0,
                self.width == cw,
                self.height == ch,
                before.well_formed(),
                self.pixels@.len() == before.pixels.len(),
                stamp == (Stamp {
                    bitmap: bitmap@,
                    pen: pen as nat,
                    baseline: baseline as nat,
                    width: before.width,
                    height: before.height,
                }),
                forall|i: int|
                    0 <= i < before.pixels.len() ==> #[trigger] self.pixels@[i] == tinted(
                        before.pixels[i],
                        stamp.coverage_upto(i, y as int),
                        tint,
                    ),
            decreases rows - y,
        {
            let lowered: u64 = y as u64 + lower;
            let row: usize = if lowered < ch as u64 {
                lowered as usize
            } else {
                ch - 1
            };
            assert(row == stamp.row(y as int));
            let mut x: usize = 0;
            while x < bw
                invariant
                    0 <= x <= bw,
                    0 <= y < rows,
                    rows <= bh,
                    bw == bitmap@.width,
                    bh == bitmap@.height,
                    bw <= u32::MAX,
                    bh <= u32::MAX,
                    left == bitmap@.left,
                    i32::MIN <= left <= i32::MAX,
                    before.pixels.len() <= usize::MAX,
                    data@.len() <= usize::MAX,
                    data@ == bitmap@.data,
                    bitmap@.well_formed(),
                    cw == before.width,
                    ch == before.height,
                    cw > 0,
                    ch > 0,
                    self.width == cw,
                    self.height == ch,
                    before.well_formed(),
                    self.pixels@.len() == before.pixels.len(),
                    row == stamp.row(y as int),
                    stamp == (Stamp {
                        bitmap: bitmap@,
                        pen: pen as nat,
                        baseline: baseline as nat,
                        width: before.width,
                        height: before.height,
                    }),
                    forall|i: int|
                        0 <= i < before.pixels.len() ==> #[trigger] self.pixels@[i] == tinted(
                            before.pixels[i],
                            stamp.coverage_upto(i, y as int) + stamp.row_coverage(
                                i,
                                y as int,
                                x as int,
                            ),
                            tint,
                        ),
                decreases bw - x,
            {
                let shift: i64 = x as i64 + left;
                let column: usize = if shift >= 0 {
                    if pen >= cw - 1 {
                        cw - 1
                    } else if shift as u64 >= (cw - 1 - pen) as u64 {
                        cw - 1
                    } else {
                        pen + shift as usize
                    }
                } else {
                    let back: u64 = (-shift) as u64;
                    if back >= pen as u64 {
                        0
                    } else {
                        let wanted: usize = pen - back as usize;
                        if wanted < cw {
                            wanted
                        } else {
                            cw - 1
                        }
                    }
                };
                assert(column == stamp.column(x as int));
                proof {
                    stamp.lemma_index_in_canvas(x as int, y as int);
                    assert(0 <= y * bw && y * bw + x < bw * bh) by (nonlinear_arith)
                        requires
                            0 <= y <= bh - 1,
                            0 <= x <= bw - 1,
                    ;
                    assert(0 <= row * cw <= row * cw + column) by (nonlinear_arith)
                        requires
                            0 <= row,
                            0 <= cw,
                            0 <= column,
                    ;
                }
                let target: usize = row * cw + column;
                let source: usize = y * bw + x;
                let coverage: u8 = data[source];
                let ghost earlier = self.pixels@;
                let pixel: [u8; 4] = self.pixels[target];
                self.pixels[target] = accumulate(pixel, coverage, tint);
                proof {
                    assert(stamp.index(x as int, y as int) == target);
                    assert(stamp.bitmap.coverage(x as int, y as int) == coverage);
                    assert forall|i: int| 0 <= i < before.pixels.len() implies #[trigger] self.pixels@[i]
                        == tinted(
                        before.pixels[i],
                        stamp.coverage_upto(i, y as int) + stamp.row_coverage(
                            i,
                            y as int,
                            x as int + 1,
                        ),
                        tint,
                    ) by {
                        let sofar = stamp.coverage_upto(i, y as int) + stamp.row_coverage(
                            i,
                            y as int,
                            x as int,
                        );
                        assert(earlier[i] == tinted(before.pixels[i], sofar, tint));
                        if i == target {
                            lemma_tinted_twice(before.pixels[i], sofar, coverage as nat, tint);
                        }
                    }
                }
                x = x + 1;
            }
            y = y + 1;
        }
        assert(self@.pixels =~= blit_onto(
            before,
            bitmap@,
            pen as nat,
            baseline as nat,
            tint,
        ).pixels);
    }
}

} // verus!
