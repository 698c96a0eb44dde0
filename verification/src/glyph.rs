//! The compositor's input: glyphs in shaping order, each with its advance in
//! whole pixels and, where rasterization gave one, its coverage bitmap.

use vstd::prelude::*;

verus! {

/// What a coverage bitmap is: its size, its bearings, and one coverage value
/// per pixel, row by row.
pub struct BitmapView {
    pub width: nat,
    pub height: nat,
    pub left: int,
    pub top: int,
    pub data: Seq<u8>,
}

impl BitmapView {
    /// The data holds a coverage value for every pixel of the rectangle.
    pub open spec fn well_formed(self) -> bool {
        self.width * self.height <= self.data.len()
    }

    /// The coverage value of the pixel in column `x` of row `y`.
    pub open spec fn coverage(self, x: int, y: int) -> u8
        recommends
            0 <= x < self.width,
            0 <= y < self.height,
    {
        self.data[y * self.width + x]
    }
}

/// A rasterized glyph: a rectangle of coverage values and where it lies
/// relative to the glyph's origin. Every value of this type holds at least
/// `width * height` coverage values.
#[derive(Debug)]
pub struct GlyphBitmap {
    width: u32,
    height: u32,
    left: i32,
    top: i32,
    data: Vec<u8>,
}

impl View for GlyphBitmap {
    type V = BitmapView;

    closed spec fn view(&self) -> BitmapView {
        BitmapView {
            width: self.width as nat,
            height: self.height as nat,
            left: self.left as int,
            top: self.top as int,
            data: self.data@,
        }
    }
}

impl GlyphBitmap {
    #[verifier::type_invariant]
    closed spec fn inv(&self) -> bool {
        self@.well_formed()
    }

    /// Width and height fit in 32 bits, the bearings in 32 bits with sign.
    pub proof fn lemma_bounds(&self)
        ensures
            self@.width <= u32::MAX,
            self@.height <= u32::MAX,
            i32::MIN <= self@.left <= i32::MAX,
            i32::MIN <= self@.top <= i32::MAX,
    {
    }

    /// A bitmap of the given size and bearings over `data`, or `None` where
    /// `data` holds fewer than `width * height` values.
    pub fn new(width: u32, height: u32, left: i32, top: i32, data: Vec<u8>) -> (r: Option<
        GlyphBitmap,
    >)
        ensures
            r.is_some() == (width * height <= data@.len()),
            r matches Some(b) ==> b@ == (BitmapView {
                width: width as nat,
                height: height as nat,
                left: left as int,
                top: top as int,
                data: data@,
            }),
    {
        assert(width * height <= u32::MAX * u32::MAX) by (nonlinear_arith)
            requires
                width <= u32::MAX,
                height <= u32::MAX,
        ;
        let area: u64 = (width as u64) * (height as u64);
        if area <= data.len() as u64 {
            Some(GlyphBitmap { width, height, left, top, data })
        } else {
            None
        }
    }

    /// Width in pixels.
    pub fn width(&self) -> (r: u32)
        ensures
            r == self@.width,
    {
        self.width
    }

    /// Height in pixels.
    pub fn height(&self) -> (r: u32)
        ensures
            r == self@.height,
    {
        self.height
    }

    /// Horizontal bearing: from the glyph's origin to the bitmap's left edge.
    pub fn left(&self) -> (r: i32)
        ensures
            r == self@.left,
    {
        self.left
    }

    /// Vertical bearing: from the baseline up to the bitmap's top edge.
    pub fn top(&self) -> (r: i32)
        ensures
            r == self@.top,
    {
        self.top
    }

    /// The coverage values, row by row.
    pub fn data(&self) -> (r: &[u8])
        ensures
            r@ == self@.data,
            self@.well_formed(),
    {
        proof {
            use_type_invariant(self);
        }
        self.data.as_slice()
    }
}

/// What a glyph of a run is: its identifier, its advance in whole pixels,
/// and its bitmap where it has one.
pub struct GlyphView {
    pub id: u16,
    pub advance: nat,
    pub bitmap: Option<BitmapView>,
}

/// One glyph of a shaped run, as the compositor takes it.
#[derive(Debug)]
pub struct PlacedGlyph {
    /// The glyph's identifier in its font.
    pub id: u16,
    /// How far the pen moves after this glyph, in whole pixels.
    pub advance: usize,
    /// The glyph's coverage, where rasterization gave any.
    pub bitmap: Option<GlyphBitmap>,
}

impl View for PlacedGlyph {
    type V = GlyphView;

    open spec fn view(&self) -> GlyphView {
        GlyphView {
            id: self.id,
            advance: self.advance as nat,
            bitmap: match self.bitmap {
                Some(bitmap) => Some(bitmap@),
                None => None,
            },
        }
    }
}

/// What a run of glyphs is: what each of its glyphs is, in shaping order.
pub open spec fn run_of(glyphs: Seq<PlacedGlyph>) -> Seq<GlyphView> {
    Seq::new(glyphs.len(), |i: int| glyphs[i]@)
}

} // verus!
