use glyph_compositor::bytes::elements_as_bytes;
use glyph_compositor::compose::compose;
use glyph_compositor::glyph::{GlyphBitmap, PlacedGlyph};

fn solid(width: u32, height: u32, left: i32, top: i32, value: u8) -> GlyphBitmap {
    let data = vec![value; (width * height) as usize];
    GlyphBitmap::new(width, height, left, top, data).unwrap()
}

fn with_bitmap(advance: usize, bitmap: GlyphBitmap) -> PlacedGlyph {
    PlacedGlyph { id: 0, advance, bitmap: Some(bitmap) }
}

fn without_bitmap(advance: usize) -> PlacedGlyph {
    PlacedGlyph { id: 0, advance, bitmap: None }
}

#[test]
fn two_glyphs_share_a_baseline() {
    let glyphs = vec![
        with_bitmap(10, solid(5, 8, 0, 8, 100)),
        with_bitmap(12, solid(4, 6, 0, 6, 50)),
    ];
    let done = compose(&glyphs).unwrap();
    assert_eq!(done.canvas.width(), 22);
    assert_eq!(done.baseline, 8);
    assert_eq!(done.canvas.height(), 8);
    assert_eq!(done.canvas.pixels().len(), 22 * 8);
    assert!(done.skipped.is_empty());
    // The first glyph starts at (0, 0) and fills 5 columns of 8 rows.
    assert_eq!(done.canvas.pixel(0, 0), Some([100, 100, 100, 100]));
    assert_eq!(done.canvas.pixel(4, 7), Some([100, 100, 100, 100]));
    assert_eq!(done.canvas.pixel(5, 0), Some([0, 0, 0, 0]));
    // The second starts at (10, 2); its tint holds red.
    assert_eq!(done.canvas.pixel(10, 1), Some([0, 0, 0, 0]));
    assert_eq!(done.canvas.pixel(9, 2), Some([0, 0, 0, 0]));
    assert_eq!(done.canvas.pixel(10, 2), Some([0, 50, 50, 50]));
    assert_eq!(done.canvas.pixel(13, 7), Some([0, 50, 50, 50]));
    assert_eq!(done.canvas.pixel(14, 2), Some([0, 0, 0, 0]));
}

#[test]
fn glyph_without_bitmap_still_moves_the_pen() {
    let glyphs = vec![
        with_bitmap(3, solid(2, 2, 0, 2, 10)),
        without_bitmap(7),
        with_bitmap(4, solid(2, 2, 0, 2, 20)),
    ];
    let done = compose(&glyphs).unwrap();
    assert_eq!(done.canvas.width(), 14);
    assert_eq!(done.canvas.height(), 2);
    assert_eq!(done.skipped, vec![1]);
    assert_eq!(done.canvas.pixel(0, 0), Some([10, 10, 10, 10]));
    for column in 2..10 {
        assert_eq!(done.canvas.pixel(column, 0), Some([0, 0, 0, 0]));
        assert_eq!(done.canvas.pixel(column, 1), Some([0, 0, 0, 0]));
    }
    // The third glyph has index 2: its tint holds green.
    assert_eq!(done.canvas.pixel(10, 0), Some([20, 0, 20, 20]));
    assert_eq!(done.canvas.pixel(11, 1), Some([20, 0, 20, 20]));
    assert_eq!(done.canvas.pixel(12, 0), Some([0, 0, 0, 0]));
}

#[test]
fn run_without_bitmaps_has_no_height() {
    let glyphs = vec![without_bitmap(5), without_bitmap(0), without_bitmap(9)];
    let done = compose(&glyphs).unwrap();
    assert_eq!(done.canvas.width(), 14);
    assert_eq!(done.canvas.height(), 0);
    assert_eq!(done.baseline, 0);
    assert!(done.canvas.pixels().is_empty());
    assert_eq!(done.skipped, vec![0, 1, 2]);
}

#[test]
fn empty_run_gives_empty_canvas() {
    let glyphs: Vec<PlacedGlyph> = Vec::new();
    let done = compose(&glyphs).unwrap();
    assert_eq!(done.canvas.width(), 0);
    assert_eq!(done.canvas.height(), 0);
    assert!(done.canvas.pixels().is_empty());
    assert!(done.skipped.is_empty());
}

#[test]
fn single_glyph_sits_at_its_offset() {
    // Height 5, top bearing 3: the baseline is 5, the offset 2, the canvas 7 high.
    let glyphs = vec![with_bitmap(4, solid(2, 5, 0, 3, 9))];
    let done = compose(&glyphs).unwrap();
    assert_eq!(done.baseline, 5);
    assert_eq!(done.canvas.height(), 7);
    assert_eq!(done.canvas.pixel(0, 1), Some([0, 0, 0, 0]));
    assert_eq!(done.canvas.pixel(0, 2), Some([9, 9, 9, 9]));
    assert_eq!(done.canvas.pixel(1, 6), Some([9, 9, 9, 9]));
}

#[test]
fn negative_top_bearing_lowers_the_glyph() {
    // Height 2, top bearing -3: the offset is 2 + 3 = 5, the canvas 7 high.
    let glyphs = vec![with_bitmap(2, solid(1, 2, 0, -3, 1))];
    let done = compose(&glyphs).unwrap();
    assert_eq!(done.canvas.height(), 7);
    assert_eq!(done.canvas.pixel(0, 4), Some([0, 0, 0, 0]));
    assert_eq!(done.canvas.pixel(0, 5), Some([1, 1, 1, 1]));
    assert_eq!(done.canvas.pixel(0, 6), Some([1, 1, 1, 1]));
}

#[test]
fn top_bearing_above_the_baseline_is_kept_at_the_top() {
    // Top bearing 10 over a baseline of 2: the offset stops at zero.
    let glyphs = vec![with_bitmap(2, solid(1, 2, 0, 10, 7))];
    let done = compose(&glyphs).unwrap();
    assert_eq!(done.baseline, 2);
    assert_eq!(done.canvas.height(), 2);
    assert_eq!(done.canvas.pixel(0, 0), Some([7, 7, 7, 7]));
    assert_eq!(done.canvas.pixel(0, 1), Some([7, 7, 7, 7]));
}

#[test]
fn overlapping_glyphs_stop_at_the_greatest_value() {
    // The first glyph has no advance, so the second lies on top of it.
    // The tint goes round after eight glyphs; the ninth holds nothing again.
    let mut glyphs = vec![with_bitmap(0, solid(2, 2, 0, 2, 200))];
    for _ in 0..7 {
        glyphs.push(without_bitmap(0));
    }
    glyphs.push(with_bitmap(2, solid(2, 2, 0, 2, 100)));
    let done = compose(&glyphs).unwrap();
    assert_eq!(done.canvas.width(), 2);
    for row in 0..2 {
        for column in 0..2 {
            assert_eq!(done.canvas.pixel(column, row), Some([255, 255, 255, 255]));
        }
    }
}

#[test]
fn overlapping_glyphs_add_up_below_the_greatest_value() {
    let glyphs = vec![
        with_bitmap(0, solid(1, 1, 0, 1, 100)),
        with_bitmap(1, solid(1, 1, 0, 1, 60)),
    ];
    let done = compose(&glyphs).unwrap();
    // The second glyph's tint holds red at 100.
    assert_eq!(done.canvas.pixel(0, 0), Some([100, 160, 160, 160]));
}

#[test]
fn composing_twice_gives_the_same_bytes() {
    let build = || {
        vec![
            with_bitmap(3, solid(3, 4, -1, 4, 77)),
            without_bitmap(2),
            with_bitmap(5, solid(4, 2, 1, 1, 33)),
        ]
    };
    let first = compose(&build()).unwrap();
    let second = compose(&build()).unwrap();
    assert_eq!(first.canvas.width(), second.canvas.width());
    assert_eq!(first.canvas.height(), second.canvas.height());
    assert_eq!(first.skipped, second.skipped);
    assert_eq!(
        elements_as_bytes(first.canvas.pixels()),
        elements_as_bytes(second.canvas.pixels())
    );
    assert!(!first.canvas.pixels().iter().all(|pixel| *pixel == [0, 0, 0, 0]));
}

#[test]
fn tint_goes_round_eight_values() {
    let mut glyphs = Vec::new();
    for _ in 0..10 {
        glyphs.push(with_bitmap(1, solid(1, 1, 0, 1, 40)));
    }
    let done = compose(&glyphs).unwrap();
    assert_eq!(done.canvas.width(), 10);
    assert_eq!(done.canvas.height(), 1);
    let expected: [[u8; 4]; 10] = [
        [40, 40, 40, 40],
        [0, 40, 40, 40],
        [40, 0, 40, 40],
        [0, 0, 40, 40],
        [40, 40, 0, 40],
        [0, 40, 0, 40],
        [40, 0, 0, 40],
        [0, 0, 0, 40],
        [40, 40, 40, 40],
        [0, 40, 40, 40],
    ];
    for index in 0..10 {
        assert_eq!(done.canvas.pixel(index, 0), Some(expected[index]));
    }
}

#[test]
fn bitmap_of_no_height_is_reported_and_counts_for_the_height() {
    // A bitmap of no height with top bearing -2 under a baseline of 3 ends at row 5.
    let glyphs = vec![
        with_bitmap(2, solid(2, 3, 0, 3, 5)),
        with_bitmap(4, solid(3, 0, 0, -2, 0)),
    ];
    let done = compose(&glyphs).unwrap();
    assert_eq!(done.baseline, 3);
    assert_eq!(done.canvas.width(), 6);
    assert_eq!(done.canvas.height(), 5);
    assert_eq!(done.skipped, vec![1]);
    assert_eq!(done.canvas.pixel(1, 2), Some([5, 5, 5, 5]));
    assert_eq!(done.canvas.pixel(1, 3), Some([0, 0, 0, 0]));
    assert_eq!(done.canvas.pixel(3, 4), Some([0, 0, 0, 0]));
}

#[test]
fn canvas_too_wide_for_memory_is_refused() {
    let glyphs = vec![without_bitmap(usize::MAX), without_bitmap(1)];
    assert!(compose(&glyphs).is_none());
}

#[test]
fn canvas_with_too_many_pixels_is_refused() {
    let glyphs = vec![with_bitmap(usize::MAX, solid(1, 2, 0, 2, 1))];
    assert!(compose(&glyphs).is_none());
}

#[test]
fn bitmap_on_a_canvas_of_no_width_draws_nothing() {
    let glyphs = vec![with_bitmap(0, solid(3, 3, 0, 3, 9))];
    let done = compose(&glyphs).unwrap();
    assert_eq!(done.canvas.width(), 0);
    assert_eq!(done.canvas.height(), 3);
    assert!(done.canvas.pixels().is_empty());
    assert!(done.skipped.is_empty());
}

#[test]
fn negative_bearing_puts_a_glyph_left_of_its_pen() {
    // The pen stands at column 2 for the second glyph; its bearing of -1
    // puts its one pixel in column 1. Its tint holds red.
    let glyphs = vec![without_bitmap(2), with_bitmap(1, solid(1, 1, -1, 1, 200))];
    let done = compose(&glyphs).unwrap();
    assert_eq!(done.canvas.width(), 3);
    assert_eq!(done.canvas.height(), 1);
    assert_eq!(done.canvas.pixel(0, 0), Some([0, 0, 0, 0]));
    assert_eq!(done.canvas.pixel(1, 0), Some([0, 200, 200, 200]));
    assert_eq!(done.canvas.pixel(2, 0), Some([0, 0, 0, 0]));
}

#[test]
fn negative_bearing_makes_neighbours_overlap() {
    // The second glyph starts one column left of its pen, on the last
    // column of the first: there both coverages add up.
    let glyphs = vec![
        with_bitmap(2, solid(2, 1, 0, 1, 100)),
        with_bitmap(2, solid(2, 1, -1, 1, 60)),
    ];
    let done = compose(&glyphs).unwrap();
    assert_eq!(done.canvas.width(), 4);
    assert_eq!(done.canvas.pixel(0, 0), Some([100, 100, 100, 100]));
    assert_eq!(done.canvas.pixel(1, 0), Some([100, 160, 160, 160]));
    assert_eq!(done.canvas.pixel(2, 0), Some([0, 60, 60, 60]));
    assert_eq!(done.canvas.pixel(3, 0), Some([0, 0, 0, 0]));
}

#[test]
fn negative_bearing_at_the_first_pen_stays_on_the_canvas() {
    let glyphs = vec![with_bitmap(3, solid(2, 1, -1, 1, 10))];
    let done = compose(&glyphs).unwrap();
    // Columns -1 and 0: the first lands on column 0 too.
    assert_eq!(done.canvas.pixel(0, 0), Some([20, 20, 20, 20]));
    assert_eq!(done.canvas.pixel(1, 0), Some([0, 0, 0, 0]));
}
