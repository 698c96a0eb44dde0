use glyph_compositor::glyph::{GlyphBitmap, PlacedGlyph};
use glyph_compositor::layout::{
    baseline_height, measure, offset_below, total_height, total_width, Layout,
};

fn glyph(advance: usize, height: u32, top: i32) -> PlacedGlyph {
    let bitmap = GlyphBitmap::new(1, height, 0, top, vec![0; height as usize]).unwrap();
    PlacedGlyph { id: 0, advance, bitmap: Some(bitmap) }
}

fn space(advance: usize) -> PlacedGlyph {
    PlacedGlyph { id: 0, advance, bitmap: None }
}

#[test]
fn bitmap_needs_enough_data() {
    assert!(GlyphBitmap::new(2, 3, 0, 0, vec![0; 5]).is_none());
    assert!(GlyphBitmap::new(2, 3, 0, 0, vec![0; 6]).is_some());
    assert!(GlyphBitmap::new(2, 3, 0, 0, vec![0; 7]).is_some());
    assert!(GlyphBitmap::new(0, 3, 0, 0, Vec::new()).is_some());
    assert!(GlyphBitmap::new(u32::MAX, u32::MAX, 0, 0, vec![0; 16]).is_none());
}

#[test]
fn bitmap_keeps_what_it_was_given() {
    let bitmap = GlyphBitmap::new(2, 3, -4, 5, vec![1, 2, 3, 4, 5, 6]).unwrap();
    assert_eq!(bitmap.width(), 2);
    assert_eq!(bitmap.height(), 3);
    assert_eq!(bitmap.left(), -4);
    assert_eq!(bitmap.top(), 5);
    assert_eq!(bitmap.data(), &[1, 2, 3, 4, 5, 6]);
}

#[test]
fn width_is_the_sum_of_the_advances() {
    assert_eq!(total_width(&[]), Some(0));
    assert_eq!(total_width(&[space(10), glyph(12, 6, 6), space(0)]), Some(22));
    assert_eq!(total_width(&[space(usize::MAX)]), Some(usize::MAX));
}

#[test]
fn width_that_does_not_fit_is_none() {
    assert_eq!(total_width(&[space(usize::MAX), space(1)]), None);
    assert_eq!(total_width(&[space(1), space(usize::MAX), space(0)]), None);
}

#[test]
fn baseline_is_the_greatest_height() {
    assert_eq!(baseline_height(&[]), 0);
    assert_eq!(baseline_height(&[space(3)]), 0);
    assert_eq!(baseline_height(&[glyph(1, 8, 8), space(3), glyph(1, 6, 6)]), 8);
    assert_eq!(baseline_height(&[glyph(1, 6, 6), glyph(1, 8, 8)]), 8);
}

#[test]
fn offset_is_the_baseline_less_the_top_bearing() {
    assert_eq!(offset_below(8, 6), 2);
    assert_eq!(offset_below(8, 8), 0);
    assert_eq!(offset_below(8, 9), 0);
    assert_eq!(offset_below(8, -3), 11);
    assert_eq!(offset_below(0, 0), 0);
    assert_eq!(offset_below(u32::MAX, i32::MIN), 4294967295 + 2147483648);
    assert_eq!(offset_below(0, i32::MAX), 0);
}

#[test]
fn height_is_the_lowest_bottom_edge() {
    assert_eq!(total_height(&[], 0), 0);
    assert_eq!(total_height(&[space(4)], 9), 0);
    assert_eq!(total_height(&[glyph(1, 8, 8), glyph(1, 6, 6)], 8), 8);
    // A descender: height 6, top bearing 2 under a baseline of 8 ends at row 12.
    assert_eq!(total_height(&[glyph(1, 8, 8), glyph(1, 6, 2)], 8), 12);
}

#[test]
fn measure_gives_width_baseline_and_height() {
    let glyphs = vec![glyph(10, 8, 8), glyph(12, 6, 6)];
    assert_eq!(measure(&glyphs), Some(Layout { width: 22, baseline: 8, height: 8 }));
    let spaces = vec![space(4), space(5)];
    assert_eq!(measure(&spaces), Some(Layout { width: 9, baseline: 0, height: 0 }));
}

#[test]
fn measure_refuses_what_does_not_fit() {
    assert_eq!(measure(&[space(usize::MAX), space(1)]), None);
    assert_eq!(measure(&[glyph(usize::MAX, 2, 2)]), None);
    assert_eq!(
        measure(&[glyph(usize::MAX, 1, 1)]),
        Some(Layout { width: usize::MAX, baseline: 1, height: 1 })
    );
}
