//! Lays rasterized glyphs out along a line of text and composites them into
//! one raster image.

pub mod bytes;
pub mod canvas;
pub mod compose;
pub mod font;
pub mod glyph;
pub mod layout;
