//! Geometry of the text terminal drawn with font glyphs: how many character
//! cells fit on the screen, and where each glyph is copied from and to.

use vstd::prelude::*;

use crate::texture::TextureRegion;

verus! {

/// A rectangle of a 16-bit addressed buffer.
#[derive(Clone, Copy, Debug, PartialEq, Eq)]
pub struct Rect16 {
    pub x: u16,
    pub y: u16,
    pub width: u16,
    pub height: u16,
}

/// Columns and rows of character cells on a `width` by `height` pixel screen,
/// with the character size taken to 16 bits.
pub fn terminal_size(width: u16, height: u16, char_width: u32, char_height: u32) -> (r: (u16, u16))
    requires
        char_width as u16 != 0,
        char_height as u16 != 0,
    ensures
        r.0 == width / (char_width as u16),
        r.1 == height / (char_height as u16),
{
    let w = width / (char_width as u16);
    let h = height / (char_height as u16);
    (w, h)
}

/// The screen rectangle of the character cell at column `col`, row `row`.
pub fn cell_rect(col: u16, row: u16, char_width: u32, char_height: u32) -> (r: Rect16)
    requires
        col * (char_width as u16) <= u16::MAX,
        row * (char_height as u16) <= u16::MAX,
    ensures
        r.x == col * (char_width as u16),
        r.y == row * (char_height as u16),
        r.width == char_width as u16,
        r.height == char_height as u16,
{
    let w = char_width as u16;
    let h = char_height as u16;
    Rect16 { x: col * w, y: row * h, width: w, height: h }
}

/// The rectangle of the font texture that a cached glyph is copied from.
pub fn glyph_source_rect(region: &TextureRegion) -> (r: Rect16)
    ensures
        r.x == region.x as u16,
        r.y == region.y as u16,
        r.width == region.width as u16,
        r.height == region.height as u16,
{
    Rect16 { x: region.x as u16, y: region.y as u16, width: region.width as u16, height: region.height as u16 }
}

} // verus!
