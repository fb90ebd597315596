//! Terminal colors to RGB, for the glyph renderer.

use vstd::prelude::*;

verus! {

/// A terminal color: the named ANSI colors, 24-bit RGB, or an entry of the
/// 256-color palette.
#[derive(Debug, Clone, Copy, PartialEq, Eq)]
pub enum Color {
    Reset,
    Black,
    Red,
    Green,
    Yellow,
    Blue,
    Magenta,
    Cyan,
    Gray,
    DarkGray,
    LightRed,
    LightGreen,
    LightYellow,
    LightBlue,
    LightMagenta,
    LightCyan,
    White,
    Rgb(u8, u8, u8),
    Indexed(u8),
}

/// A level of the 6x6x6 color cube: 0, or 55 plus 40 per step.
pub open spec fn cube_level(v: int) -> int {
    if v == 0 {
        0
    } else {
        55 + v * 40
    }
}

/// RGB of an entry of the 256-color palette: 16 system colors, the 6x6x6
/// color cube, and a grayscale ramp.
pub open spec fn spec_indexed_to_rgb(i: u8) -> (u8, u8, u8) {
    if i < 16 {
        match i {
            0 => (0, 0, 0),
            1 => (128, 0, 0),
            2 => (0, 128, 0),
            3 => (128, 128, 0),
            4 => (0, 0, 128),
            5 => (128, 0, 128),
            6 => (0, 128, 128),
            7 => (192, 192, 192),
            8 => (128, 128, 128),
            9 => (255, 0, 0),
            10 => (0, 255, 0),
            11 => (255, 255, 0),
            12 => (0, 0, 255),
            13 => (255, 0, 255),
            14 => (0, 255, 255),
            _ => (255, 255, 255),
        }
    } else if i <= 231 {
        let j = i - 16;
        (
            cube_level((j / 36) % 6) as u8,
            cube_level((j / 6) % 6) as u8,
            cube_level(j % 6) as u8,
        )
    } else {
        let gray = 8 + (i - 232) * 10;
        (gray as u8, gray as u8, gray as u8)
    }
}

/// RGB of a color, with the named colors as in the xterm palette.
pub open spec fn spec_color_to_rgb(color: Color) -> (u8, u8, u8) {
    match color {
        Color::Reset => (0, 0, 0),
        Color::Black => (0, 0, 0),
        Color::Red => (205, 0, 0),
        Color::Green => (0, 205, 0),
        Color::Yellow => (205, 205, 0),
        Color::Blue => (0, 0, 238),
        Color::Magenta => (205, 0, 205),
        Color::Cyan => (0, 205, 205),
        Color::Gray => (229, 229, 229),
        Color::DarkGray => (127, 127, 127),
        Color::LightRed => (255, 0, 0),
        Color::LightGreen => (0, 255, 0),
        Color::LightYellow => (255, 255, 0),
        Color::LightBlue => (92, 92, 255),
        Color::LightMagenta => (255, 0, 255),
        Color::LightCyan => (0, 255, 255),
        Color::White => (255, 255, 255),
        Color::Rgb(r, g, b) => (r, g, b),
        Color::Indexed(i) => spec_indexed_to_rgb(i),
    }
}

/// Opaque ARGB8888 of a color; `Reset` gives `reset` instead.
pub open spec fn spec_argb(color: Color, reset: u32) -> u32 {
    match color {
        Color::Reset => reset,
        _ => {
            let (r, g, b) = spec_color_to_rgb(color);
            (0xff * 0x1000000 + r * 0x10000 + g * 0x100 + b) as u32
        },
    }
}

fn scale(v: u8) -> (r: u8)
    requires
        v < 6,
    ensures
        r == cube_level(v as int),
{
    if v == 0 {
        0
    } else {
        55 + v * 40
    }
}

/// RGB of an entry of the 256-color palette.
pub fn indexed_to_rgb(i: u8) -> (r: (u8, u8, u8))
    ensures
        r == spec_indexed_to_rgb(i),
{
    match i {
        0 => (0, 0, 0),
        1 => (128, 0, 0),
        2 => (0, 128, 0),
        3 => (128, 128, 0),
        4 => (0, 0, 128),
        5 => (128, 0, 128),
        6 => (0, 128, 128),
        7 => (192, 192, 192),
        8 => (128, 128, 128),
        9 => (255, 0, 0),
        10 => (0, 255, 0),
        11 => (255, 255, 0),
        12 => (0, 0, 255),
        13 => (255, 0, 255),
        14 => (0, 255, 255),
        15 => (255, 255, 255),
        16..=231 => {
            let i = i - 16;
            let r = (i / 36) % 6;
            let g = (i / 6) % 6;
            let b = i % 6;
            (scale(r), scale(g), scale(b))
        },
        232..=255 => {
            let gray = 8 + (i - 232) * 10;
            (gray, gray, gray)
        },
    }
}

/// RGB of a terminal color.
pub fn ratatui_color_to_rgb(color: Color) -> (r: (u8, u8, u8))
    ensures
        r == spec_color_to_rgb(color),
{
    match color {
        Color::Reset => (0, 0, 0),
        Color::Black => (0, 0, 0),
        Color::Red => (205, 0, 0),
        Color::Green => (0, 205, 0),
        Color::Yellow => (205, 205, 0),
        Color::Blue => (0, 0, 238),
        Color::Magenta => (205, 0, 205),
        Color::Cyan => (0, 205, 205),
        Color::Gray => (229, 229, 229),
        Color::DarkGray => (127, 127, 127),
        Color::LightRed => (255, 0, 0),
        Color::LightGreen => (0, 255, 0),
        Color::LightYellow => (255, 255, 0),
        Color::LightBlue => (92, 92, 255),
        Color::LightMagenta => (255, 0, 255),
        Color::LightCyan => (0, 255, 255),
        Color::White => (255, 255, 255),
        Color::Rgb(r, g, b) => (r, g, b),
        Color::Indexed(i) => indexed_to_rgb(i),
    }
}

/// Opaque ARGB8888 of a color, or `reset` for [`Color::Reset`].
pub fn argb(color: Color, reset: u32) -> (r: u32)
    ensures
        r == spec_argb(color, reset),
{
    match color {
        Color::Reset => reset,
        _ => {
            let rgb = ratatui_color_to_rgb(color);
            let (r, g, b) = (rgb.0 as u32, rgb.1 as u32, rgb.2 as u32);
            let v = (0xffu32) << 24 | r << 16 | g << 8 | b;
            assert(v == 0xff * 0x1000000 + r * 0x10000 + g * 0x100 + b) by (bit_vector)
                requires
                    r < 256,
                    g < 256,
                    b < 256,
                    v == (0xffu32) << 24 | r << 16 | g << 8 | b,
            ;
            v
        },
    }
}

/// What each byte of an ARGB value holds: alpha is opaque, then red, green
/// and blue of the color; an RGB color gives back its own three channels,
/// and `Reset` gives the `reset` value unchanged.
pub proof fn lemma_argb_channels(color: Color, reset: u32)
    ensures
        color is Reset ==> spec_argb(color, reset) == reset,
        !(color is Reset) ==> {
            let w = spec_argb(color, reset);
            let (r, g, b) = spec_color_to_rgb(color);
            &&& w >> 24u32 == 0xffu32
            &&& (w >> 16u32) & 0xffu32 == r as u32
            &&& (w >> 8u32) & 0xffu32 == g as u32
            &&& w & 0xffu32 == b as u32
        },
        forall|r: u8, g: u8, b: u8|
            #![trigger spec_argb(Color::Rgb(r, g, b), reset)]
            {
                let w = spec_argb(Color::Rgb(r, g, b), reset);
                &&& (w >> 16u32) & 0xffu32 == r as u32
                &&& (w >> 8u32) & 0xffu32 == g as u32
                &&& w & 0xffu32 == b as u32
            },
{
    if !(color is Reset) {
        let (r, g, b) = spec_color_to_rgb(color);
        lemma_argb_bytes(r, g, b);
    }
    assert forall|r: u8, g: u8, b: u8|
        #![trigger spec_argb(Color::Rgb(r, g, b), reset)]
        {
            let w = spec_argb(Color::Rgb(r, g, b), reset);
            &&& (w >> 16u32) & 0xffu32 == r as u32
            &&& (w >> 8u32) & 0xffu32 == g as u32
            &&& w & 0xffu32 == b as u32
        } by {
        lemma_argb_bytes(r, g, b);
    }
}

proof fn lemma_argb_bytes(r: u8, g: u8, b: u8)
    ensures
        ({
            let w = (0xff * 0x1000000 + r * 0x10000 + g * 0x100 + b) as u32;
            &&& w >> 24u32 == 0xffu32
            &&& (w >> 16u32) & 0xffu32 == r as u32
            &&& (w >> 8u32) & 0xffu32 == g as u32
            &&& w & 0xffu32 == b as u32
        }),
{
    let rr = r as u32;
    let gg = g as u32;
    let bb = b as u32;
    let w = (0xff * 0x1000000 + r * 0x10000 + g * 0x100 + b) as u32;
    assert(w == 0xff000000u32 + rr * 0x10000 + gg * 0x100 + bb);
    assert({
        &&& w >> 24u32 == 0xffu32
        &&& (w >> 16u32) & 0xffu32 == rr
        &&& (w >> 8u32) & 0xffu32 == gg
        &&& w & 0xffu32 == bb
    }) by (bit_vector)
        requires
            rr < 256,
            gg < 256,
            bb < 256,
            w == 0xff000000u32 + rr * 0x10000 + gg * 0x100 + bb,
    ;
}

/// The step of a color cube level: 0 to 5 for 0, 95, 135, 175, 215, 255.
pub open spec fn level_step(v: u8) -> int {
    if v == 0 {
        0
    } else if v == 95 {
        1
    } else if v == 135 {
        2
    } else if v == 175 {
        3
    } else if v == 215 {
        4
    } else if v == 255 {
        5
    } else {
        -1
    }
}

/// The 256-color palette's cube and ramp: entry `i` from 16 to 231 is the
/// cube color whose red, green and blue steps are the base-6 digits of
/// `i - 16`, most significant first; the entries from 232 on are grays,
/// 8 for the first and 10 brighter per entry.
pub proof fn lemma_palette_cube_and_ramp(i: u8)
    ensures
        16 <= i <= 231 ==> {
            let (r, g, b) = spec_indexed_to_rgb(i);
            &&& 0 <= level_step(r) && 0 <= level_step(g) && 0 <= level_step(b)
            &&& i == 16 + 36 * level_step(r) + 6 * level_step(g) + level_step(b)
        },
        i >= 232 ==> {
            let (r, g, b) = spec_indexed_to_rgb(i);
            r == g && g == b && r == 8 + 10 * (i - 232)
        },
{
    if 16 <= i <= 231 {
        let j = (i - 16) as int;
        let q = j / 6;
        vstd::arithmetic::div_mod::lemma_fundamental_div_mod(j, 6);
        vstd::arithmetic::div_mod::lemma_fundamental_div_mod(q, 6);
        vstd::arithmetic::div_mod::lemma_div_denominator(j, 6, 6);
        assert(j / 36 == q / 6);
        assert(0 <= q / 6 < 6);
        assert((j / 36) % 6 == j / 36);
        assert((j / 6) % 6 == q % 6);
        let (r, g, b) = spec_indexed_to_rgb(i);
        assert(level_step(r) == q / 6);
        assert(level_step(g) == q % 6);
        assert(level_step(b) == j % 6);
    }
}

/// Foreground and background colors of a glyph: a reset foreground is opaque
/// white, a reset background fully transparent.
pub fn glyph_colors(fg: Color, bg: Color) -> (r: (u32, u32))
    ensures
        r == (spec_argb(fg, 0xffffffff), spec_argb(bg, 0)),
{
    (argb(fg, 0xffffffff), argb(bg, 0))
}

} // verus!
