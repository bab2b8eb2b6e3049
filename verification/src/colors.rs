//! The palette of the drawing surface: 22 fixed colors in two rows of eleven.
use vstd::prelude::*;

verus! {

/// A point on the screen where a click selects a palette color.
#[derive(PartialEq, Eq, Structural, Copy, Clone, Debug, Hash)]
pub struct ColorCoord {
    pub x: u32,
    pub y: u32,
}

/// A color as three 8-bit channels. Two colors are equal when all channels are.
#[derive(PartialEq, Eq, Structural, Copy, Clone, Debug, Hash)]
pub struct Color {
    pub r: u8,
    pub g: u8,
    pub b: u8,
}

/// Palette index of white, the eraser. The indices follow the picker: the light row
/// first, then the dark row.
pub const WHITE: usize = 0;

/// Palette index of light grey.
pub const LIGHT_GREY: usize = 1;

/// Palette index of light red.
pub const LIGHT_RED: usize = 2;

/// Palette index of light orange.
pub const LIGHT_ORANGE: usize = 3;

/// Palette index of light yellow.
pub const LIGHT_YELLOW: usize = 4;

/// Palette index of light green.
pub const LIGHT_GREEN: usize = 5;

/// Palette index of light cyan.
pub const LIGHT_CYAN: usize = 6;

/// Palette index of light blue.
pub const LIGHT_BLUE: usize = 7;

/// Palette index of light magenta.
pub const LIGHT_MAGENTA: usize = 8;

/// Palette index of light pink.
pub const LIGHT_PINK: usize = 9;

/// Palette index of light brown.
pub const LIGHT_BROWN: usize = 10;

/// Palette index of black.
pub const BLACK: usize = 11;

/// Palette index of dark grey.
pub const DARK_GREY: usize = 12;

/// Palette index of dark red.
pub const DARK_RED: usize = 13;

/// Palette index of dark orange.
pub const DARK_ORANGE: usize = 14;

/// Palette index of dark yellow.
pub const DARK_YELLOW: usize = 15;

/// Palette index of dark green.
pub const DARK_GREEN: usize = 16;

/// Palette index of dark cyan.
pub const DARK_CYAN: usize = 17;

/// Palette index of dark blue.
pub const DARK_BLUE: usize = 18;

/// Palette index of dark magenta.
pub const DARK_MAGENTA: usize = 19;

/// Palette index of dark pink.
pub const DARK_PINK: usize = 20;

/// Palette index of dark brown.
pub const DARK_BROWN: usize = 21;

/// Number of palette entries.
pub const PALETTE_SIZE: usize = 22;

/// Number of entries in one row of the color picker.
pub const PALETTE_COLUMNS: usize = 11;

/// The largest brightness a color can have.
pub const MAX_BRIGHTNESS: u32 = 765;

/// The palette in picker order: the light row from left to right, then the dark row.
pub open spec fn palette() -> Seq<Color> {
    seq![
        Color { r: 255, g: 255, b: 255 },
        Color { r: 139, g: 139, b: 139 },
        Color { r: 239, g: 19, b: 11 },
        Color { r: 255, g: 113, b: 0 },
        Color { r: 255, g: 228, b: 0 },
        Color { r: 0, g: 204, b: 0 },
        Color { r: 0, g: 178, b: 255 },
        Color { r: 35, g: 31, b: 211 },
        Color { r: 163, g: 0, b: 186 },
        Color { r: 211, g: 124, b: 170 },
        Color { r: 160, g: 82, b: 45 },
        Color { r: 0, g: 0, b: 0 },
        Color { r: 76, g: 76, b: 76 },
        Color { r: 116, g: 11, b: 7 },
        Color { r: 194, g: 56, b: 0 },
        Color { r: 232, g: 162, b: 0 },
        Color { r: 0, g: 85, b: 16 },
        Color { r: 0, g: 86, b: 158 },
        Color { r: 14, g: 8, b: 101 },
        Color { r: 85, g: 0, b: 105 },
        Color { r: 167, g: 85, b: 116 },
        Color { r: 99, g: 48, b: 13 },
    ]
}

/// The background color of the canvas. It is never drawn.
pub open spec fn eraser() -> Color {
    palette()[WHITE as int]
}

/// Whether `c` is one of the 22 palette colors.
pub open spec fn is_palette_color(c: Color) -> bool {
    exists|i: int| 0 <= i < PALETTE_SIZE && #[trigger] palette()[i] == c
}

/// Every pixel has a palette color.
pub open spec fn is_palette_image(pixels: Seq<Color>) -> bool {
    forall|k: int| 0 <= k < pixels.len() ==> is_palette_color(#[trigger] pixels[k])
}

/// The place of a palette color in picker order.
pub open spec fn palette_index_of(c: Color) -> int {
    choose|i: int| 0 <= i < PALETTE_SIZE && #[trigger] palette()[i] == c
}

impl Color {
    /// Sum of the three channels, between 0 and 765.
    pub open spec fn spec_brightness(self) -> int {
        self.r + self.g + self.b
    }

    /// Sum of the three channels.
    pub fn brightness(&self) -> (sum: u32)
        ensures
            sum == self.spec_brightness(),
            sum <= MAX_BRIGHTNESS,
    {
        self.r as u32 + self.g as u32 + self.b as u32
    }

    /// Whether this is the background color, which is never drawn.
    pub fn is_eraser(&self) -> (yes: bool)
        ensures
            yes == (*self == eraser()),
    {
        self.r == 255 && self.g == 255 && self.b == 255
    }
}

/// The palette entry at `index`, in picker order.
pub fn palette_color(index: usize) -> (c: Color)
    requires
        index < PALETTE_SIZE,
    ensures
        c == palette()[index as int],
{
    match index {
        0 => Color { r: 255, g: 255, b: 255 },
        1 => Color { r: 139, g: 139, b: 139 },
        2 => Color { r: 239, g: 19, b: 11 },
        3 => Color { r: 255, g: 113, b: 0 },
        4 => Color { r: 255, g: 228, b: 0 },
        5 => Color { r: 0, g: 204, b: 0 },
        6 => Color { r: 0, g: 178, b: 255 },
        7 => Color { r: 35, g: 31, b: 211 },
        8 => Color { r: 163, g: 0, b: 186 },
        9 => Color { r: 211, g: 124, b: 170 },
        10 => Color { r: 160, g: 82, b: 45 },
        11 => Color { r: 0, g: 0, b: 0 },
        12 => Color { r: 76, g: 76, b: 76 },
        13 => Color { r: 116, g: 11, b: 7 },
        14 => Color { r: 194, g: 56, b: 0 },
        15 => Color { r: 232, g: 162, b: 0 },
        16 => Color { r: 0, g: 85, b: 16 },
        17 => Color { r: 0, g: 86, b: 158 },
        18 => Color { r: 14, g: 8, b: 101 },
        19 => Color { r: 85, g: 0, b: 105 },
        20 => Color { r: 167, g: 85, b: 116 },
        _ => Color { r: 99, g: 48, b: 13 },
    }
}

/// The place of `c` in picker order, if it is a palette color.
pub fn find_palette_index(c: Color) -> (found: Option<usize>)
    ensures
        found is Some <==> is_palette_color(c),
        found matches Some(i) ==> i < PALETTE_SIZE && palette()[i as int] == c && i
            == palette_index_of(c),
{
    let mut i: usize = 0;
    while i < PALETTE_SIZE
        invariant
            i <= PALETTE_SIZE,
            forall|j: int| 0 <= j < i ==> #[trigger] palette()[j] != c,
        decreases PALETTE_SIZE - i,
    {
        if palette_color(i) == c {
            proof {
                let k = palette_index_of(c);
                if k != i {
                    lemma_palette_distinct(k, i as int);
                }
            }
            return Some(i);
        }
        i += 1;
    }
    None
}

/// No two palette entries share an RGB triple.
pub proof fn lemma_palette_distinct(i: int, j: int)
    requires
        0 <= i < PALETTE_SIZE,
        0 <= j < PALETTE_SIZE,
        i != j,
    ensures
        palette()[i] != palette()[j],
{
}

} // verus!
