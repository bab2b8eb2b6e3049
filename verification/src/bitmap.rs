//! Pixel grids in row-major order: RGB images and RGBA images with an alpha channel.
use vstd::prelude::*;
use crate::colors::Color;

verus! {

/// Index of the pixel at column `x` and row `y` in a row-major grid `width` pixels wide.
pub open spec fn pixel_index(width: int, x: int, y: int) -> int {
    y * width + x
}

/// The product of two 32-bit numbers, which always fits into 64 bits.
pub fn times(a: u32, b: u32) -> (product: u64)
    ensures
        product == a * b,
        product <= 0xFFFF_FFFE_0000_0001,
{
    assert(a * b <= 0xFFFF_FFFF * 0xFFFF_FFFF) by (nonlinear_arith)
        requires
            0 <= a <= 0xFFFF_FFFF,
            0 <= b <= 0xFFFF_FFFF,
    ;
    a as u64 * b as u64
}

/// An RGB image. Its view is the sequence of its pixels, row by row from the top,
/// each row from left to right.
#[derive(Debug)]
pub struct Image {
    width: u32,
    height: u32,
    pixels: Vec<Color>,
}

impl View for Image {
    type V = Seq<Color>;

    closed spec fn view(&self) -> Seq<Color> {
        self.pixels@
    }
}

impl Image {
    #[verifier::type_invariant]
    spec fn inv(&self) -> bool {
        self.pixels.len() == self.width * self.height
    }

    /// Number of columns.
    pub closed spec fn spec_width(&self) -> int {
        self.width as int
    }

    /// Number of rows.
    pub closed spec fn spec_height(&self) -> int {
        self.height as int
    }

    /// An image of the given size over `pixels`, if there is exactly one pixel per cell.
    pub fn new(width: u32, height: u32, pixels: Vec<Color>) -> (res: Option<Image>)
        ensures
            res is Some <==> pixels.len() == width * height,
            res matches Some(image) ==> image@ == pixels@ && image.spec_width() == width
                && image.spec_height() == height,
    {
        if pixels.len() as u64 == times(width, height) {
            Some(Image { width, height, pixels })
        } else {
            None
        }
    }

    /// An image of the given size over `pixels`, one pixel per cell.
    pub(crate) fn from_pixels(width: u32, height: u32, pixels: Vec<Color>) -> (image: Image)
        requires
            pixels.len() == width * height,
        ensures
            image@ == pixels@,
            image.spec_width() == width,
            image.spec_height() == height,
    {
        Image { width, height, pixels }
    }

    /// Number of columns.
    pub fn width(&self) -> (w: u32)
        ensures
            w == self.spec_width(),
    {
        self.width
    }

    /// Number of rows.
    pub fn height(&self) -> (h: u32)
        ensures
            h == self.spec_height(),
    {
        self.height
    }

    /// The pixels in row-major order.
    pub fn pixels(&self) -> (pixels: &Vec<Color>)
        ensures
            pixels@ == self@,
            pixels.len() == self.spec_width() * self.spec_height(),
    {
        proof {
            use_type_invariant(self);
        }
        &self.pixels
    }

    /// The pixel at column `x` and row `y`.
    pub fn get_pixel(&self, x: u32, y: u32) -> (c: Color)
        requires
            x < self.spec_width(),
            y < self.spec_height(),
        ensures
            0 <= pixel_index(self.spec_width(), x as int, y as int) < self@.len(),
            c == self@[pixel_index(self.spec_width(), x as int, y as int)],
    {
        proof {
            use_type_invariant(self);
            lemma_pixel_index_in_range(self.width as int, self.height as int, x as int, y as int);
        }
        self.pixels[y as usize * self.width as usize + x as usize]
    }
}

/// A cell inside a grid has an index below the number of cells.
pub proof fn lemma_pixel_index_in_range(width: int, height: int, x: int, y: int)
    requires
        0 <= x < width,
        0 <= y < height,
    ensures
        0 <= y * width <= pixel_index(width, x, y) < width * height,
{
    assert(y * width >= 0) by (nonlinear_arith)
        requires
            y >= 0,
            width >= 0,
    ;
    assert((y + 1) * width <= height * width) by (nonlinear_arith)
        requires
            y + 1 <= height,
            width >= 0,
    ;
    assert((y + 1) * width == y * width + width) by (nonlinear_arith);
    assert(height * width == width * height) by (nonlinear_arith);
}

/// An RGBA image. Its view is the sequence of its channel bytes: four per pixel
/// (red, green, blue, alpha), pixels in row-major order.
#[derive(Debug)]
pub struct RgbaImage {
    width: u32,
    height: u32,
    data: Vec<u8>,
}

impl View for RgbaImage {
    type V = Seq<u8>;

    closed spec fn view(&self) -> Seq<u8> {
        self.data@
    }
}

impl RgbaImage {
    #[verifier::type_invariant]
    spec fn inv(&self) -> bool {
        self.data.len() == 4 * (self.width * self.height)
    }

    /// Number of columns.
    pub closed spec fn spec_width(&self) -> int {
        self.width as int
    }

    /// Number of rows.
    pub closed spec fn spec_height(&self) -> int {
        self.height as int
    }

    /// An image of the given size over `data`, if there are exactly four bytes per cell.
    pub fn new(width: u32, height: u32, data: Vec<u8>) -> (res: Option<RgbaImage>)
        ensures
            res is Some <==> data.len() == 4 * (width * height),
            res matches Some(image) ==> image@ == data@ && image.spec_width() == width
                && image.spec_height() == height,
    {
        let cells: u128 = times(width, height) as u128;
        if data.len() as u128 == 4 * cells {
            Some(RgbaImage { width, height, data })
        } else {
            None
        }
    }

    /// Number of columns.
    pub fn width(&self) -> (w: u32)
        ensures
            w == self.spec_width(),
    {
        self.width
    }

    /// Number of rows.
    pub fn height(&self) -> (h: u32)
        ensures
            h == self.spec_height(),
    {
        self.height
    }

    /// The channel bytes, four per pixel, pixels in row-major order.
    pub fn data(&self) -> (data: &Vec<u8>)
        ensures
            data@ == self@,
            data.len() == 4 * (self.spec_width() * self.spec_height()),
    {
        proof {
            use_type_invariant(self);
        }
        &self.data
    }
}

} // verus!
