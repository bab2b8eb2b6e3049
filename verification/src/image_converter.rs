//! From a decoded picture to a palette image of the size of the canvas.
use vstd::prelude::*;
use crate::bitmap::{times, Image, RgbaImage};
use crate::color_map::{lemma_nearest_fixed_point, nearest};
use crate::colors::{is_palette_image, palette, Color};
use crate::dither::{
    dithered, lemma_dithered_first_pixel, lemma_dithered_is_palette_image,
    lemma_quantized_is_palette_image, quantize, quantized,
};

verus! {

/// Side of the square of screen pixels that one image pixel covers on the canvas.
pub const PIXEL_SIZE: u32 = 3;

/// Side of the square that the preview of a picture must fit into.
pub const PREVIEW_SIZE: u32 = 150;

/// Whether resizing goes by the new width (and derives the height) rather than by
/// the new height.
pub open spec fn resize_uses_width(
    width: int,
    height: int,
    nwidth: int,
    nheight: int,
    fill: bool,
) -> bool {
    if fill {
        nwidth * height > width * nheight
    } else {
        nwidth * height <= width * nheight
    }
}

/// The size that keeps the aspect ratio of `width` x `height` and, without `fill`,
/// is the largest that fits into `nwidth` x `nheight`; with `fill`, the smallest that
/// covers it. A side that would exceed `u32::MAX` is cut to it, and the other side
/// is shrunk by the same factor.
pub open spec fn resized(width: int, height: int, nwidth: int, nheight: int, fill: bool) -> (
    int,
    int,
) {
    if resize_uses_width(width, height, nwidth, nheight, fill) {
        let intermediate = height * nwidth / width;
        if intermediate <= u32::MAX {
            (nwidth, intermediate)
        } else {
            (nwidth * u32::MAX / intermediate, u32::MAX as int)
        }
    } else {
        let intermediate = width * nheight / height;
        if intermediate <= u32::MAX {
            (intermediate, nheight)
        } else {
            (u32::MAX as int, nheight * u32::MAX / intermediate)
        }
    }
}

/// The side that resizing divides by is not zero.
pub open spec fn resize_defined(
    width: int,
    height: int,
    nwidth: int,
    nheight: int,
    fill: bool,
) -> bool {
    if resize_uses_width(width, height, nwidth, nheight, fill) {
        width != 0
    } else {
        height != 0
    }
}

/// Without `fill`, the resized image fits into the new bounds.
pub proof fn lemma_resized_fits(width: int, height: int, nwidth: int, nheight: int)
    requires
        0 <= width <= u32::MAX,
        0 <= height <= u32::MAX,
        0 <= nwidth <= u32::MAX,
        0 <= nheight <= u32::MAX,
        resize_defined(width, height, nwidth, nheight, false),
    ensures
        0 <= resized(width, height, nwidth, nheight, false).0 <= nwidth,
        0 <= resized(width, height, nwidth, nheight, false).1 <= nheight,
{
    if resize_uses_width(width, height, nwidth, nheight, false) {
        lemma_quotient_bound(height * nwidth, width, nheight);
    } else {
        lemma_quotient_bound(width * nheight, height, nwidth);
    }
}

proof fn lemma_quotient_bound(a: int, d: int, q: int)
    requires
        0 <= a <= d * q,
        0 < d,
    ensures
        0 <= a / d <= q,
{
    vstd::arithmetic::div_mod::lemma_div_is_ordered(a, d * q, d);
    vstd::arithmetic::div_mod::lemma_div_multiples_vanish(q, d);
    vstd::arithmetic::div_mod::lemma_div_pos_is_pos(a, d);
}

proof fn lemma_shrunk_side(n: int, intermediate: int)
    requires
        0 <= n <= u32::MAX,
        u32::MAX < intermediate,
    ensures
        0 <= n * u32::MAX / intermediate <= n,
{
    assert(0 <= n * u32::MAX <= intermediate * n) by (nonlinear_arith)
        requires
            0 <= n,
            u32::MAX < intermediate,
    ;
    lemma_quotient_bound(n * u32::MAX, intermediate, n);
}

/// Calculates the width and height an image should be resized to.
pub fn resize_dimensions(width: u32, height: u32, nwidth: u32, nheight: u32, fill: bool) -> (res: (
    u32,
    u32,
))
    requires
        resize_defined(width as int, height as int, nwidth as int, nheight as int, fill),
    ensures
        res.0 == resized(width as int, height as int, nwidth as int, nheight as int, fill).0,
        res.1 == resized(width as int, height as int, nwidth as int, nheight as int, fill).1,
        !fill ==> res.0 <= nwidth && res.1 <= nheight,
{
    let ratio: u64 = times(width, nheight);
    let nratio: u64 = times(nwidth, height);

    let use_width = if fill {
        nratio > ratio
    } else {
        nratio <= ratio
    };
    proof {
        if !fill {
            lemma_resized_fits(width as int, height as int, nwidth as int, nheight as int);
        }
    }
    if use_width {
        let intermediate: u64 = times(height, nwidth) / (width as u64);
        if intermediate <= u32::MAX as u64 {
            (nwidth, intermediate as u32)
        } else {
            proof {
                lemma_shrunk_side(nwidth as int, intermediate as int);
            }
            ((times(nwidth, u32::MAX) / intermediate) as u32, u32::MAX)
        }
    } else {
        let intermediate: u64 = times(width, nheight) / (height as u64);
        if intermediate <= u32::MAX as u64 {
            (intermediate as u32, nheight)
        } else {
            proof {
                lemma_shrunk_side(nheight as int, intermediate as int);
            }
            (u32::MAX, (times(nheight, u32::MAX) / intermediate) as u32)
        }
    }
}

/// The size of the image to draw on a canvas of the given size: the largest with the
/// aspect ratio of the picture that fits when one image pixel covers a square of
/// [`PIXEL_SIZE`] screen pixels.
pub fn thumbnail_dimensions(width: u32, height: u32, canvas_width: u32, canvas_height: u32) -> (res:
    (u32, u32))
    requires
        resize_defined(
            width as int,
            height as int,
            canvas_width as int / PIXEL_SIZE as int,
            canvas_height as int / PIXEL_SIZE as int,
            false,
        ),
    ensures
        res.0 == resized(
            width as int,
            height as int,
            canvas_width as int / PIXEL_SIZE as int,
            canvas_height as int / PIXEL_SIZE as int,
            false,
        ).0,
        res.1 == resized(
            width as int,
            height as int,
            canvas_width as int / PIXEL_SIZE as int,
            canvas_height as int / PIXEL_SIZE as int,
            false,
        ).1,
        res.0 <= canvas_width / PIXEL_SIZE,
        res.1 <= canvas_height / PIXEL_SIZE,
{
    resize_dimensions(width, height, canvas_width / PIXEL_SIZE, canvas_height / PIXEL_SIZE, false)
}

/// As [`thumbnail_dimensions`], for any picture: nothing where the picture has no
/// side to go by.
pub fn checked_thumbnail_dimensions(
    width: u32,
    height: u32,
    canvas_width: u32,
    canvas_height: u32,
) -> (res: Option<(u32, u32)>)
    ensures
        res is Some <==> resize_defined(
            width as int,
            height as int,
            canvas_width as int / PIXEL_SIZE as int,
            canvas_height as int / PIXEL_SIZE as int,
            false,
        ),
        res matches Some(size) ==> size.0 == resized(
            width as int,
            height as int,
            canvas_width as int / PIXEL_SIZE as int,
            canvas_height as int / PIXEL_SIZE as int,
            false,
        ).0 && size.1 == resized(
            width as int,
            height as int,
            canvas_width as int / PIXEL_SIZE as int,
            canvas_height as int / PIXEL_SIZE as int,
            false,
        ).1,
{
    let nwidth = canvas_width / PIXEL_SIZE;
    let nheight = canvas_height / PIXEL_SIZE;
    let uses_width = times(nwidth, height) <= times(width, nheight);
    if (uses_width && width == 0) || (!uses_width && height == 0) {
        None
    } else {
        Some(resize_dimensions(width, height, nwidth, nheight, false))
    }
}

/// The longest side of a picture that a thumbnail with pixels is made of: up to
/// here single precision, in which the blocks are laid out, holds every column and
/// row exactly.
pub const MAX_PICTURE_SIDE: u32 = 16_777_216;

/// The largest number of pixels in the block of the picture behind one pixel of a
/// thumbnail. A thumbnail pixel is the average of its block, and the sum of a
/// channel over a block of this size still fits into 32 bits.
pub const MAX_BLOCK_PIXELS: u64 = 16_777_216;

/// No more than the pixels in the block of the picture behind one pixel of the
/// thumbnail: a block is at most three columns wider than the quotient of the
/// widths, and at most three rows higher than the quotient of the heights.
pub open spec fn block_pixels(width: int, height: int, new_width: int, new_height: int) -> int {
    (width / new_width + 3) * (height / new_height + 3)
}

/// Whether a picture of the given size can be made a thumbnail of the new size.
/// The lengths of a row and of the whole buffer, for the picture and for the
/// thumbnail, are numbers of the machine. A thumbnail with rows has a picture with
/// rows to come from. A thumbnail with pixels has a picture with columns, whose
/// sides are at most [`MAX_PICTURE_SIDE`] and whose blocks hold at most
/// [`MAX_BLOCK_PIXELS`] pixels.
pub open spec fn convertible(width: int, height: int, new_width: int, new_height: int) -> bool {
    &&& 4 * width <= usize::MAX
    &&& 4 * new_width <= usize::MAX
    &&& 4 * (new_width * new_height) <= usize::MAX
    &&& (new_height > 0 ==> height > 0)
    &&& (new_width > 0 && new_height > 0 ==> {
        &&& width > 0
        &&& width <= MAX_PICTURE_SIDE
        &&& height <= MAX_PICTURE_SIDE
        &&& block_pixels(width, height, new_width, new_height) <= MAX_BLOCK_PIXELS
    })
}

/// The channel bytes (four per pixel) of the thumbnail that
/// `image::imageops::thumbnail` makes of an RGBA image of the given size and bytes,
/// at the new size.
pub uninterp spec fn thumbnail_of(
    width: u32,
    height: u32,
    rgba: Seq<u8>,
    new_width: u32,
    new_height: u32,
) -> Seq<u8>;

/// The luma that `image::imageops::grayscale` gives a pixel with the given channels.
pub uninterp spec fn luma_of(r: u8, g: u8, b: u8) -> u8;

/// Calls `image::imageops::thumbnail` on the RGBA image with the given size and bytes.
/// The result is a function of the arguments alone and is known here only by its name;
/// the buffer that comes back has four bytes for each pixel of the new size. Left out
/// are the inputs on which the outside function fails. It multiplies four by the
/// width before anything else, for the picture and for the thumbnail, and gives up
/// where that has no place in `usize`, also for an image without rows. For a
/// thumbnail with rows it subtracts one from the picture's height, and for each of
/// its pixels one from the picture's width. It sums each channel over a block of
/// the picture in 32 bits; the block's columns run between the rounded-up ends
/// `x * ratio` and `x * ratio + ratio`, taken in single precision, which are at
/// most the quotient of the widths plus three apart as long as the picture's sides
/// are held exactly, and likewise for its rows.
#[verifier::external_body]
fn thumbnail_bytes(width: u32, height: u32, rgba: &Vec<u8>, new_width: u32, new_height: u32) -> (out:
    Vec<u8>)
    requires
        rgba.len() == 4 * (width * height),
        convertible(width as int, height as int, new_width as int, new_height as int),
    ensures
        out@ == thumbnail_of(width, height, rgba@, new_width, new_height),
        out.len() == 4 * (new_width * new_height),
{
    let source: image::ImageBuffer<image::Rgba<u8>, &[u8]> = image::ImageBuffer::from_raw(
        width,
        height,
        rgba.as_slice(),
    ).unwrap();
    image::imageops::thumbnail(&source, new_width, new_height).into_raw()
}

/// Calls `image::imageops::grayscale` on the RGB image with the given size and bytes.
/// The buffer that comes back has one byte for each pixel: the pixel's luma, which
/// is a function of its three channels alone and is known here only by its name. Of
/// that function one value is stated: the luma of white is 255, since the outside
/// function takes `0.2126 * r + 0.7152 * g + 0.0722 * b` in single precision, which
/// for three times 255 is 255 exactly. Left out are the widths of which three times
/// the width has no place in `usize`.
#[verifier::external_body]
fn grayscale_bytes(width: u32, height: u32, rgb: &Vec<u8>) -> (luma: Vec<u8>)
    requires
        rgb.len() == 3 * (width * height),
        3 * width <= usize::MAX,
    ensures
        luma.len() == width * height,
        forall|k: int|
            0 <= k < luma.len() ==> #[trigger] luma[k] == luma_of(
                rgb[3 * k],
                rgb[3 * k + 1],
                rgb[3 * k + 2],
            ),
        forall|k: int|
            0 <= k < luma.len() && rgb[3 * k] == 255 && rgb[3 * k + 1] == 255 && rgb[3 * k + 2]
                == 255 ==> #[trigger] luma[k] == 255,
{
    let source: image::ImageBuffer<image::Rgb<u8>, &[u8]> = image::ImageBuffer::from_raw(
        width,
        height,
        rgb.as_slice(),
    ).unwrap();
    image::imageops::grayscale(&source).into_raw()
}

/// The color of one RGBA pixel on the canvas: its own where it is opaque, white
/// where it is transparent in any degree.
pub open spec fn flattened_pixel(r: u8, g: u8, b: u8, a: u8) -> Color {
    if a != 255 {
        Color { r: 255, g: 255, b: 255 }
    } else {
        Color { r, g, b }
    }
}

/// The colors of RGBA bytes on the canvas, pixel by pixel.
pub open spec fn flattened(rgba: Seq<u8>) -> Seq<Color> {
    Seq::new(
        rgba.len() / 4,
        |k: int| flattened_pixel(rgba[4 * k], rgba[4 * k + 1], rgba[4 * k + 2], rgba[4 * k + 3]),
    )
}

/// The channel bytes of colors, three per pixel (red, green, blue).
pub open spec fn rgb_bytes(pixels: Seq<Color>) -> Seq<u8> {
    Seq::new(
        3 * pixels.len(),
        |i: int|
            if i % 3 == 0 {
                pixels[i / 3].r
            } else if i % 3 == 1 {
                pixels[i / 3].g
            } else {
                pixels[i / 3].b
            },
    )
}

/// The gray colors of luma bytes: each byte on all three channels.
pub open spec fn gray_pixels(luma: Seq<u8>) -> Seq<Color> {
    Seq::new(luma.len(), |k: int| Color { r: luma[k], g: luma[k], b: luma[k] })
}

/// The gray of a color: its luma on all three channels. White stays white.
pub open spec fn gray_of(c: Color) -> Color {
    let level = if c.r == 255 && c.g == 255 && c.b == 255 {
        255u8
    } else {
        luma_of(c.r, c.g, c.b)
    };
    Color { r: level, g: level, b: level }
}

/// The grays of colors, pixel by pixel.
pub open spec fn grayed(pixels: Seq<Color>) -> Seq<Color> {
    Seq::new(pixels.len(), |k: int| gray_of(pixels[k]))
}

/// The picture before it is brought down to the palette: made a thumbnail of the
/// new size, laid on white, and turned gray if asked for.
pub open spec fn prepared(
    width: u32,
    height: u32,
    rgba: Seq<u8>,
    grayscale: bool,
    new_width: u32,
    new_height: u32,
) -> Seq<Color> {
    let flat = flattened(thumbnail_of(width, height, rgba, new_width, new_height));
    if grayscale {
        grayed(flat)
    } else {
        flat
    }
}

/// The picture as it is drawn: prepared, and brought down to the palette, with or
/// without error diffusion.
pub open spec fn converted(
    width: u32,
    height: u32,
    rgba: Seq<u8>,
    dither: bool,
    grayscale: bool,
    new_width: u32,
    new_height: u32,
) -> Seq<Color> {
    let pre = prepared(width, height, rgba, grayscale, new_width, new_height);
    if dither {
        dithered(pre, new_width as int)
    } else {
        quantized(pre)
    }
}

/// What comes out of a conversion is a palette image with one pixel for each pixel
/// that was prepared.
pub proof fn lemma_converted_is_palette_image(
    width: u32,
    height: u32,
    rgba: Seq<u8>,
    dither: bool,
    grayscale: bool,
    new_width: u32,
    new_height: u32,
)
    ensures
        converted(width, height, rgba, dither, grayscale, new_width, new_height).len() == prepared(
            width,
            height,
            rgba,
            grayscale,
            new_width,
            new_height,
        ).len(),
        is_palette_image(
            converted(width, height, rgba, dither, grayscale, new_width, new_height),
        ),
{
    let pre = prepared(width, height, rgba, grayscale, new_width, new_height);
    lemma_quantized_is_palette_image(pre);
    lemma_dithered_is_palette_image(pre, new_width as int);
}

/// Without error diffusion each pixel comes out as the nearest palette color of
/// what was prepared for it: two pixels that were prepared alike come out alike,
/// wherever they stand and whatever surrounds them.
pub proof fn lemma_converted_pointwise(
    width: u32,
    height: u32,
    rgba: Seq<u8>,
    grayscale: bool,
    new_width: u32,
    new_height: u32,
    i: int,
    j: int,
)
    requires
        0 <= i < prepared(width, height, rgba, grayscale, new_width, new_height).len(),
        0 <= j < prepared(width, height, rgba, grayscale, new_width, new_height).len(),
    ensures
        converted(width, height, rgba, false, grayscale, new_width, new_height)[i] == nearest(
            prepared(width, height, rgba, grayscale, new_width, new_height)[i],
        ),
        prepared(width, height, rgba, grayscale, new_width, new_height)[i] == prepared(
            width,
            height,
            rgba,
            grayscale,
            new_width,
            new_height,
        )[j] ==> converted(width, height, rgba, false, grayscale, new_width, new_height)[i]
            == converted(width, height, rgba, false, grayscale, new_width, new_height)[j],
{
}

/// No error reaches the first pixel: with error diffusion it comes out as without.
/// So a picture of one pixel comes out the same either way.
pub proof fn lemma_converted_first_pixel(
    width: u32,
    height: u32,
    rgba: Seq<u8>,
    grayscale: bool,
    new_width: u32,
    new_height: u32,
)
    requires
        prepared(width, height, rgba, grayscale, new_width, new_height).len() > 0,
    ensures
        converted(width, height, rgba, true, grayscale, new_width, new_height)[0] == nearest(
            prepared(width, height, rgba, grayscale, new_width, new_height)[0],
        ),
        prepared(width, height, rgba, grayscale, new_width, new_height).len() == 1 ==> converted(
            width,
            height,
            rgba,
            true,
            grayscale,
            new_width,
            new_height,
        ) == converted(width, height, rgba, false, grayscale, new_width, new_height),
{
    let pre = prepared(width, height, rgba, grayscale, new_width, new_height);
    lemma_dithered_first_pixel(pre, new_width as int);
    if pre.len() == 1 {
        assert(dithered(pre, new_width as int) =~= quantized(pre));
    }
}

/// A pixel of the thumbnail that is transparent in any degree comes out white,
/// whatever its color is, in gray or not, as long as no error is diffused.
pub proof fn lemma_converted_transparent(
    width: u32,
    height: u32,
    rgba: Seq<u8>,
    grayscale: bool,
    new_width: u32,
    new_height: u32,
    k: int,
)
    requires
        0 <= k < thumbnail_of(width, height, rgba, new_width, new_height).len() / 4,
        thumbnail_of(width, height, rgba, new_width, new_height)[4 * k + 3] != 255,
    ensures
        converted(width, height, rgba, false, grayscale, new_width, new_height)[k] == (Color {
            r: 255,
            g: 255,
            b: 255,
        }),
{
    let white = Color { r: 255, g: 255, b: 255 };
    assert(palette()[0] == white);
    lemma_nearest_fixed_point(white);
}

/// Lays RGBA bytes of an image of the given size on white.
pub fn flatten_alpha(width: u32, height: u32, rgba: &Vec<u8>) -> (out: Image)
    requires
        rgba.len() == 4 * (width * height),
    ensures
        out@ == flattened(rgba@),
        out.spec_width() == width,
        out.spec_height() == height,
{
    let cells: usize = rgba.len() / 4;
    let mut pixels: Vec<Color> = Vec::new();
    let mut k: usize = 0;
    while k < cells
        invariant
            k <= cells,
            cells == rgba.len() / 4,
            rgba.len() == 4 * cells,
            pixels.len() == k,
            forall|j: int| 0 <= j < k ==> #[trigger] pixels[j] == flattened(rgba@)[j],
        decreases cells - k,
    {
        let color = if rgba[4 * k + 3] != 255 {
            Color { r: 255, g: 255, b: 255 }
        } else {
            Color { r: rgba[4 * k], g: rgba[4 * k + 1], b: rgba[4 * k + 2] }
        };
        pixels.push(color);
        k += 1;
    }
    assert(pixels@ =~= flattened(rgba@));
    Image::from_pixels(width, height, pixels)
}

/// The channel bytes of an image, three per pixel.
pub fn image_bytes(image: &Image) -> (bytes: Vec<u8>)
    requires
        3 * (image.spec_width() * image.spec_height()) <= usize::MAX,
    ensures
        bytes@ == rgb_bytes(image@),
        bytes.len() == 3 * (image.spec_width() * image.spec_height()),
{
    let pixels = image.pixels();
    let mut bytes: Vec<u8> = Vec::new();
    let mut k: usize = 0;
    while k < pixels.len()
        invariant
            k <= pixels.len(),
            3 * pixels.len() <= usize::MAX,
            bytes.len() == 3 * k,
            forall|i: int| 0 <= i < 3 * k ==> #[trigger] bytes[i] == rgb_bytes(pixels@)[i],
        decreases pixels.len() - k,
    {
        let color = pixels[k];
        bytes.push(color.r);
        bytes.push(color.g);
        bytes.push(color.b);
        k += 1;
    }
    assert(bytes@ =~= rgb_bytes(image@));
    bytes
}

/// The gray image of the given size with the given luma bytes.
pub fn gray_image(width: u32, height: u32, luma: &Vec<u8>) -> (out: Image)
    requires
        luma.len() == width * height,
    ensures
        out@ == gray_pixels(luma@),
        out.spec_width() == width,
        out.spec_height() == height,
{
    let mut pixels: Vec<Color> = Vec::new();
    let mut k: usize = 0;
    while k < luma.len()
        invariant
            k <= luma.len(),
            pixels.len() == k,
            forall|j: int| 0 <= j < k ==> #[trigger] pixels[j] == gray_pixels(luma@)[j],
        decreases luma.len() - k,
    {
        let level = luma[k];
        pixels.push(Color { r: level, g: level, b: level });
        k += 1;
    }
    assert(pixels@ =~= gray_pixels(luma@));
    Image::from_pixels(width, height, pixels)
}

/// Converts a decoded picture into the palette image to draw, `new_width` wide and
/// `new_height` high.
pub fn convert(
    image: &RgbaImage,
    dither: bool,
    grayscale: bool,
    new_width: u32,
    new_height: u32,
) -> (out: Image)
    requires
        convertible(
            image.spec_width(),
            image.spec_height(),
            new_width as int,
            new_height as int,
        ),
    ensures
        out@ == converted(
            image.spec_width() as u32,
            image.spec_height() as u32,
            image@,
            dither,
            grayscale,
            new_width,
            new_height,
        ),
        out.spec_width() == new_width,
        out.spec_height() == new_height,
        is_palette_image(out@),
{
    let thumbnail = thumbnail_bytes(
        image.width(),
        image.height(),
        image.data(),
        new_width,
        new_height,
    );
    let flat = flatten_alpha(new_width, new_height, &thumbnail);
    let toned = if grayscale {
        let bytes = image_bytes(&flat);
        let luma = grayscale_bytes(new_width, new_height, &bytes);
        proof {
            assert forall|k: int| 0 <= k < luma.len() implies #[trigger] gray_pixels(luma@)[k]
                == gray_of(flat@[k]) by {
                assert(bytes[3 * k] == flat@[k].r && bytes[3 * k + 1] == flat@[k].g && bytes[3 * k
                    + 2] == flat@[k].b);
                assert(luma[k] == luma_of(bytes[3 * k], bytes[3 * k + 1], bytes[3 * k + 2]));
            }
            assert(gray_pixels(luma@) =~= grayed(flat@));
        }
        gray_image(new_width, new_height, &luma)
    } else {
        flat
    };
    if dither {
        crate::dither::dither(&toned)
    } else {
        quantize(&toned)
    }
}

/// As [`convert`], for any picture and size: nothing where no thumbnail can be made.
pub fn checked_convert(
    image: &RgbaImage,
    dither: bool,
    grayscale: bool,
    new_width: u32,
    new_height: u32,
) -> (res: Option<Image>)
    ensures
        res is Some <==> convertible(
            image.spec_width(),
            image.spec_height(),
            new_width as int,
            new_height as int,
        ),
        res matches Some(out) ==> out@ == converted(
            image.spec_width() as u32,
            image.spec_height() as u32,
            image@,
            dither,
            grayscale,
            new_width,
            new_height,
        ) && out.spec_width() == new_width && out.spec_height() == new_height
            && is_palette_image(out@),
{
    if image.width() as u64 * 4 > usize::MAX as u64 || new_width as u64 * 4 > usize::MAX as u64 {
        return None;
    }
    let cells: u64 = times(new_width, new_height);
    if cells as u128 * 4 > usize::MAX as u128 {
        return None;
    }
    if new_height > 0 && image.height() == 0 {
        return None;
    }
    if new_width > 0 && new_height > 0 {
        if image.width() == 0 || image.width() > MAX_PICTURE_SIDE || image.height()
            > MAX_PICTURE_SIDE {
            return None;
        }
        let block: u64 = times(image.width() / new_width + 3, image.height() / new_height + 3);
        if block > MAX_BLOCK_PIXELS {
            return None;
        }
    }
    Some(convert(image, dither, grayscale, new_width, new_height))
}

} // verus!
