//! Quantization of an image to the palette, plain or with error diffusion.
use vstd::prelude::*;
use crate::bitmap::{lemma_pixel_index_in_range, Image};
use crate::color_map::{
    lemma_nearest_fixed_point, lemma_nearest_is_palette_color, nearest, nearest_color,
};
use crate::colors::{is_palette_color, is_palette_image, Color};
use crate::traversal::lemma_row_major;

verus! {

/// Plain quantization: each pixel becomes its nearest palette color.
pub open spec fn quantized(pixels: Seq<Color>) -> Seq<Color> {
    Seq::new(pixels.len(), |k: int| nearest(pixels[k]))
}

/// A value kept within 0 and 255, the range of a channel.
pub open spec fn cut(value: int) -> u8 {
    if value < 0 {
        0
    } else if value > 255 {
        255
    } else {
        value as u8
    }
}

/// The color whose channels are the given sums, each kept within the range of a channel.
pub open spec fn cut_color(sum: (int, int, int)) -> Color {
    Color { r: cut(sum.0), g: cut(sum.1), b: cut(sum.2) }
}

/// What quantizing loses, per channel, for a pixel whose channels have the given
/// sums: each sum, as it is and not cut, minus the channel of the palette color
/// that is nearest to the cut color.
pub open spec fn quantization_error(sum: (int, int, int)) -> (int, int, int) {
    let p = nearest(cut_color(sum));
    (sum.0 - p.r, sum.1 - p.g, sum.2 - p.b)
}

/// Sixteenths of its error that a pixel hands to its right neighbor.
pub const WEIGHT_RIGHT: i128 = 7;

/// Sixteenths of its error that a pixel hands to the neighbor below on the left.
pub const WEIGHT_BELOW_LEFT: i128 = 3;

/// Sixteenths of its error that a pixel hands to the neighbor below.
pub const WEIGHT_BELOW: i128 = 5;

/// Sixteenths of its error that a pixel hands to the neighbor below on the right.
pub const WEIGHT_BELOW_RIGHT: i128 = 1;

/// The share of an error that goes to one neighbor: the error times the weight,
/// divided by 16, with the fraction cut off toward zero.
pub open spec fn share(error: int, weight: int) -> int {
    if error >= 0 {
        error * weight / 16
    } else {
        -((-error) * weight / 16)
    }
}

/// What a pixel receives on one channel from the errors of its four neighbors that
/// come before it: from the left, from above on the right, from above, and from
/// above on the left.
pub open spec fn received(left: int, above_right: int, above: int, above_left: int) -> int {
    share(left, WEIGHT_RIGHT as int) + share(above_right, WEIGHT_BELOW_LEFT as int) + share(
        above,
        WEIGHT_BELOW as int,
    ) + share(above_left, WEIGHT_BELOW_RIGHT as int)
}

/// The channels of pixel `k` after it has received its shares of the quantization
/// errors of the pixels before it: its own values plus the shares, as wide integers
/// that are not cut to the range of a channel. Pixels are taken in row-major order.
/// Each pixel hands 7/16 of its error to its right neighbor, 3/16 to the one below
/// on the left, 5/16 to the one below and 1/16 to the one below on the right; a
/// share that would leave the image is dropped. So pixel `k` receives 7/16 from its
/// left neighbor, 3/16 from above on the right, 5/16 from above and 1/16 from above
/// on the left. The prover sees the definition only where it is revealed;
/// [`lemma_adjusted_sum`] states it for a pixel given by column and row.
#[verifier::opaque]
pub open spec fn adjusted_sum(pixels: Seq<Color>, width: int, k: int) -> (int, int, int)
    recommends
        0 < width,
        0 <= k < pixels.len(),
    decreases k,
    via adjusted_sum_decreases
{
    if width <= 0 || k < 0 {
        (pixels[k].r as int, pixels[k].g as int, pixels[k].b as int)
    } else {
        let x = k % width;
        let y = k / width;
        let none = (0int, 0int, 0int);
        let left = if x > 0 {
            quantization_error(adjusted_sum(pixels, width, k - 1))
        } else {
            none
        };
        let above_right = if y > 0 && x + 1 < width {
            quantization_error(adjusted_sum(pixels, width, k - width + 1))
        } else {
            none
        };
        let above = if y > 0 {
            quantization_error(adjusted_sum(pixels, width, k - width))
        } else {
            none
        };
        let above_left = if y > 0 && x > 0 {
            quantization_error(adjusted_sum(pixels, width, k - width - 1))
        } else {
            none
        };
        (
            pixels[k].r + received(left.0, above_right.0, above.0, above_left.0),
            pixels[k].g + received(left.1, above_right.1, above.1, above_left.1),
            pixels[k].b + received(left.2, above_right.2, above.2, above_left.2),
        )
    }
}

/// The color that pixel `k` is quantized from: its adjusted channels, each kept
/// within the range of a channel.
pub open spec fn adjusted_color(pixels: Seq<Color>, width: int, k: int) -> Color {
    cut_color(adjusted_sum(pixels, width, k))
}

#[via_fn]
proof fn adjusted_sum_decreases(pixels: Seq<Color>, width: int, k: int) {
    if width > 0 && k >= 0 {
        vstd::arithmetic::div_mod::lemma_fundamental_div_mod(k, width);
        vstd::arithmetic::div_mod::lemma_mod_bound(k, width);
        let y = k / width;
        if y > 0 {
            assert(width * y >= width) by (nonlinear_arith)
                requires
                    y >= 1,
                    width > 0,
            ;
        }
    }
}

/// Quantization with error diffusion: each pixel becomes the nearest palette color
/// of its adjusted color, and hands on what its adjusted channels, not cut, differ
/// from that palette color.
pub open spec fn dithered(pixels: Seq<Color>, width: int) -> Seq<Color> {
    Seq::new(pixels.len(), |k: int| nearest(adjusted_color(pixels, width, k)))
}

/// Maps every pixel of `image` to its nearest palette color.
pub fn quantize(image: &Image) -> (out: Image)
    ensures
        out@ == quantized(image@),
        out.spec_width() == image.spec_width(),
        out.spec_height() == image.spec_height(),
        is_palette_image(out@),
{
    proof {
        lemma_quantized_is_palette_image(image@);
    }
    let pixels = image.pixels();
    let mut mapped: Vec<Color> = Vec::new();
    let mut k: usize = 0;
    while k < pixels.len()
        invariant
            k <= pixels.len(),
            mapped.len() == k,
            forall|j: int| 0 <= j < k ==> #[trigger] mapped[j] == nearest(pixels[j]),
        decreases pixels.len() - k,
    {
        mapped.push(nearest_color(pixels[k]));
        k += 1;
    }
    assert(mapped@ =~= quantized(image@));
    Image::from_pixels(image.width(), image.height(), mapped)
}

/// More than the number of pixels of any image. Errors can add up along an image,
/// by at most 255 with each pixel.
const MAX_PIXELS_BEFORE: i128 = 0x1_0000_0000_0000_0000;

/// A sixteenth of `value`, with the fraction cut off toward zero.
fn sixteenth(value: i128) -> (part: i128)
    requires
        -16 * 255 * MAX_PIXELS_BEFORE <= value <= 16 * 255 * MAX_PIXELS_BEFORE,
    ensures
        part == if value >= 0 {
            value / 16
        } else {
            -((-value) / 16)
        },
        value >= 0 ==> 0 <= 16 * part <= value,
        value < 0 ==> value <= 16 * part <= 0,
{
    if value >= 0 {
        value / 16
    } else {
        -((-value) / 16)
    }
}

/// What a pixel receives on one channel from the errors of four neighbors, none of
/// them larger than `limit` either way.
fn receive(left: i128, above_right: i128, above: i128, above_left: i128, limit: i128) -> (sum: i128)
    requires
        0 <= limit <= 255 * MAX_PIXELS_BEFORE,
        -limit <= left <= limit,
        -limit <= above_right <= limit,
        -limit <= above <= limit,
        -limit <= above_left <= limit,
    ensures
        sum == received(left as int, above_right as int, above as int, above_left as int),
        -limit <= sum <= limit,
{
    let from_left = sixteenth(left * WEIGHT_RIGHT);
    let from_above_right = sixteenth(above_right * WEIGHT_BELOW_LEFT);
    let from_above = sixteenth(above * WEIGHT_BELOW);
    let from_above_left = sixteenth(above_left * WEIGHT_BELOW_RIGHT);
    from_left + from_above_right + from_above + from_above_left
}

fn cut_channel(value: i128) -> (c: u8)
    ensures
        c == cut(value as int),
{
    if value < 0 {
        0
    } else if value > 255 {
        255
    } else {
        value as u8
    }
}

/// The adjusted channels of the pixel in column `x` and row `y`, from the errors of
/// its four neighbors that come before it: the definition of [`adjusted_sum`], by
/// column and row.
pub proof fn lemma_adjusted_sum(
    pixels: Seq<Color>,
    width: int,
    k: int,
    x: int,
    y: int,
    left: (int, int, int),
    above_right: (int, int, int),
    above: (int, int, int),
    above_left: (int, int, int),
)
    requires
        0 <= x < width,
        0 <= y,
        k == y * width + x,
        left == if x > 0 {
            quantization_error(adjusted_sum(pixels, width, k - 1))
        } else {
            (0int, 0int, 0int)
        },
        above_right == if y > 0 && x + 1 < width {
            quantization_error(adjusted_sum(pixels, width, k - width + 1))
        } else {
            (0int, 0int, 0int)
        },
        above == if y > 0 {
            quantization_error(adjusted_sum(pixels, width, k - width))
        } else {
            (0int, 0int, 0int)
        },
        above_left == if y > 0 && x > 0 {
            quantization_error(adjusted_sum(pixels, width, k - width - 1))
        } else {
            (0int, 0int, 0int)
        },
    ensures
        adjusted_sum(pixels, width, k) == (
            pixels[k].r + received(left.0, above_right.0, above.0, above_left.0),
            pixels[k].g + received(left.1, above_right.1, above.1, above_left.1),
            pixels[k].b + received(left.2, above_right.2, above.2, above_left.2),
        ),
{
    reveal(adjusted_sum);
    lemma_row_major(width, x, y);
    assert(y * width >= 0) by (nonlinear_arith)
        requires
            y >= 0,
            width > 0,
    ;
}

/// What is known of the error `e` of pixel `j`: it is the quantization error of the
/// pixel's adjusted channels, and not larger than 255 times the number of pixels
/// up to this one.
spec fn error_known(e: (i128, i128, i128), pixels: Seq<Color>, width: int, j: int) -> bool {
    let known = quantization_error(adjusted_sum(pixels, width, j));
    &&& e.0 == known.0 && e.1 == known.1 && e.2 == known.2
    &&& -255 * (j + 1) <= e.0 <= 255 * (j + 1)
    &&& -255 * (j + 1) <= e.1 <= 255 * (j + 1)
    &&& -255 * (j + 1) <= e.2 <= 255 * (j + 1)
}

/// The errors of the first pixels are known.
spec fn errors_known(errors: Seq<(i128, i128, i128)>, pixels: Seq<Color>, width: int) -> bool {
    forall|j: int| 0 <= j < errors.len() ==> error_known(#[trigger] errors[j], pixels, width, j)
}

/// The error that a neighbor hands on: that of the pixel with the given index where
/// there is such a neighbor, and none where there is not.
fn neighbor_error(
    errors: &Vec<(i128, i128, i128)>,
    present: bool,
    index: usize,
    Ghost(pixels): Ghost<Seq<Color>>,
    Ghost(width): Ghost<int>,
) -> (e: (i128, i128, i128))
    requires
        present ==> index < errors.len(),
        errors_known(errors@, pixels, width),
    ensures
        (e.0 as int, e.1 as int, e.2 as int) == if present {
            quantization_error(adjusted_sum(pixels, width, index as int))
        } else {
            (0int, 0int, 0int)
        },
        -255 * errors.len() <= e.0 <= 255 * errors.len(),
        -255 * errors.len() <= e.1 <= 255 * errors.len(),
        -255 * errors.len() <= e.2 <= 255 * errors.len(),
{
    if present {
        assert(error_known(errors@[index as int], pixels, width, index as int));
        errors[index]
    } else {
        (0, 0, 0)
    }
}

/// The palette color and the error of a pixel with the given adjusted channels.
fn settle(sum_r: i128, sum_g: i128, sum_b: i128, limit: i128) -> (res: (Color, (i128, i128, i128)))
    requires
        0 <= limit <= 255 * MAX_PIXELS_BEFORE,
        -limit <= sum_r <= 255 + limit,
        -limit <= sum_g <= 255 + limit,
        -limit <= sum_b <= 255 + limit,
    ensures
        res.0 == nearest(cut_color((sum_r as int, sum_g as int, sum_b as int))),
        (res.1.0 as int, res.1.1 as int, res.1.2 as int) == quantization_error(
            (sum_r as int, sum_g as int, sum_b as int),
        ),
        -(limit + 255) <= res.1.0 <= limit + 255,
        -(limit + 255) <= res.1.1 <= limit + 255,
        -(limit + 255) <= res.1.2 <= limit + 255,
{
    let color = Color { r: cut_channel(sum_r), g: cut_channel(sum_g), b: cut_channel(sum_b) };
    let picked = nearest_color(color);
    (picked, (sum_r - picked.r as i128, sum_g - picked.g as i128, sum_b - picked.b as i128))
}

/// Quantizes the pixel in column `x` and row `y`, whose index is the number of
/// errors known so far, and gives its palette color and its error.
fn quantize_next(
    pixels: &Vec<Color>,
    errors: &Vec<(i128, i128, i128)>,
    width: u32,
    x: u32,
    y: u32,
) -> (res: (Color, (i128, i128, i128)))
    requires
        x < width,
        errors.len() == y * width + x,
        errors.len() < pixels.len(),
        errors_known(errors@, pixels@, width as int),
    ensures
        res.0 == nearest(adjusted_color(pixels@, width as int, errors.len() as int)),
        error_known(res.1, pixels@, width as int, errors.len() as int),
{
    let k: usize = errors.len();
    let row: usize = width as usize;
    proof {
        if y > 0 {
            assert((y - 1) * width == y * width - width) by (nonlinear_arith);
            assert((y - 1) * width >= 0) by (nonlinear_arith)
                requires
                    y >= 1,
                    width >= 0,
            ;
        } else {
            assert(y * width == 0);
        }
    }
    let limit: i128 = 255 * (k as i128);
    let has_left = x > 0;
    let has_above = y > 0;
    let has_above_right = y > 0 && x + 1 < width;
    let has_above_left = y > 0 && x > 0;
    let left = neighbor_error(
        errors,
        has_left,
        if has_left { k - 1 } else { 0 },
        Ghost(pixels@),
        Ghost(width as int),
    );
    let above_right = neighbor_error(
        errors,
        has_above_right,
        if has_above_right { k - row + 1 } else { 0 },
        Ghost(pixels@),
        Ghost(width as int),
    );
    let above = neighbor_error(
        errors,
        has_above,
        if has_above { k - row } else { 0 },
        Ghost(pixels@),
        Ghost(width as int),
    );
    let above_left = neighbor_error(
        errors,
        has_above_left,
        if has_above_left { k - row - 1 } else { 0 },
        Ghost(pixels@),
        Ghost(width as int),
    );
    let base = pixels[k];
    let sum_r: i128 = base.r as i128 + receive(left.0, above_right.0, above.0, above_left.0, limit);
    let sum_g: i128 = base.g as i128 + receive(left.1, above_right.1, above.1, above_left.1, limit);
    let sum_b: i128 = base.b as i128 + receive(left.2, above_right.2, above.2, above_left.2, limit);
    proof {
        lemma_adjusted_sum(
            pixels@,
            width as int,
            k as int,
            x as int,
            y as int,
            (left.0 as int, left.1 as int, left.2 as int),
            (above_right.0 as int, above_right.1 as int, above_right.2 as int),
            (above.0 as int, above.1 as int, above.2 as int),
            (above_left.0 as int, above_left.1 as int, above_left.2 as int),
        );
    }
    settle(sum_r, sum_g, sum_b, limit)
}

/// Maps every pixel of `image` to a palette color, handing the error of each pixel
/// on to the pixels to its right and below.
pub fn dither(image: &Image) -> (out: Image)
    ensures
        out@ == dithered(image@, image.spec_width()),
        out.spec_width() == image.spec_width(),
        out.spec_height() == image.spec_height(),
        is_palette_image(out@),
{
    proof {
        lemma_dithered_is_palette_image(image@, image.spec_width());
    }
    let pixels = image.pixels();
    let width = image.width();
    let height = image.height();
    let mut errors: Vec<(i128, i128, i128)> = Vec::new();
    let mut chosen: Vec<Color> = Vec::new();
    let mut y: u32 = 0;
    while y < height
        invariant
            y <= height,
            pixels@ == image@,
            pixels.len() == width * height,
            errors.len() == y * width,
            chosen.len() == y * width,
            errors_known(errors@, pixels@, width as int),
            forall|j: int|
                0 <= j < chosen.len() ==> #[trigger] chosen[j] == nearest(
                    adjusted_color(pixels@, width as int, j),
                ),
        decreases height - y,
    {
        let mut x: u32 = 0;
        while x < width
            invariant
                x <= width,
                y < height,
                pixels@ == image@,
                pixels.len() == width * height,
                errors.len() == y * width + x,
                chosen.len() == y * width + x,
                errors_known(errors@, pixels@, width as int),
                forall|j: int|
                    0 <= j < chosen.len() ==> #[trigger] chosen[j] == nearest(
                        adjusted_color(pixels@, width as int, j),
                    ),
            decreases width - x,
        {
            proof {
                lemma_pixel_index_in_range(width as int, height as int, x as int, y as int);
            }
            let next = quantize_next(pixels, &errors, width, x, y);
            let ghost before = errors@;
            errors.push(next.1);
            chosen.push(next.0);
            proof {
                assert forall|j: int| 0 <= j < errors.len() implies error_known(
                    #[trigger] errors@[j],
                    pixels@,
                    width as int,
                    j,
                ) by {
                    if j < before.len() {
                        assert(errors@[j] == before[j]);
                    }
                }
            }
            x += 1;
        }
        proof {
            assert((y + 1) * width == y * width + width) by (nonlinear_arith);
        }
        y += 1;
    }
    proof {
        assert(y * width == width * height) by (nonlinear_arith)
            requires
                y == height,
        ;
        assert(chosen@ =~= dithered(image@, width as int));
    }
    Image::from_pixels(width, height, chosen)
}

/// Plain quantization looks at each pixel by itself: two pixels of one color get
/// the same palette color, wherever they stand and whatever surrounds them.
pub proof fn lemma_quantized_pointwise(a: Seq<Color>, i: int, b: Seq<Color>, j: int)
    requires
        0 <= i < a.len(),
        0 <= j < b.len(),
        a[i] == b[j],
    ensures
        quantized(a)[i] == quantized(b)[j],
        quantized(a)[i] == nearest(a[i]),
{
}

/// Plain quantization gives a palette image of the same size.
pub proof fn lemma_quantized_is_palette_image(pixels: Seq<Color>)
    ensures
        quantized(pixels).len() == pixels.len(),
        is_palette_image(quantized(pixels)),
{
    assert forall|k: int| 0 <= k < pixels.len() implies is_palette_color(
        #[trigger] quantized(pixels)[k],
    ) by {
        lemma_nearest_is_palette_color(pixels[k]);
    }
}

/// Error diffusion gives a palette image of the same size.
pub proof fn lemma_dithered_is_palette_image(pixels: Seq<Color>, width: int)
    ensures
        dithered(pixels, width).len() == pixels.len(),
        is_palette_image(dithered(pixels, width)),
{
    assert forall|k: int| 0 <= k < pixels.len() implies is_palette_color(
        #[trigger] dithered(pixels, width)[k],
    ) by {
        lemma_nearest_is_palette_color(adjusted_color(pixels, width, k));
    }
}

proof fn lemma_palette_pixel_unadjusted(pixels: Seq<Color>, width: int, k: int)
    requires
        is_palette_image(pixels),
        0 <= k < pixels.len(),
    ensures
        adjusted_sum(pixels, width, k) == (
            pixels[k].r as int,
            pixels[k].g as int,
            pixels[k].b as int,
        ),
        adjusted_color(pixels, width, k) == pixels[k],
        quantization_error(adjusted_sum(pixels, width, k)) == (0int, 0int, 0int),
    decreases k,
{
    reveal(adjusted_sum);
    if width > 0 {
        vstd::arithmetic::div_mod::lemma_fundamental_div_mod(k, width);
        vstd::arithmetic::div_mod::lemma_mod_bound(k, width);
        let x = k % width;
        let y = k / width;
        if y > 0 {
            assert(width * y >= width) by (nonlinear_arith)
                requires
                    y >= 1,
                    width > 0,
            ;
        }
        if x > 0 {
            lemma_palette_pixel_unadjusted(pixels, width, k - 1);
        }
        if y > 0 && x + 1 < width {
            lemma_palette_pixel_unadjusted(pixels, width, k - width + 1);
        }
        if y > 0 {
            lemma_palette_pixel_unadjusted(pixels, width, k - width);
        }
        if y > 0 && x > 0 {
            lemma_palette_pixel_unadjusted(pixels, width, k - width - 1);
        }
        assert(received(0, 0, 0, 0) == 0);
    }
    lemma_nearest_fixed_point(pixels[k]);
}

/// A palette image has no quantization error to diffuse: both ways of quantizing
/// leave it as it is.
pub proof fn lemma_palette_image_unchanged(pixels: Seq<Color>, width: int)
    requires
        is_palette_image(pixels),
    ensures
        quantized(pixels) == pixels,
        dithered(pixels, width) == pixels,
{
    assert forall|k: int| 0 <= k < pixels.len() implies #[trigger] quantized(pixels)[k]
        == pixels[k] && dithered(pixels, width)[k] == pixels[k] by {
        lemma_nearest_fixed_point(pixels[k]);
        lemma_palette_pixel_unadjusted(pixels, width, k);
    }
    assert(quantized(pixels) =~= pixels);
    assert(dithered(pixels, width) =~= pixels);
}

/// The first pixel receives no error: error diffusion gives it its nearest palette color.
pub proof fn lemma_dithered_first_pixel(pixels: Seq<Color>, width: int)
    requires
        pixels.len() > 0,
    ensures
        dithered(pixels, width)[0] == nearest(pixels[0]),
{
    reveal(adjusted_sum);
    assert(received(0, 0, 0, 0) == 0);
    assert(adjusted_color(pixels, width, 0) == pixels[0]);
}

} // verus!
