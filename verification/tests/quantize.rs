use skribbl_bot::bitmap::Image;
use skribbl_bot::color_map::nearest_color;
use skribbl_bot::colors::{
    palette_color, Color, DARK_GREY, DARK_ORANGE, DARK_PINK, LIGHT_BROWN, LIGHT_CYAN, LIGHT_GREY, LIGHT_RED,
    PALETTE_SIZE, WHITE,
};
use skribbl_bot::dither::{dither, quantize};

fn rgb(r: u8, g: u8, b: u8) -> Color {
    Color { r, g, b }
}

fn uniform(width: u32, height: u32, color: Color) -> Image {
    Image::new(width, height, vec![color; (width * height) as usize]).unwrap()
}

fn names(image: &Image) -> Vec<Color> {
    image.pixels().clone()
}

fn of(indices: &[usize]) -> Vec<Color> {
    indices.iter().map(|&i| palette_color(i)).collect()
}

#[test]
fn image_needs_one_pixel_per_cell() {
    assert!(Image::new(2, 2, vec![rgb(0, 0, 0); 4]).is_some());
    assert!(Image::new(2, 2, vec![rgb(0, 0, 0); 3]).is_none());
    assert!(Image::new(2, 2, vec![rgb(0, 0, 0); 5]).is_none());
    assert!(Image::new(0, 7, Vec::new()).is_some());
    let image = Image::new(3, 2, vec![rgb(1, 2, 3); 6]).unwrap();
    assert_eq!(image.width(), 3);
    assert_eq!(image.height(), 2);
    assert_eq!(image.pixels().len(), 6);
}

#[test]
fn get_pixel_reads_row_major() {
    let pixels: Vec<Color> = (0..6).map(|i| rgb(i as u8, 0, 0)).collect();
    let image = Image::new(3, 2, pixels).unwrap();
    assert_eq!(image.get_pixel(0, 0), rgb(0, 0, 0));
    assert_eq!(image.get_pixel(2, 0), rgb(2, 0, 0));
    assert_eq!(image.get_pixel(0, 1), rgb(3, 0, 0));
    assert_eq!(image.get_pixel(2, 1), rgb(5, 0, 0));
}

#[test]
fn quantize_maps_each_pixel_by_itself() {
    let a = Image::new(2, 2, vec![rgb(250, 20, 10), rgb(1, 1, 1), rgb(128, 128, 128), rgb(9, 9, 9)])
        .unwrap();
    let b = Image::new(4, 1, vec![rgb(9, 9, 9), rgb(128, 128, 128), rgb(1, 1, 1), rgb(250, 20, 10)])
        .unwrap();
    let qa = quantize(&a);
    let qb = quantize(&b);
    assert_eq!(qa.width(), 2);
    assert_eq!(qa.height(), 2);
    for i in 0..4 {
        assert_eq!(qa.pixels()[i], nearest_color(a.pixels()[i]));
        assert_eq!(qa.pixels()[i], qb.pixels()[3 - i]);
    }
    assert_eq!(qa.pixels()[0], palette_color(LIGHT_RED));
}

#[test]
fn quantize_of_nothing_is_nothing() {
    let empty = Image::new(0, 0, Vec::new()).unwrap();
    assert_eq!(quantize(&empty).pixels().len(), 0);
    assert_eq!(dither(&empty).pixels().len(), 0);
    let flat = Image::new(5, 0, Vec::new()).unwrap();
    assert_eq!(dither(&flat).width(), 5);
    assert_eq!(dither(&flat).height(), 0);
}

#[test]
fn dither_leaves_a_palette_image_alone() {
    let pixels: Vec<Color> = (0..PALETTE_SIZE).map(palette_color).collect();
    let image = Image::new(11, 2, pixels.clone()).unwrap();
    assert_eq!(names(&dither(&image)), pixels);
    assert_eq!(names(&quantize(&image)), pixels);
    let tall = Image::new(2, 11, pixels.clone()).unwrap();
    assert_eq!(names(&dither(&tall)), pixels);
}

#[test]
fn dither_starts_with_the_nearest_color() {
    let image = uniform(3, 3, rgb(100, 150, 200));
    assert_eq!(dither(&image).pixels()[0], nearest_color(rgb(100, 150, 200)));
}

#[test]
fn dither_spreads_the_error_over_a_row() {
    // One row: only the share to the right is handed on.
    let image = uniform(4, 1, rgb(200, 30, 30));
    assert_eq!(
        names(&dither(&image)),
        of(&[DARK_ORANGE, LIGHT_RED, LIGHT_BROWN, LIGHT_RED])
    );
    assert_eq!(names(&quantize(&image)), of(&[DARK_ORANGE; 4]));
}

#[test]
fn dither_spreads_the_error_down_a_column() {
    // One column: only the share straight down is handed on.
    let image = uniform(1, 4, rgb(200, 30, 30));
    assert_eq!(
        names(&dither(&image)),
        of(&[DARK_ORANGE, LIGHT_RED, DARK_ORANGE, LIGHT_RED])
    );
}

#[test]
fn dither_follows_the_kernel_in_a_grid() {
    let image = uniform(3, 3, rgb(100, 150, 200));
    assert_eq!(
        names(&dither(&image)),
        of(&[
            LIGHT_GREY, LIGHT_CYAN, LIGHT_GREY, LIGHT_GREY, LIGHT_GREY, LIGHT_CYAN, LIGHT_CYAN,
            LIGHT_GREY, LIGHT_GREY,
        ])
    );
    assert_eq!(names(&quantize(&image)), of(&[LIGHT_GREY; 9]));
}

#[test]
fn dither_depends_on_the_order_of_the_pixels() {
    // The same four pixels give other colors as a row than as a column.
    let row = dither(&uniform(4, 1, rgb(200, 30, 30)));
    let column = dither(&uniform(1, 4, rgb(200, 30, 30)));
    assert_ne!(names(&row), names(&column));
}

#[test]
fn dither_keeps_the_size() {
    let image = uniform(5, 3, rgb(128, 128, 128));
    let out = dither(&image);
    assert_eq!(out.width(), 5);
    assert_eq!(out.height(), 3);
    // The error of the grey pixels adds up until some of them tip over to darker colors.
    let mut expected = [LIGHT_GREY; 15];
    expected[8] = DARK_PINK;
    expected[11] = DARK_PINK;
    expected[13] = DARK_GREY;
    assert_eq!(names(&out), of(&expected));
}

#[test]
fn white_stays_white() {
    let image = uniform(4, 4, palette_color(WHITE));
    assert_eq!(names(&dither(&image)), of(&[WHITE; 16]));
    assert_eq!(names(&quantize(&image)), of(&[WHITE; 16]));
}

struct Palette;

impl image::imageops::ColorMap for Palette {
    type Color = image::Rgb<u8>;

    fn index_of(&self, _: &image::Rgb<u8>) -> usize {
        0
    }

    fn map_color(&self, color: &mut image::Rgb<u8>) {
        let picked = nearest_color(rgb(color.0[0], color.0[1], color.0[2]));
        color.0 = [picked.r, picked.g, picked.b];
    }
}

fn patterned(width: u32, height: u32, low: u32, span: u32) -> Vec<Color> {
    (0..width * height)
        .map(|k| {
            rgb(
                (low + (k * 37) % span) as u8,
                (low + (k * 53) % span) as u8,
                (low + (k * 71) % span) as u8,
            )
        })
        .collect()
}

fn dithered_by_image_crate(width: u32, height: u32, pixels: &[Color]) -> Vec<Color> {
    let bytes: Vec<u8> = pixels.iter().flat_map(|c| [c.r, c.g, c.b]).collect();
    let mut buffer: image::ImageBuffer<image::Rgb<u8>, Vec<u8>> =
        image::ImageBuffer::from_raw(width, height, bytes).unwrap();
    image::imageops::dither(&mut buffer, &Palette);
    buffer.pixels().map(|p| rgb(p.0[0], p.0[1], p.0[2])).collect()
}

#[test]
fn dither_agrees_with_the_image_crate_on_mid_tones() {
    for (width, height, low, span) in
        [(5u32, 4u32, 90u32, 70u32), (7, 3, 90, 70), (2, 2, 90, 70), (16, 9, 90, 70), (9, 16, 60, 130)]
    {
        let pixels = patterned(width, height, low, span);
        let image = Image::new(width, height, pixels.clone()).unwrap();
        assert_eq!(names(&dither(&image)), dithered_by_image_crate(width, height, &pixels));
    }
}

#[test]
fn dither_hands_on_what_lies_beyond_white() {
    // The second pixel is adjusted to 260 and becomes white; its error is 5, not 0,
    // so the third pixel is quantized from 107 and not from 105.
    let image =
        Image::new(3, 1, vec![rgb(100, 100, 100), rgb(250, 250, 250), rgb(105, 105, 105)]).unwrap();
    assert_eq!(names(&dither(&image)), of(&[DARK_GREY, WHITE, DARK_PINK]));
    assert_eq!(nearest_color(rgb(105, 105, 105)), palette_color(DARK_GREY));
    assert_eq!(nearest_color(rgb(107, 107, 107)), palette_color(DARK_PINK));
}

#[test]
fn dither_does_not_cut_the_shares_one_by_one() {
    // On strong colors the image crate cuts every single share to the range of a
    // channel; here nothing of an error is cut, which gives other colors.
    let pixels = patterned(12, 12, 0, 256);
    let image = Image::new(12, 12, pixels.clone()).unwrap();
    assert_ne!(names(&dither(&image)), dithered_by_image_crate(12, 12, &pixels));
}
