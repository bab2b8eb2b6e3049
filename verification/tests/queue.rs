use skribbl_bot::bitmap::Image;
use skribbl_bot::colors::{
    palette_color, Color, BLACK, DARK_BLUE, DARK_BROWN, DARK_CYAN, DARK_GREEN, DARK_GREY,
    DARK_MAGENTA, DARK_ORANGE, DARK_PINK, DARK_RED, DARK_YELLOW, LIGHT_BLUE, LIGHT_BROWN,
    LIGHT_CYAN, LIGHT_GREEN, LIGHT_GREY, LIGHT_MAGENTA, LIGHT_ORANGE, LIGHT_PINK, LIGHT_RED,
    LIGHT_YELLOW, WHITE,
};
use skribbl_bot::queue::{DrawInfo, DrawQueue};
use skribbl_bot::traversal::{append_pass, append_queue, batch_colors, Pass};

fn info(x: u32, y: u32, index: usize) -> DrawInfo {
    DrawInfo { x, y, color: palette_color(index) }
}

fn image(width: u32, height: u32, indices: &[usize]) -> Image {
    Image::new(width, height, indices.iter().map(|&i| palette_color(i)).collect()).unwrap()
}

fn sorted(list: &[DrawInfo]) -> Vec<DrawInfo> {
    let mut queue = DrawQueue::new();
    for item in list {
        queue.push(*item);
    }
    queue.sort();
    queue.instructions().clone()
}

#[test]
fn new_queue_is_empty() {
    let queue = DrawQueue::new();
    assert_eq!(queue.len(), 0);
    assert!(queue.instructions().is_empty());
}

#[test]
fn push_keeps_the_order_of_arrival() {
    let mut queue = DrawQueue::new();
    queue.push(info(0, 0, LIGHT_RED));
    queue.push(info(1, 0, BLACK));
    queue.push(info(2, 0, LIGHT_RED));
    assert_eq!(queue.len(), 3);
    assert_eq!(
        queue.instructions().clone(),
        vec![info(0, 0, LIGHT_RED), info(1, 0, BLACK), info(2, 0, LIGHT_RED)]
    );
}

#[test]
fn push_drops_the_eraser() {
    let mut queue = DrawQueue::new();
    queue.push(info(0, 0, WHITE));
    assert_eq!(queue.len(), 0);
    queue.push(info(1, 0, BLACK));
    queue.push(info(2, 0, WHITE));
    assert_eq!(queue.instructions().clone(), vec![info(1, 0, BLACK)]);
}

#[test]
fn sort_puts_dark_colors_first() {
    let list = [
        info(0, 0, LIGHT_PINK),
        info(1, 0, BLACK),
        info(2, 0, LIGHT_RED),
        info(3, 0, DARK_GREEN),
    ];
    assert_eq!(
        sorted(&list),
        vec![info(1, 0, BLACK), info(3, 0, DARK_GREEN), info(2, 0, LIGHT_RED), info(0, 0, LIGHT_PINK)]
    );
}

#[test]
fn sort_is_stable() {
    // Light orange and dark pink are equally bright: they stay as they were queued.
    let list = [
        info(0, 0, DARK_PINK),
        info(1, 0, LIGHT_ORANGE),
        info(2, 0, BLACK),
        info(3, 0, DARK_PINK),
        info(4, 0, LIGHT_ORANGE),
    ];
    assert_eq!(
        sorted(&list),
        vec![
            info(2, 0, BLACK),
            info(0, 0, DARK_PINK),
            info(1, 0, LIGHT_ORANGE),
            info(3, 0, DARK_PINK),
            info(4, 0, LIGHT_ORANGE),
        ]
    );
}

#[test]
fn sort_is_idempotent() {
    let list = [
        info(0, 0, DARK_PINK),
        info(1, 0, LIGHT_ORANGE),
        info(2, 0, LIGHT_PINK),
        info(0, 1, BLACK),
        info(1, 1, LIGHT_ORANGE),
        info(2, 1, DARK_RED),
    ];
    let once = sorted(&list);
    let twice = sorted(&once);
    assert_eq!(once, twice);
}

#[test]
fn sort_keeps_every_instruction() {
    let list: Vec<DrawInfo> = (0..40u32).map(|i| info(i, 0, 1 + (i as usize * 7) % 21)).collect();
    let out = sorted(&list);
    assert_eq!(out.len(), list.len());
    for item in &list {
        assert_eq!(out.iter().filter(|o| *o == item).count(), 1);
    }
    for pair in out.windows(2) {
        assert!(pair[0].color.brightness() <= pair[1].color.brightness());
    }
}

#[test]
fn sort_takes_colors_outside_the_palette() {
    let list = [
        DrawInfo { x: 0, y: 0, color: Color { r: 255, g: 255, b: 254 } },
        DrawInfo { x: 1, y: 0, color: Color { r: 0, g: 0, b: 1 } },
    ];
    let out = sorted(&list);
    assert_eq!(out, vec![list[1], list[0]]);
}

#[test]
fn two_by_one_with_eraser_gives_one_instruction() {
    let picture = image(2, 1, &[LIGHT_RED, WHITE]);
    let queue = DrawQueue::build(&picture, Pass::Full, None);
    assert_eq!(queue.len(), 1);
    assert_eq!(queue.instructions().clone(), vec![info(0, 0, LIGHT_RED)]);
}

#[test]
fn all_white_image_gives_an_empty_queue() {
    let picture = image(4, 4, &[WHITE; 16]);
    for pass in [Pass::Full, Pass::Odd, Pass::Even] {
        assert_eq!(DrawQueue::build(&picture, pass, None).len(), 0);
        assert_eq!(DrawQueue::build(&picture, pass, Some(palette_color(BLACK))).len(), 0);
        for batch in [false, true] {
            let mut list = Vec::new();
            append_pass(&mut list, &picture, pass, batch);
            assert!(list.is_empty());
        }
    }
}

#[test]
fn empty_image_gives_an_empty_queue() {
    let picture = Image::new(0, 0, Vec::new()).unwrap();
    assert_eq!(DrawQueue::build(&picture, Pass::Full, None).len(), 0);
    let flat = Image::new(3, 0, Vec::new()).unwrap();
    assert_eq!(DrawQueue::build(&flat, Pass::Odd, None).len(), 0);
}

#[test]
fn full_raster_goes_row_by_row() {
    let picture = image(3, 2, &[BLACK, WHITE, LIGHT_RED, WHITE, DARK_RED, BLACK]);
    let queue = DrawQueue::build(&picture, Pass::Full, None);
    assert_eq!(
        queue.instructions().clone(),
        vec![info(0, 0, BLACK), info(2, 0, LIGHT_RED), info(1, 1, DARK_RED), info(2, 1, BLACK)]
    );
}

#[test]
fn full_raster_counts_all_but_the_eraser() {
    let indices = [
        BLACK, WHITE, LIGHT_RED, WHITE, DARK_RED, BLACK, WHITE, WHITE, LIGHT_PINK, BLACK, WHITE,
        DARK_BLUE,
    ];
    let picture = image(4, 3, &indices);
    let erasers = indices.iter().filter(|&&i| i == WHITE).count();
    assert_eq!(DrawQueue::build(&picture, Pass::Full, None).len(), 4 * 3 - erasers);
}

#[test]
fn checkerboard_halves_partition_the_raster() {
    let indices = [
        BLACK, WHITE, LIGHT_RED, WHITE, DARK_RED, BLACK, WHITE, WHITE, LIGHT_PINK, BLACK, WHITE,
        DARK_BLUE, LIGHT_GREY, DARK_GREY, BLACK,
    ];
    let picture = image(5, 3, &indices);
    let full = DrawQueue::build(&picture, Pass::Full, None).instructions().clone();
    let odd = DrawQueue::build(&picture, Pass::Odd, None).instructions().clone();
    let even = DrawQueue::build(&picture, Pass::Even, None).instructions().clone();
    assert_eq!(odd.len() + even.len(), full.len());
    for item in &odd {
        assert_eq!((item.x + item.y) % 2, 1);
        assert!(!even.contains(item));
        assert!(full.contains(item));
    }
    for item in &even {
        assert_eq!((item.x + item.y) % 2, 0);
        assert!(full.contains(item));
    }
    for item in &full {
        assert!(odd.contains(item) || even.contains(item));
    }
}

#[test]
fn checkerboard_starts_with_the_second_column() {
    let picture = image(3, 2, &[BLACK; 6]);
    let odd = DrawQueue::build(&picture, Pass::Odd, None);
    assert_eq!(
        odd.instructions().clone(),
        vec![info(1, 0, BLACK), info(0, 1, BLACK), info(2, 1, BLACK)]
    );
    let even = DrawQueue::build(&picture, Pass::Even, None);
    assert_eq!(
        even.instructions().clone(),
        vec![info(0, 0, BLACK), info(2, 0, BLACK), info(1, 1, BLACK)]
    );
}

#[test]
fn pass_covers_by_parity() {
    assert!(Pass::Full.covers(0, 0));
    assert!(Pass::Full.covers(3, 4));
    assert!(Pass::Odd.covers(1, 0));
    assert!(!Pass::Odd.covers(1, 1));
    assert!(Pass::Even.covers(0, 0));
    assert!(!Pass::Even.covers(0, 1));
    assert!(Pass::Odd.covers(u32::MAX, 0));
    assert!(Pass::Even.covers(u32::MAX, u32::MAX));
}

#[test]
fn build_for_one_color_takes_only_that_color() {
    let picture = image(3, 2, &[BLACK, WHITE, LIGHT_RED, WHITE, DARK_RED, BLACK]);
    let black = DrawQueue::build(&picture, Pass::Full, Some(palette_color(BLACK)));
    assert_eq!(black.instructions().clone(), vec![info(0, 0, BLACK), info(2, 1, BLACK)]);
    let white = DrawQueue::build(&picture, Pass::Full, Some(palette_color(WHITE)));
    assert_eq!(white.len(), 0);
    let odd_black = DrawQueue::build(&picture, Pass::Odd, Some(palette_color(BLACK)));
    assert_eq!(odd_black.instructions().clone(), vec![info(2, 1, BLACK)]);
}

#[test]
fn batches_go_from_dark_to_bright() {
    let expected: Vec<Color> = [
        BLACK, DARK_GREEN, DARK_BLUE, DARK_RED, DARK_BROWN, DARK_MAGENTA, LIGHT_GREEN, DARK_GREY,
        DARK_CYAN, DARK_ORANGE, LIGHT_RED, LIGHT_BLUE, LIGHT_BROWN, LIGHT_MAGENTA, LIGHT_ORANGE,
        DARK_PINK, DARK_YELLOW, LIGHT_GREY, LIGHT_CYAN, LIGHT_YELLOW, LIGHT_PINK,
    ]
    .iter()
    .map(|&i| palette_color(i))
    .collect();
    assert_eq!(batch_colors(), expected);
}

#[test]
fn batched_pass_has_one_run_per_color() {
    let picture = image(3, 2, &[DARK_PINK, LIGHT_ORANGE, WHITE, LIGHT_ORANGE, BLACK, DARK_PINK]);
    let mut batched = Vec::new();
    append_pass(&mut batched, &picture, Pass::Full, true);
    assert_eq!(
        batched,
        vec![
            info(1, 1, BLACK),
            info(1, 0, LIGHT_ORANGE),
            info(0, 1, LIGHT_ORANGE),
            info(0, 0, DARK_PINK),
            info(2, 1, DARK_PINK),
        ]
    );
    let mut combined = Vec::new();
    append_pass(&mut combined, &picture, Pass::Full, false);
    assert_eq!(
        combined,
        vec![
            info(1, 1, BLACK),
            info(0, 0, DARK_PINK),
            info(1, 0, LIGHT_ORANGE),
            info(0, 1, LIGHT_ORANGE),
            info(2, 1, DARK_PINK),
        ]
    );
}

#[test]
fn append_queue_adds_behind() {
    let mut queue = DrawQueue::new();
    queue.push(info(1, 1, BLACK));
    queue.push(info(2, 2, LIGHT_RED));
    let mut list = vec![info(0, 0, DARK_RED)];
    append_queue(&mut list, &queue);
    assert_eq!(list, vec![info(0, 0, DARK_RED), info(1, 1, BLACK), info(2, 2, LIGHT_RED)]);
}

#[test]
fn every_palette_color_but_white_is_used_in_batches() {
    let order = batch_colors();
    assert_eq!(order.len(), 21);
    for index in [
        LIGHT_GREY, LIGHT_RED, LIGHT_ORANGE, LIGHT_YELLOW, LIGHT_GREEN, LIGHT_CYAN, LIGHT_BLUE,
        LIGHT_MAGENTA, LIGHT_PINK, LIGHT_BROWN, BLACK, DARK_GREY, DARK_RED, DARK_ORANGE,
        DARK_YELLOW, DARK_GREEN, DARK_CYAN, DARK_BLUE, DARK_MAGENTA, DARK_PINK, DARK_BROWN,
    ] {
        assert!(order.contains(&palette_color(index)));
    }
    assert!(!order.contains(&palette_color(WHITE)));
}

#[test]
fn batches_hold_what_the_plain_pass_holds() {
    let picture = image(
        4,
        3,
        &[
            DARK_PINK, LIGHT_ORANGE, WHITE, LIGHT_ORANGE, BLACK, DARK_PINK, LIGHT_GREY, WHITE,
            DARK_BLUE, BLACK, LIGHT_PINK, DARK_PINK,
        ],
    );
    for pass in [Pass::Full, Pass::Odd, Pass::Even] {
        let mut batched = Vec::new();
        append_pass(&mut batched, &picture, pass, true);
        let mut plain = Vec::new();
        append_pass(&mut plain, &picture, pass, false);
        assert_eq!(batched.len(), plain.len());
        for item in &plain {
            assert_eq!(batched.iter().filter(|b| *b == item).count(), 1);
        }
    }
}

#[test]
fn equal_brightness_keeps_the_order_of_arrival() {
    let list = [info(0, 0, DARK_PINK), info(1, 0, LIGHT_ORANGE), info(2, 0, DARK_PINK)];
    assert_eq!(sorted(&list), list.to_vec());
}
