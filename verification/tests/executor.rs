use skribbl_bot::bitmap::Image;
use skribbl_bot::colors::{
    palette_color, Color, ColorCoord, BLACK, DARK_BROWN, DARK_PINK, LIGHT_BROWN, LIGHT_ORANGE,
    LIGHT_RED, PALETTE_SIZE, WHITE,
};
use skribbl_bot::desktop::{ClickType, PointerAction};
use skribbl_bot::drawer::{calculate_color_positions, is_ready, Box, ConfigError, Drawer};
use skribbl_bot::executor::Executor;
use skribbl_bot::queue::{DrawInfo, DrawQueue};

fn info(x: u32, y: u32, index: usize) -> DrawInfo {
    DrawInfo { x, y, color: palette_color(index) }
}

fn image(width: u32, height: u32, indices: &[usize]) -> Image {
    Image::new(width, height, indices.iter().map(|&i| palette_color(i)).collect()).unwrap()
}

fn area() -> Box {
    Box { x: 100, y: 200, width: 50, height: 40 }
}

fn picker() -> Box {
    Box { x: 0, y: 0, width: 10, height: 10 }
}

fn drawer(checkerboard: bool, batch: bool) -> Drawer {
    let mut drawer = Drawer::new(area(), picker(), checkerboard, 7, 3).unwrap();
    drawer.set_batch_colors(batch);
    drawer
}

fn go(x: u32, y: u32) -> PointerAction {
    PointerAction::MoveCursor { x, y }
}

fn click() -> PointerAction {
    PointerAction::LeftClick(ClickType::Once)
}

fn wait() -> PointerAction {
    PointerAction::Wait { millis: 7 }
}

/// Runs a session; the cancellation flag is found set before step `cancel_at`.
fn run(executor: &mut Executor, drawer: &Drawer, cancel_at: Option<usize>) -> Vec<PointerAction> {
    let mut all = Vec::new();
    let mut steps = 0;
    while !executor.is_stopped() {
        let running = cancel_at != Some(steps);
        all.extend(executor.step(drawer, running));
        steps += 1;
    }
    all
}

#[test]
fn color_positions_follow_the_grid() {
    let map = calculate_color_positions(picker()).unwrap();
    assert_eq!(map.get(palette_color(LIGHT_RED)), Some(ColorCoord { x: 25, y: 5 }));
    assert_eq!(map.get(palette_color(BLACK)), Some(ColorCoord { x: 5, y: 15 }));
    assert_eq!(map.get(palette_color(WHITE)), Some(ColorCoord { x: 5, y: 5 }));
    assert_eq!(map.get(palette_color(LIGHT_BROWN)), Some(ColorCoord { x: 105, y: 5 }));
    assert_eq!(map.get(palette_color(DARK_BROWN)), Some(ColorCoord { x: 105, y: 15 }));
}

#[test]
fn color_positions_start_at_the_box() {
    let map = calculate_color_positions(Box { x: 300, y: 40, width: 24, height: 25 }).unwrap();
    for index in 0..PALETTE_SIZE {
        let column = (index % 11) as u32;
        let row = (index / 11) as u32;
        assert_eq!(
            map.get(palette_color(index)),
            Some(ColorCoord { x: 300 + 12 + column * 24, y: 40 + 12 + row * 25 })
        );
    }
}

#[test]
fn color_positions_know_only_the_palette() {
    let map = calculate_color_positions(picker()).unwrap();
    assert_eq!(map.get(Color { r: 1, g: 2, b: 3 }), None);
}

#[test]
fn color_box_must_fit_the_screen() {
    let wide = Box { x: u32::MAX - 100, y: 0, width: 10, height: 10 };
    assert_eq!(calculate_color_positions(wide).err(), Some(ConfigError::ColorBox));
    let fits = Box { x: u32::MAX - 105, y: 0, width: 10, height: 10 };
    assert!(calculate_color_positions(fits).is_ok());
    let tall = Box { x: 0, y: u32::MAX - 14, width: 10, height: 10 };
    assert_eq!(calculate_color_positions(tall).err(), Some(ConfigError::ColorBox));
    let huge = Box { x: 0, y: 0, width: u32::MAX, height: u32::MAX };
    assert_eq!(calculate_color_positions(huge).err(), Some(ConfigError::ColorBox));
}

#[test]
fn drawing_area_must_fit_the_screen() {
    let wide = Box { x: u32::MAX, y: 0, width: 1, height: 1 };
    assert_eq!(Drawer::new(wide, picker(), false, 7, 3).err(), Some(ConfigError::DrawingArea));
    let tall = Box { x: 0, y: u32::MAX - 1, width: 1, height: 2 };
    assert_eq!(Drawer::new(tall, picker(), false, 7, 3).err(), Some(ConfigError::DrawingArea));
    let bad_picker = Box { x: u32::MAX, y: 0, width: 10, height: 10 };
    assert_eq!(Drawer::new(area(), bad_picker, false, 7, 3).err(), Some(ConfigError::ColorBox));
    assert_eq!(Drawer::new(wide, bad_picker, false, 7, 3).err(), Some(ConfigError::DrawingArea));
    let edge = Box { x: u32::MAX - 1, y: u32::MAX - 1, width: 1, height: 1 };
    assert!(Drawer::new(edge, picker(), false, 7, 3).is_ok());
}

#[test]
fn drawer_remembers_its_settings() {
    let mut drawer = Drawer::new(area(), picker(), true, 7, 3).unwrap();
    assert!(drawer.checkerboard());
    assert!(!drawer.batch_colors());
    drawer.set_batch_colors(true);
    assert!(drawer.batch_colors());
    assert!(drawer.checkerboard());
}

#[test]
fn positions_are_ready_when_no_field_is_zero() {
    assert!(is_ready(&area(), &Box { x: 1, y: 1, width: 10, height: 10 }));
    assert!(!is_ready(&area(), &picker()));
    assert!(!is_ready(&Box { x: 1, y: 1, width: 0, height: 1 }, &area()));
    assert!(!is_ready(&Box { x: 1, y: 1, width: 1, height: 0 }, &area()));
    assert!(!area().is_set() || area().width != 0);
    assert!(!Box { x: 0, y: 0, width: 0, height: 0 }.is_set());
}

#[test]
fn one_instruction_picks_then_draws() {
    let drawer = drawer(false, false);
    let mut executor = drawer.draw(&image(2, 1, &[LIGHT_RED, WHITE])).unwrap();
    assert_eq!(executor.remaining(), 1);
    let actions = run(&mut executor, &drawer, None);
    assert_eq!(actions, vec![go(25, 5), click(), wait(), go(101, 201), click(), wait()]);
    assert_eq!(executor.drawn(), 1);
    assert_eq!(executor.remaining(), 0);
}

#[test]
fn actions_for_one_instruction() {
    let drawer = drawer(false, false);
    let red = palette_color(LIGHT_RED);
    assert_eq!(
        drawer.actions_for(None, info(2, 3, LIGHT_RED)),
        vec![go(25, 5), click(), wait(), go(107, 210), click(), wait()]
    );
    assert_eq!(
        drawer.actions_for(Some(palette_color(BLACK)), info(2, 3, LIGHT_RED)),
        vec![go(25, 5), click(), wait(), go(107, 210), click(), wait()]
    );
    assert_eq!(
        drawer.actions_for(Some(red), info(2, 3, LIGHT_RED)),
        vec![go(107, 210), click(), wait()]
    );
}

#[test]
fn pixel_off_the_canvas_is_not_clicked() {
    // The canvas is 50 wide and 40 high; with three screen pixels to the image
    // pixel, column 16 is at offset 49 and column 17 at offset 52.
    let drawer = drawer(false, false);
    let red = Some(palette_color(LIGHT_RED));
    assert_eq!(drawer.actions_for(red, info(16, 0, LIGHT_RED)), vec![go(149, 201), click(), wait()]);
    assert_eq!(drawer.actions_for(red, info(17, 0, LIGHT_RED)), vec![wait()]);
    assert_eq!(drawer.actions_for(red, info(0, 13, LIGHT_RED)), vec![go(101, 240), click(), wait()]);
    assert_eq!(drawer.actions_for(red, info(0, 14, LIGHT_RED)), vec![wait()]);
    assert_eq!(
        drawer.actions_for(None, info(17, 0, LIGHT_RED)),
        vec![go(25, 5), click(), wait(), wait()]
    );
    assert_eq!(drawer.actions_for(red, info(u32::MAX, u32::MAX, LIGHT_RED)), vec![wait()]);
}

#[test]
fn all_white_image_asks_nothing_of_the_pointer() {
    let picture = image(4, 4, &[WHITE; 16]);
    for checkerboard in [false, true] {
        for batch in [false, true] {
            let drawer = drawer(checkerboard, batch);
            let mut executor = drawer.draw(&picture).unwrap();
            assert_eq!(executor.remaining(), 0);
            assert!(run(&mut executor, &drawer, None).is_empty());
            assert_eq!(executor.drawn(), 0);
        }
    }
}

#[test]
fn color_is_picked_only_when_it_changes() {
    let drawer = drawer(false, false);
    let mut executor = drawer.draw(&image(3, 1, &[BLACK, BLACK, LIGHT_RED])).unwrap();
    let actions = run(&mut executor, &drawer, None);
    assert_eq!(
        actions,
        vec![
            go(5, 15), click(), wait(), go(101, 201), click(), wait(),
            go(104, 201), click(), wait(),
            go(25, 5), click(), wait(), go(107, 201), click(), wait(),
        ]
    );
    assert_eq!(executor.drawn(), 3);
}

#[test]
fn cancelled_before_the_first_step_draws_nothing() {
    let drawer = drawer(false, false);
    let mut executor = drawer.draw(&image(3, 1, &[BLACK, BLACK, LIGHT_RED])).unwrap();
    assert!(executor.step(&drawer, false).is_empty());
    assert!(executor.is_stopped());
    assert_eq!(executor.drawn(), 0);
    assert_eq!(executor.remaining(), 3);
}

#[test]
fn cancelled_after_k_steps_reports_k() {
    let picture = image(3, 2, &[BLACK, LIGHT_RED, BLACK, DARK_PINK, BLACK, LIGHT_ORANGE]);
    let drawer = drawer(false, false);
    let mut whole = drawer.draw(&picture).unwrap();
    let script = run(&mut whole, &drawer, None);
    assert_eq!(whole.drawn(), 6);
    for k in 0..=6 {
        let mut executor = drawer.draw(&picture).unwrap();
        let actions = run(&mut executor, &drawer, Some(k));
        assert_eq!(executor.drawn(), k);
        assert_eq!(executor.remaining(), 6 - k);
        assert_eq!(actions[..], script[..actions.len()]);
        assert_eq!(actions.iter().filter(|a| **a == wait()).count() >= k, true);
    }
}

#[test]
fn nothing_happens_after_cancellation() {
    let drawer = drawer(false, false);
    let mut executor = drawer.draw(&image(3, 1, &[BLACK, BLACK, LIGHT_RED])).unwrap();
    assert!(!executor.step(&drawer, true).is_empty());
    assert!(executor.step(&drawer, false).is_empty());
    for _ in 0..5 {
        assert!(executor.step(&drawer, true).is_empty());
        assert!(executor.is_stopped());
        assert_eq!(executor.drawn(), 1);
        assert_eq!(executor.remaining(), 2);
    }
}

#[test]
fn session_ends_when_the_queue_is_empty() {
    let drawer = drawer(false, false);
    let mut executor = drawer.draw(&image(1, 1, &[BLACK])).unwrap();
    assert!(!executor.is_stopped());
    assert_eq!(executor.step(&drawer, true).len(), 6);
    assert!(!executor.is_stopped());
    assert!(executor.step(&drawer, true).is_empty());
    assert!(executor.is_stopped());
    assert_eq!(executor.drawn(), 1);
}

#[test]
fn checkerboard_draws_the_odd_half_first() {
    let picture = image(2, 2, &[BLACK, LIGHT_RED, LIGHT_RED, BLACK]);
    let drawer = drawer(true, false);
    let mut executor = drawer.draw(&picture).unwrap();
    let actions = run(&mut executor, &drawer, None);
    assert_eq!(
        actions,
        vec![
            go(25, 5), click(), wait(), go(104, 201), click(), wait(),
            go(101, 204), click(), wait(),
            go(5, 15), click(), wait(), go(101, 201), click(), wait(),
            go(104, 204), click(), wait(),
        ]
    );
}

#[test]
fn last_color_carries_over_between_the_halves() {
    // The odd half ends with black and the even half starts with black.
    let picture = image(2, 1, &[BLACK, BLACK]);
    let drawer = drawer(true, false);
    let mut executor = drawer.draw(&picture).unwrap();
    let actions = run(&mut executor, &drawer, None);
    assert_eq!(
        actions,
        vec![go(5, 15), click(), wait(), go(104, 201), click(), wait(), go(101, 201), click(), wait()]
    );
}

#[test]
fn batching_never_returns_to_a_color() {
    let picture = image(3, 2, &[DARK_PINK, LIGHT_ORANGE, WHITE, LIGHT_ORANGE, BLACK, DARK_PINK]);
    let count_picks = |batch: bool| {
        let drawer = drawer(false, batch);
        let mut executor = drawer.draw(&picture).unwrap();
        let actions = run(&mut executor, &drawer, None);
        assert_eq!(executor.drawn(), 5);
        actions.iter().filter(|a| matches!(a, PointerAction::MoveCursor { y, .. } if *y < 100)).count()
    };
    assert_eq!(count_picks(true), 3);
    assert_eq!(count_picks(false), 4);
}

#[test]
fn unknown_color_stops_the_session_before_it_starts() {
    let odd = Image::new(2, 1, vec![palette_color(BLACK), Color { r: 1, g: 2, b: 3 }]).unwrap();
    let drawer = drawer(false, false);
    assert_eq!(drawer.draw(&odd).err(), Some(ConfigError::UnknownColor));
    let list = vec![info(0, 0, BLACK), DrawInfo { x: 1, y: 0, color: Color { r: 1, g: 2, b: 3 } }];
    assert_eq!(Executor::new(list).err(), Some(ConfigError::UnknownColor));
    assert!(Executor::new(vec![info(0, 0, BLACK)]).is_ok());
    assert!(Executor::new(Vec::new()).is_ok());
}

#[test]
fn queue_is_sorted_when_drawn() {
    let mut queue = DrawQueue::new();
    queue.push(info(0, 0, LIGHT_RED));
    queue.push(info(1, 0, BLACK));
    let drawer = drawer(false, false);
    let mut executor = queue.draw().unwrap();
    let actions = run(&mut executor, &drawer, None);
    assert_eq!(
        actions,
        vec![
            go(5, 15), click(), wait(), go(104, 201), click(), wait(),
            go(25, 5), click(), wait(), go(101, 201), click(), wait(),
        ]
    );
    let mut strange = DrawQueue::new();
    strange.push(DrawInfo { x: 0, y: 0, color: Color { r: 1, g: 2, b: 3 } });
    assert_eq!(strange.draw().err(), Some(ConfigError::UnknownColor));
}

#[test]
fn clicks_press_and_release() {
    assert!(ClickType::Once.presses() && ClickType::Once.releases());
    assert!(ClickType::Down.presses() && !ClickType::Down.releases());
    assert!(!ClickType::Up.presses() && ClickType::Up.releases());
}

#[test]
fn eraser_is_never_drawn() {
    let list = vec![info(0, 0, WHITE), info(1, 0, BLACK), info(2, 0, WHITE)];
    let mut executor = Executor::new(list).unwrap();
    assert_eq!(executor.remaining(), 1);
    let drawer = drawer(false, false);
    let actions = run(&mut executor, &drawer, None);
    assert_eq!(actions, vec![go(5, 15), click(), wait(), go(104, 201), click(), wait()]);
    assert!(!actions.contains(&go(5, 5)));
    assert_eq!(executor.drawn(), 1);
}
