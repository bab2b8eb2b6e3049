//! Session geometry: the drawing area, the color picker and where each palette color sits.
use vstd::prelude::*;
use std::collections::HashMap;
use crate::colors::{
    is_palette_color, palette, palette_color, palette_index_of, Color, ColorCoord,
    PALETTE_COLUMNS, PALETTE_SIZE,
};
use crate::desktop::{ClickType, PointerAction};
use crate::bitmap::times;
use crate::queue::DrawInfo;

verus! {

/// A rectangle on the screen. For the drawing area it is the area itself; for the color
/// picker it is the cell of the first color, and the other cells follow at the same size.
#[derive(PartialEq, Eq, Structural, Copy, Clone, Debug)]
pub struct Box {
    pub x: u32,
    pub y: u32,
    pub width: u32,
    pub height: u32,
}

impl Box {
    /// Whether no field is zero. A field left at zero stands for a value not entered.
    pub open spec fn spec_is_set(self) -> bool {
        self.x != 0 && self.y != 0 && self.width != 0 && self.height != 0
    }

    /// Whether no field is zero.
    pub fn is_set(&self) -> (set: bool)
        ensures
            set == self.spec_is_set(),
    {
        self.x != 0 && self.y != 0 && self.width != 0 && self.height != 0
    }
}

/// Whether the positions of a session have been entered: both boxes, every field.
pub fn is_ready(drawing_area: &Box, color_box: &Box) -> (ready: bool)
    ensures
        ready == (drawing_area.spec_is_set() && color_box.spec_is_set()),
{
    drawing_area.is_set() && color_box.is_set()
}

/// Why a session cannot start.
#[derive(PartialEq, Eq, Structural, Copy, Clone, Debug)]
pub enum ConfigError {
    /// The color picker reaches beyond the largest screen coordinate.
    ColorBox,
    /// The drawing area reaches beyond the largest screen coordinate.
    DrawingArea,
    /// A pixel to draw has a color that the picker does not offer.
    UnknownColor,
}

/// Center of the picker cell in the given column and row.
pub open spec fn cell_center(color_box: Box, column: int, row: int) -> (int, int) {
    (
        color_box.x + color_box.width / 2 + column * color_box.width,
        color_box.y + color_box.height / 2 + row * color_box.height,
    )
}

/// Whether the centers of all 22 picker cells are screen coordinates.
pub open spec fn color_box_fits(color_box: Box) -> bool {
    &&& cell_center(color_box, PALETTE_COLUMNS - 1, 1).0 <= u32::MAX
    &&& cell_center(color_box, PALETTE_COLUMNS - 1, 1).1 <= u32::MAX
}

/// Where the palette color with the given index is picked: the light row is row 0,
/// the dark row is row 1, and the column is the place within the row.
pub open spec fn color_position(color_box: Box, index: int) -> ColorCoord {
    let center = cell_center(
        color_box,
        index % (PALETTE_COLUMNS as int),
        index / (PALETTE_COLUMNS as int),
    );
    ColorCoord { x: center.0 as u32, y: center.1 as u32 }
}

/// The picker position of every palette color.
pub open spec fn color_positions(color_box: Box) -> Map<Color, ColorCoord> {
    Map::new(
        |c: Color| is_palette_color(c),
        |c: Color| color_position(color_box, palette_index_of(c)),
    )
}

/// The number under which a color is kept in a map: its three channels as the
/// digits of a number to the base 256.
pub open spec fn color_key(c: Color) -> u32 {
    (c.r as int * 65536 + c.g as int * 256 + c.b as int) as u32
}

/// Two colors with the same key are the same color.
pub proof fn lemma_color_key_injective(a: Color, b: Color)
    requires
        color_key(a) == color_key(b),
    ensures
        a == b,
{
}

fn key_of(c: Color) -> (key: u32)
    ensures
        key == color_key(c),
{
    (c.r as u32) * 65536 + (c.g as u32) * 256 + c.b as u32
}

/// Maps each palette color to the screen position where it is picked.
#[derive(Debug)]
pub struct ColorPositionMap {
    coords: HashMap<u32, ColorCoord>,
}

impl View for ColorPositionMap {
    type V = Map<Color, ColorCoord>;

    closed spec fn view(&self) -> Map<Color, ColorCoord> {
        Map::new(
            |c: Color| self.coords@.contains_key(color_key(c)),
            |c: Color| self.coords@[color_key(c)],
        )
    }
}

impl ColorPositionMap {
    #[verifier::type_invariant]
    spec fn inv(&self) -> bool {
        forall|c: Color| self.coords@.contains_key(#[trigger] color_key(c)) <==> is_palette_color(c)
    }

    /// The position of `color`, if the picker offers it.
    pub fn get(&self, color: Color) -> (coord: Option<ColorCoord>)
        ensures
            coord == if self@.dom().contains(color) {
                Some(self@[color])
            } else {
                None
            },
            self@.dom().contains(color) <==> is_palette_color(color),
    {
        broadcast use vstd::std_specs::hash::group_hash_axioms;

        proof {
            use_type_invariant(self);
        }
        let key = key_of(color);
        match self.coords.get(&key) {
            Some(coord) => Some(*coord),
            None => None,
        }
    }
}

/// The first `n` palette colors have their positions in `coords`, and nothing else has.
spec fn holds_first(coords: Map<u32, ColorCoord>, color_box: Box, n: int) -> bool {
    &&& forall|c: Color|
        coords.contains_key(#[trigger] color_key(c)) <==> exists|j: int|
            0 <= j < n && #[trigger] palette()[j] == c
    &&& forall|j: int|
        0 <= j < n ==> coords[color_key(#[trigger] palette()[j])] == color_position(color_box, j)
}

proof fn lemma_holds_next(
    coords: Map<u32, ColorCoord>,
    color_box: Box,
    n: int,
    color: Color,
    coord: ColorCoord,
)
    requires
        0 <= n < PALETTE_SIZE,
        holds_first(coords, color_box, n),
        color == palette()[n],
        coord == color_position(color_box, n),
    ensures
        holds_first(coords.insert(color_key(color), coord), color_box, n + 1),
{
    let next = coords.insert(color_key(color), coord);
    assert forall|c: Color| next.contains_key(#[trigger] color_key(c)) <==> exists|j: int|
        0 <= j < n + 1 && #[trigger] palette()[j] == c by {
        if color_key(c) == color_key(color) {
            lemma_color_key_injective(c, color);
            assert(palette()[n] == c);
        } else if coords.contains_key(color_key(c)) {
            let j = choose|j: int| 0 <= j < n && #[trigger] palette()[j] == c;
            assert(0 <= j < n + 1 && palette()[j] == c);
        } else {
            if exists|j: int| 0 <= j < n + 1 && #[trigger] palette()[j] == c {
                let j = choose|j: int| 0 <= j < n + 1 && #[trigger] palette()[j] == c;
                assert(j < n);
            }
        }
    }
    assert forall|j: int| 0 <= j < n + 1 implies next[color_key(#[trigger] palette()[j])]
        == color_position(color_box, j) by {
        if j < n {
            if color_key(palette()[j]) == color_key(color) {
                lemma_color_key_injective(palette()[j], color);
                crate::colors::lemma_palette_distinct(j, n);
            }
        }
    }
}

/// Lays the palette out over the picker: eleven columns and two rows of cells of the
/// size of `color_box`, the first at `color_box`, each color at the center of its cell.
pub fn calculate_color_positions(color_box: Box) -> (res: Result<ColorPositionMap, ConfigError>)
    ensures
        match res {
            Ok(map) => color_box_fits(color_box) && map@ == color_positions(color_box),
            Err(e) => !color_box_fits(color_box) && e == ConfigError::ColorBox,
        },
{
    let xmiddle: u64 = color_box.x as u64 + (color_box.width / 2) as u64;
    let ymiddle: u64 = color_box.y as u64 + (color_box.height / 2) as u64;
    let xlast: u64 = xmiddle + color_box.width as u64 * 10;
    let ylast: u64 = ymiddle + color_box.height as u64;
    if xlast > u32::MAX as u64 || ylast > u32::MAX as u64 {
        return Err(ConfigError::ColorBox);
    }
    let mut coords: HashMap<u32, ColorCoord> = HashMap::new();
    let mut index: usize = 0;
    while index < PALETTE_SIZE
        invariant
            index <= PALETTE_SIZE,
            color_box_fits(color_box),
            xmiddle == color_box.x + color_box.width / 2,
            ymiddle == color_box.y + color_box.height / 2,
            holds_first(coords@, color_box, index as int),
        decreases PALETTE_SIZE - index,
    {
        broadcast use vstd::std_specs::hash::group_hash_axioms;

        let column: u32 = (index % PALETTE_COLUMNS) as u32;
        let row: u32 = (index / PALETTE_COLUMNS) as u32;
        assert(column * color_box.width <= 10 * color_box.width) by (nonlinear_arith)
            requires
                0 <= column <= 10,
                color_box.width >= 0,
        ;
        assert(row * color_box.height <= color_box.height) by (nonlinear_arith)
            requires
                0 <= row <= 1,
                color_box.height >= 0,
        ;
        let xpos: u64 = xmiddle + times(column, color_box.width);
        let ypos: u64 = ymiddle + times(row, color_box.height);
        let color = palette_color(index);
        let coord = ColorCoord { x: xpos as u32, y: ypos as u32 };
        proof {
            lemma_holds_next(coords@, color_box, index as int, color, coord);
        }
        coords.insert(key_of(color), coord);
        index += 1;
    }
    let map = ColorPositionMap { coords };
    assert(map@ =~= color_positions(color_box)) by {
        assert forall|c: Color| is_palette_color(c) implies #[trigger] map@[c] == color_positions(
            color_box,
        )[c] by {
            let i = palette_index_of(c);
            assert(palette()[i] == c);
        }
    }
    Ok(map)
}

/// Whether the far corner of the drawing area is a screen position.
pub open spec fn drawing_area_fits(drawing_area: Box) -> bool {
    &&& drawing_area.x + drawing_area.width <= u32::MAX
    &&& drawing_area.y + drawing_area.height <= u32::MAX
}

/// What a drawing session is set up with.
pub struct Setup {
    /// The canvas on the screen.
    pub drawing_area: Box,
    /// Whether the image is drawn in two interleaved halves.
    pub checkerboard: bool,
    /// Whether each color is drawn in a pass of its own.
    pub batch_colors: bool,
    /// Milliseconds to wait after a click.
    pub delay: u64,
    /// Side of the square of screen pixels that one image pixel covers.
    pub step: u32,
    /// Where each palette color is picked.
    pub color_coords: Map<Color, ColorCoord>,
}

/// Distance of an image pixel from the edge of the canvas, along one axis.
pub open spec fn canvas_offset(coordinate: int, step: int) -> int {
    coordinate * step + 1
}

/// Whether the pixel of an instruction lies on the canvas.
pub open spec fn on_canvas(setup: Setup, info: DrawInfo) -> bool {
    &&& canvas_offset(info.x as int, setup.step as int) <= setup.drawing_area.width
    &&& canvas_offset(info.y as int, setup.step as int) <= setup.drawing_area.height
}

/// Where on the screen the pixel of an instruction is drawn.
pub open spec fn canvas_position(setup: Setup, info: DrawInfo) -> (int, int) {
    (
        setup.drawing_area.x + canvas_offset(info.x as int, setup.step as int),
        setup.drawing_area.y + canvas_offset(info.y as int, setup.step as int),
    )
}

/// A pixel on the canvas is drawn inside the drawing area, at a position of the
/// screen, whenever the area itself lies on the screen.
pub proof fn lemma_click_inside_area(setup: Setup, info: DrawInfo)
    requires
        drawing_area_fits(setup.drawing_area),
        on_canvas(setup, info),
    ensures
        setup.drawing_area.x < canvas_position(setup, info).0 <= setup.drawing_area.x
            + setup.drawing_area.width,
        setup.drawing_area.y < canvas_position(setup, info).1 <= setup.drawing_area.y
            + setup.drawing_area.height,
        canvas_position(setup, info).0 <= u32::MAX,
        canvas_position(setup, info).1 <= u32::MAX,
{
    assert(info.x * setup.step >= 0) by (nonlinear_arith)
        requires
            info.x >= 0,
            setup.step >= 0,
    ;
    assert(info.y * setup.step >= 0) by (nonlinear_arith)
        requires
            info.y >= 0,
            setup.step >= 0,
    ;
}

/// What the pointer does for one instruction. Where the color differs from the one
/// picked last, it first picks the color: a move to its place on the picker, a click,
/// a wait. Then it draws: a move to the pixel's place on the canvas and a click, both
/// left out for a pixel off the canvas, and a wait.
pub open spec fn instruction_actions(setup: Setup, last_color: Option<Color>, info: DrawInfo) -> Seq<
    PointerAction,
> {
    let coord = setup.color_coords[info.color];
    let pick = if last_color != Some(info.color) {
        seq![
            PointerAction::MoveCursor { x: coord.x, y: coord.y },
            PointerAction::LeftClick(ClickType::Once),
            PointerAction::Wait { millis: setup.delay },
        ]
    } else {
        Seq::empty()
    };
    let place = if on_canvas(setup, info) {
        seq![
            PointerAction::MoveCursor {
                x: canvas_position(setup, info).0 as u32,
                y: canvas_position(setup, info).1 as u32,
            },
            PointerAction::LeftClick(ClickType::Once),
        ]
    } else {
        Seq::empty()
    };
    pick + place + seq![PointerAction::Wait { millis: setup.delay }]
}

/// The settings of a drawing session. The drawing area of a drawer lies on the
/// screen; every function that takes a drawer says so.
#[derive(Debug)]
pub struct Drawer {
    drawing_area: Box,
    checkerboard: bool,
    batch_colors: bool,
    delay: u64,
    step: u32,
    color_coords: ColorPositionMap,
}

impl View for Drawer {
    type V = Setup;

    closed spec fn view(&self) -> Setup {
        Setup {
            drawing_area: self.drawing_area,
            checkerboard: self.checkerboard,
            batch_colors: self.batch_colors,
            delay: self.delay,
            step: self.step,
            color_coords: self.color_coords@,
        }
    }
}

impl Drawer {
    #[verifier::type_invariant]
    spec fn inv(&self) -> bool {
        drawing_area_fits(self.drawing_area)
    }

    /// A session that draws into `drawing_area` and picks colors from the picker that
    /// starts at `color_box`, with `delay` milliseconds after each click and `step`
    /// screen pixels to the image pixel. Colors are not batched.
    pub fn new(drawing_area: Box, color_box: Box, checkerboard: bool, delay: u64, step: u32) -> (res:
        Result<Drawer, ConfigError>)
        ensures
            match res {
                Ok(drawer) => {
                    &&& drawing_area_fits(drawing_area)
                    &&& color_box_fits(color_box)
                    &&& drawer@.drawing_area == drawing_area
                    &&& drawer@.checkerboard == checkerboard
                    &&& drawer@.batch_colors == false
                    &&& drawer@.delay == delay
                    &&& drawer@.step == step
                    &&& drawer@.color_coords == color_positions(color_box)
                },
                Err(e) => if !drawing_area_fits(drawing_area) {
                    e == ConfigError::DrawingArea
                } else {
                    !color_box_fits(color_box) && e == ConfigError::ColorBox
                },
            },
    {
        if drawing_area.x as u64 + drawing_area.width as u64 > u32::MAX as u64 || drawing_area.y as u64
            + drawing_area.height as u64 > u32::MAX as u64 {
            return Err(ConfigError::DrawingArea);
        }
        match calculate_color_positions(color_box) {
            Ok(color_coords) => Ok(
                Drawer {
                    drawing_area,
                    checkerboard,
                    batch_colors: false,
                    delay,
                    step,
                    color_coords,
                },
            ),
            Err(e) => Err(e),
        }
    }

    /// Chooses whether each color is drawn in a pass of its own.
    pub fn set_batch_colors(&mut self, batch_colors: bool)
        ensures
            final(self)@ == (Setup { batch_colors, ..old(self)@ }),
            drawing_area_fits(final(self)@.drawing_area),
    {
        proof {
            use_type_invariant(&*self);
        }
        self.batch_colors = batch_colors;
    }

    /// The canvas on the screen.
    pub fn drawing_area(&self) -> (area: Box)
        ensures
            area == self@.drawing_area,
            drawing_area_fits(area),
    {
        proof {
            use_type_invariant(self);
        }
        self.drawing_area
    }

    /// Whether the image is drawn in two interleaved halves.
    pub fn checkerboard(&self) -> (on: bool)
        ensures
            on == self@.checkerboard,
    {
        self.checkerboard
    }

    /// Whether each color is drawn in a pass of its own.
    pub fn batch_colors(&self) -> (on: bool)
        ensures
            on == self@.batch_colors,
    {
        self.batch_colors
    }

    /// What the pointer does for `info` when `last_color` was picked last. The color
    /// of `info` must be one that the picker offers.
    pub fn actions_for(&self, last_color: Option<Color>, info: DrawInfo) -> (actions: Vec<
        PointerAction,
    >)
        requires
            is_palette_color(info.color),
        ensures
            actions@ == instruction_actions(self@, last_color, info),
            drawing_area_fits(self@.drawing_area),
    {
        proof {
            use_type_invariant(self);
        }
        let mut actions: Vec<PointerAction> = Vec::new();
        let switch = match last_color {
            Some(color) => color != info.color,
            None => true,
        };
        if switch {
            match self.color_coords.get(info.color) {
                Some(coord) => {
                    actions.push(PointerAction::MoveCursor { x: coord.x, y: coord.y });
                    actions.push(PointerAction::LeftClick(ClickType::Once));
                    actions.push(PointerAction::Wait { millis: self.delay });
                },
                None => {},
            }
        }
        let offset_x: u64 = times(info.x, self.step) + 1;
        let offset_y: u64 = times(info.y, self.step) + 1;
        if offset_x <= self.drawing_area.width as u64 && offset_y <= self.drawing_area.height as u64 {
            actions.push(
                PointerAction::MoveCursor {
                    x: (self.drawing_area.x as u64 + offset_x) as u32,
                    y: (self.drawing_area.y as u64 + offset_y) as u32,
                },
            );
            actions.push(PointerAction::LeftClick(ClickType::Once));
        }
        actions.push(PointerAction::Wait { millis: self.delay });
        assert(actions@ =~= instruction_actions(self@, last_color, info));
        actions
    }
}

} // verus!
