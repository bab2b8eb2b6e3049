//! Nearest-color matching over the palette, by Manhattan distance in RGB space.
use vstd::prelude::*;
use crate::colors::{palette, palette_color, is_palette_color, Color, PALETTE_SIZE};

verus! {

/// Absolute difference of two channel values.
pub open spec fn channel_distance(a: u8, b: u8) -> int {
    if a >= b {
        a - b
    } else {
        b - a
    }
}

/// Manhattan distance of two colors: the sum of the channel distances.
pub open spec fn distance(a: Color, b: Color) -> int {
    channel_distance(a.r, b.r) + channel_distance(a.g, b.g) + channel_distance(a.b, b.b)
}

/// `i` is the palette index that matching picks for `c`: no entry is closer to `c`, and
/// every entry before it in picker order is strictly farther away.
pub open spec fn is_nearest_index(c: Color, i: int) -> bool {
    &&& 0 <= i < PALETTE_SIZE
    &&& forall|j: int| 0 <= j < PALETTE_SIZE ==> distance(c, palette()[i]) <= distance(c, #[trigger] palette()[j])
    &&& forall|j: int| 0 <= j < i ==> distance(c, palette()[i]) < distance(c, #[trigger] palette()[j])
}

/// The palette index that matching picks for `c`.
pub open spec fn nearest_index(c: Color) -> int {
    choose|i: int| is_nearest_index(c, i)
}

/// The palette color that matching picks for `c`.
pub open spec fn nearest(c: Color) -> Color {
    palette()[nearest_index(c)]
}

/// `best` is the first closest entry among the first `n` palette entries.
spec fn is_nearest_among(c: Color, best: int, n: int) -> bool {
    &&& 0 <= best < n
    &&& forall|j: int| 0 <= j < n ==> distance(c, palette()[best]) <= distance(c, #[trigger] palette()[j])
    &&& forall|j: int| 0 <= j < best ==> distance(c, palette()[best]) < distance(c, #[trigger] palette()[j])
}

/// At most one index satisfies [`is_nearest_index`] for a color.
pub proof fn lemma_nearest_index_unique(c: Color, i: int, j: int)
    requires
        is_nearest_index(c, i),
        is_nearest_index(c, j),
    ensures
        i == j,
{
    if i < j {
        assert(distance(c, palette()[j]) < distance(c, palette()[i]));
        assert(distance(c, palette()[i]) <= distance(c, palette()[j]));
    } else if j < i {
        assert(distance(c, palette()[i]) < distance(c, palette()[j]));
        assert(distance(c, palette()[j]) <= distance(c, palette()[i]));
    }
}

/// Distance of a channel triple to a palette color, together with that color.
pub fn difference(image_color: [u8; 3], skribbl_color: Color) -> (res: (i32, Color))
    ensures
        res.0 == distance(
            (Color { r: image_color[0], g: image_color[1], b: image_color[2] }),
            skribbl_color,
        ),
        res.1 == skribbl_color,
{
    let image_r: i32 = image_color[0] as i32;
    let image_g: i32 = image_color[1] as i32;
    let image_b: i32 = image_color[2] as i32;

    let skribbl_r: i32 = skribbl_color.r as i32;
    let skribbl_g: i32 = skribbl_color.g as i32;
    let skribbl_b: i32 = skribbl_color.b as i32;

    let diff: i32 = abs_diff(image_r, skribbl_r) + abs_diff(image_g, skribbl_g) + abs_diff(
        image_b,
        skribbl_b,
    );

    (diff, skribbl_color)
}

fn abs_diff(a: i32, b: i32) -> (d: i32)
    requires
        0 <= a <= 255,
        0 <= b <= 255,
    ensures
        d == if a >= b { a - b } else { b - a },
{
    if a >= b {
        a - b
    } else {
        b - a
    }
}

/// The palette index that matching picks for `c`.
pub fn nearest_palette_index(c: Color) -> (best: usize)
    ensures
        is_nearest_index(c, best as int),
        best as int == nearest_index(c),
{
    let channels: [u8; 3] = [c.r, c.g, c.b];
    let mut best: usize = 0;
    let mut best_diff: i32 = difference(channels, palette_color(0)).0;
    let mut i: usize = 1;
    while i < PALETTE_SIZE
        invariant
            1 <= i <= PALETTE_SIZE,
            channels[0] == c.r,
            channels[1] == c.g,
            channels[2] == c.b,
            is_nearest_among(c, best as int, i as int),
            best_diff == distance(c, palette()[best as int]),
        decreases PALETTE_SIZE - i,
    {
        let diff: i32 = difference(channels, palette_color(i)).0;
        if diff < best_diff {
            best = i;
            best_diff = diff;
        }
        i += 1;
    }
    proof {
        assert(is_nearest_index(c, best as int));
        lemma_nearest_index_unique(c, best as int, nearest_index(c));
    }
    best
}

/// The palette color that matching picks for `c`.
pub fn nearest_color(c: Color) -> (p: Color)
    ensures
        p == nearest(c),
{
    palette_color(nearest_palette_index(c))
}

/// The color map of the drawing surface: it maps any color to its nearest palette color.
pub struct SkribblColorMap;

impl SkribblColorMap {
    /// Palette images are not indexed: every color has index 0.
    pub fn index_of(&self, color: &Color) -> (index: usize)
        ensures
            index == 0,
    {
        0
    }

    /// Replaces `color` by its nearest palette color.
    pub fn map_color(&self, color: &mut Color)
        ensures
            *final(color) == nearest(*old(color)),
    {
        let mapped = nearest_color(*color);
        *color = mapped;
    }
}

/// Every color has a nearest palette index.
pub proof fn lemma_nearest_index_exists(c: Color)
    ensures
        is_nearest_index(c, nearest_index(c)),
{
    lemma_nearest_among_exists(c, PALETTE_SIZE as int);
    let best = choose|best: int| is_nearest_among(c, best, PALETTE_SIZE as int);
    assert(is_nearest_index(c, best));
}

proof fn lemma_nearest_among_exists(c: Color, n: int)
    requires
        1 <= n <= PALETTE_SIZE,
    ensures
        exists|best: int| is_nearest_among(c, best, n),
    decreases n,
{
    if n == 1 {
        assert(is_nearest_among(c, 0, 1));
    } else {
        let m = n - 1;
        lemma_nearest_among_exists(c, m);
        let prev = choose|best: int| is_nearest_among(c, best, m);
        if distance(c, palette()[n - 1]) < distance(c, palette()[prev]) {
            assert(is_nearest_among(c, n - 1, n));
        } else {
            assert(is_nearest_among(c, prev, n));
        }
    }
}

/// An index that qualifies as the nearest is the one that matching picks.
pub proof fn lemma_nearest_is(c: Color, i: int)
    requires
        is_nearest_index(c, i),
    ensures
        nearest_index(c) == i,
        nearest(c) == palette()[i],
{
    lemma_nearest_index_exists(c);
    lemma_nearest_index_unique(c, i, nearest_index(c));
}

/// Matching always answers with a palette member.
pub proof fn lemma_nearest_is_palette_color(c: Color)
    ensures
        is_palette_color(nearest(c)),
{
    lemma_nearest_index_exists(c);
    assert(palette()[nearest_index(c)] == nearest(c));
}

/// Matching leaves every palette member as it is.
pub proof fn lemma_nearest_fixed_point(p: Color)
    requires
        is_palette_color(p),
    ensures
        nearest(p) == p,
{
    lemma_nearest_index_exists(p);
    let k = choose|k: int| 0 <= k < PALETTE_SIZE && #[trigger] palette()[k] == p;
    let i = nearest_index(p);
    assert(distance(p, palette()[k]) == 0);
    assert(distance(p, palette()[i]) <= distance(p, palette()[k]));
    let q = palette()[i];
    assert(channel_distance(p.r, q.r) == 0 && channel_distance(p.g, q.g) == 0 && channel_distance(
        p.b,
        q.b,
    ) == 0);
}

} // verus!
