//! Traversal policies: which pixels of an image a draw pass queues, and in what order.
use vstd::prelude::*;
use crate::bitmap::Image;
use crate::colors::{
    eraser, is_palette_color, is_palette_image, lemma_palette_distinct, palette, palette_color,
    Color, MAX_BRIGHTNESS, PALETTE_SIZE,
};
use crate::queue::{
    all_in_palette, has_no_eraser, is_drawn, lemma_filter_in_palette, lemma_levels_below_of_empty,
    lemma_sorted_has_no_eraser, lemma_sorted_in_palette, lemma_sorted_is_permutation,
    sorted_by_brightness, DrawInfo, DrawQueue,
};

verus! {

/// The pixels that one pass over an image visits.
#[derive(PartialEq, Eq, Structural, Copy, Clone, Debug)]
pub enum Pass {
    /// Every pixel.
    Full,
    /// The pixels for which column plus row is odd: the first half of a checkerboard.
    Odd,
    /// The pixels for which column plus row is even: the second half of a checkerboard.
    Even,
}

impl Pass {
    /// Whether the pass visits the pixel in column `x` and row `y`.
    pub open spec fn spec_covers(self, x: int, y: int) -> bool {
        match self {
            Pass::Full => true,
            Pass::Odd => (x + y) % 2 == 1,
            Pass::Even => (x + y) % 2 == 0,
        }
    }

    /// Whether the pass visits the pixel in column `x` and row `y`.
    pub fn covers(&self, x: u32, y: u32) -> (yes: bool)
        ensures
            yes == self.spec_covers(x as int, y as int),
    {
        let odd: bool = (x % 2) != (y % 2);
        match self {
            Pass::Full => true,
            Pass::Odd => odd,
            Pass::Even => !odd,
        }
    }
}

/// The instruction for the pixel with index `k` in row-major order.
pub open spec fn instruction_at(pixels: Seq<Color>, width: int, k: int) -> DrawInfo {
    DrawInfo { x: (k % width) as u32, y: (k / width) as u32, color: pixels[k] }
}

/// One instruction for each pixel, in row-major order.
pub open spec fn all_instructions(pixels: Seq<Color>, width: int) -> Seq<DrawInfo> {
    Seq::new(pixels.len(), |k: int| instruction_at(pixels, width, k))
}

/// The test whether a pass queues an instruction: its color is not the eraser, the
/// pass visits its pixel, and, where the pass is for one color only, it has that color.
pub open spec fn selects(pass: Pass, only: Option<Color>) -> spec_fn(DrawInfo) -> bool {
    |info: DrawInfo|
        {
            &&& info.color != eraser()
            &&& pass.spec_covers(info.x as int, info.y as int)
            &&& (only matches Some(color) ==> info.color == color)
        }
}

/// The instructions that a pass queues, in row-major order.
pub open spec fn selected_instructions(
    pixels: Seq<Color>,
    width: int,
    pass: Pass,
    only: Option<Color>,
) -> Seq<DrawInfo> {
    all_instructions(pixels, width).filter(selects(pass, only))
}

/// The instructions of a full raster: every pixel but the eraser-colored, row by row.
pub open spec fn raster_instructions(pixels: Seq<Color>, width: int) -> Seq<DrawInfo> {
    selected_instructions(pixels, width, Pass::Full, None)
}

fn is_selected(pass: Pass, only: Option<Color>, info: DrawInfo) -> (yes: bool)
    ensures
        yes == selects(pass, only)(info),
{
    if info.color.is_eraser() || !pass.covers(info.x, info.y) {
        false
    } else {
        match only {
            Some(color) => info.color == color,
            None => true,
        }
    }
}

impl DrawQueue {
    /// Queues the pixels of `image` that `pass` visits, row by row from the top and
    /// each row from left to right, without the eraser-colored ones. With `only`,
    /// the queue holds the pixels of that color alone.
    pub fn build(image: &Image, pass: Pass, only: Option<Color>) -> (q: DrawQueue)
        ensures
            q@ == selected_instructions(image@, image.spec_width(), pass, only),
            has_no_eraser(q@),
    {
        proof {
            lemma_selected_has_no_eraser(image@, image.spec_width(), pass, only);
        }
        let pixels = image.pixels();
        let width = image.width();
        let height = image.height();
        let ghost all = all_instructions(image@, width as int);
        let mut q = DrawQueue::new();
        proof {
            assert(all.take(0) =~= Seq::<DrawInfo>::empty());
            lemma_filter_empty(selects(pass, only));
        }
        let mut y: u32 = 0;
        while y < height
            invariant
                y <= height,
                pixels@ == image@,
                pixels.len() == width * height,
                all == all_instructions(image@, width as int),
                q@ == all.take(y * width).filter(selects(pass, only)),
            decreases height - y,
        {
            let mut x: u32 = 0;
            while x < width
                invariant
                    x <= width,
                    y < height,
                    pixels@ == image@,
                    pixels.len() == width * height,
                    all == all_instructions(image@, width as int),
                    q@ == all.take(y * width + x).filter(selects(pass, only)),
                decreases width - x,
            {
                proof {
                    crate::bitmap::lemma_pixel_index_in_range(
                        width as int,
                        height as int,
                        x as int,
                        y as int,
                    );
                    lemma_row_major(width as int, x as int, y as int);
                }
                let k: usize = y as usize * width as usize + x as usize;
                let info = DrawInfo { x, y, color: pixels[k] };
                proof {
                    assert(all[k as int] == info);
                    assert(all.take(k + 1) =~= all.take(k as int).push(info));
                    all.take(k as int).lemma_filter_push(info, selects(pass, only));
                }
                if is_selected(pass, only, info) {
                    q.push(info);
                }
                x += 1;
            }
            proof {
                assert((y + 1) * width == y * width + width) by (nonlinear_arith);
            }
            y += 1;
        }
        proof {
            assert(y * width == width * height) by (nonlinear_arith)
                requires
                    y == height,
            ;
            assert(all.take(y * width) =~= all);
        }
        q
    }
}

/// One instruction for each palette color, in picker order, the eraser left out.
pub open spec fn palette_instructions() -> Seq<DrawInfo> {
    Seq::new(PALETTE_SIZE as nat, |i: int| DrawInfo { x: i as u32, y: 0, color: palette()[i] }).filter(
        is_drawn(),
    )
}

/// The colors in the order in which batches are drawn: the palette without the
/// eraser, darkest first, colors of equal brightness in picker order.
pub open spec fn batch_order() -> Seq<Color> {
    sorted_by_brightness(palette_instructions()).map_values(|info: DrawInfo| info.color)
}

/// The instructions of a pass that draws one color after the other: for each of
/// `colors` in turn, the pixels of that color in row-major order.
pub open spec fn batched(pixels: Seq<Color>, width: int, pass: Pass, colors: Seq<Color>) -> Seq<
    DrawInfo,
>
    decreases colors.len(),
{
    if colors.len() == 0 {
        Seq::empty()
    } else {
        batched(pixels, width, pass, colors.drop_last()) + selected_instructions(
            pixels,
            width,
            pass,
            Some(colors.last()),
        )
    }
}

/// The instructions of one pass in drawing order. Batched, each color has a run of
/// its own, in [`batch_order`]; otherwise all pixels of the pass are sorted by
/// brightness, darkest first.
pub open spec fn pass_instructions(pixels: Seq<Color>, width: int, pass: Pass, batch: bool) -> Seq<
    DrawInfo,
> {
    if batch {
        batched(pixels, width, pass, batch_order())
    } else {
        sorted_by_brightness(selected_instructions(pixels, width, pass, None))
    }
}

/// The instructions of a whole session in drawing order: one full pass, or, as a
/// checkerboard, the odd half followed by the even half.
pub open spec fn session_instructions(
    pixels: Seq<Color>,
    width: int,
    checkerboard: bool,
    batch: bool,
) -> Seq<DrawInfo> {
    if checkerboard {
        pass_instructions(pixels, width, Pass::Odd, batch) + pass_instructions(
            pixels,
            width,
            Pass::Even,
            batch,
        )
    } else {
        pass_instructions(pixels, width, Pass::Full, batch)
    }
}

/// The colors in the order in which batches are drawn.
pub fn batch_colors() -> (colors: Vec<Color>)
    ensures
        colors@ == batch_order(),
{
    let ghost all = Seq::new(
        PALETTE_SIZE as nat,
        |i: int| DrawInfo { x: i as u32, y: 0, color: palette()[i] },
    );
    let mut queue = DrawQueue::new();
    proof {
        assert(all.take(0) =~= Seq::<DrawInfo>::empty());
        lemma_filter_empty(is_drawn());
    }
    let mut i: usize = 0;
    while i < PALETTE_SIZE
        invariant
            i <= PALETTE_SIZE,
            all == Seq::new(
                PALETTE_SIZE as nat,
                |i: int| DrawInfo { x: i as u32, y: 0, color: palette()[i] },
            ),
            queue@ == all.take(i as int).filter(is_drawn()),
        decreases PALETTE_SIZE - i,
    {
        let info = DrawInfo { x: i as u32, y: 0, color: palette_color(i) };
        proof {
            assert(all[i as int] == info);
            assert(all.take(i + 1) =~= all.take(i as int).push(info));
            all.take(i as int).lemma_filter_push(info, is_drawn());
        }
        queue.push(info);
        i += 1;
    }
    assert(all.take(i as int) =~= all);
    queue.sort();
    let sorted = queue.instructions();
    let mut colors: Vec<Color> = Vec::new();
    let mut j: usize = 0;
    while j < sorted.len()
        invariant
            j <= sorted.len(),
            colors.len() == j,
            forall|k: int| 0 <= k < j ==> #[trigger] colors[k] == sorted[k].color,
        decreases sorted.len() - j,
    {
        colors.push(sorted[j].color);
        j += 1;
    }
    assert(colors@ =~= batch_order());
    colors
}

/// Appends the instructions of `queue` to `target`.
pub fn append_queue(target: &mut Vec<DrawInfo>, queue: &DrawQueue)
    ensures
        final(target)@ == old(target)@ + queue@,
{
    let instructions = queue.instructions();
    let mut j: usize = 0;
    while j < instructions.len()
        invariant
            j <= instructions.len(),
            instructions@ == queue@,
            target@ == old(target)@ + instructions@.take(j as int),
        decreases instructions.len() - j,
    {
        target.push(instructions[j]);
        proof {
            assert(instructions@.take(j + 1) =~= instructions@.take(j as int).push(
                instructions[j as int],
            ));
            assert(target@ =~= old(target)@ + instructions@.take(j + 1));
        }
        j += 1;
    }
    assert(instructions@.take(j as int) =~= instructions@);
}

/// Appends the instructions of one pass over `image`, in drawing order, to `target`.
pub fn append_pass(target: &mut Vec<DrawInfo>, image: &Image, pass: Pass, batch: bool)
    ensures
        final(target)@ == old(target)@ + pass_instructions(
            image@,
            image.spec_width(),
            pass,
            batch,
        ),
{
    if batch {
        let colors = batch_colors();
        let mut i: usize = 0;
        assert(colors@.take(0) =~= Seq::<Color>::empty());
        while i < colors.len()
            invariant
                i <= colors.len(),
                colors@ == batch_order(),
                target@ == old(target)@ + batched(
                    image@,
                    image.spec_width(),
                    pass,
                    colors@.take(i as int),
                ),
            decreases colors.len() - i,
        {
            let queue = DrawQueue::build(image, pass, Some(colors[i]));
            append_queue(target, &queue);
            proof {
                let next = colors@.take(i + 1);
                assert(next.drop_last() =~= colors@.take(i as int));
                assert(next.last() == colors[i as int]);
                assert(target@ =~= old(target)@ + batched(
                    image@,
                    image.spec_width(),
                    pass,
                    next,
                ));
            }
            i += 1;
        }
        assert(colors@.take(i as int) =~= colors@);
    } else {
        let mut queue = DrawQueue::build(image, pass, None);
        queue.sort();
        append_queue(target, &queue);
    }
}

/// The test whether a color is the eraser.
pub open spec fn is_eraser_color() -> spec_fn(Color) -> bool {
    |c: Color| c == eraser()
}

/// Number of eraser-colored pixels.
pub open spec fn eraser_count(pixels: Seq<Color>) -> nat {
    pixels.filter(is_eraser_color()).len()
}

proof fn lemma_raster_prefix_len(pixels: Seq<Color>, width: int, n: int)
    requires
        0 <= n <= pixels.len(),
    ensures
        all_instructions(pixels, width).take(n).filter(selects(Pass::Full, None)).len() == n
            - eraser_count(pixels.take(n)),
    decreases n,
{
    let all = all_instructions(pixels, width);
    if n == 0 {
        assert(all.take(0) =~= Seq::<DrawInfo>::empty());
        assert(pixels.take(0) =~= Seq::<Color>::empty());
        lemma_filter_empty(selects(Pass::Full, None));
        assert(Seq::<Color>::empty().filter(is_eraser_color()).len() == 0) by {
            reveal(Seq::filter);
        }
    } else {
        lemma_raster_prefix_len(pixels, width, n - 1);
        let info = all[n - 1];
        assert(all.take(n) =~= all.take(n - 1).push(info));
        assert(pixels.take(n) =~= pixels.take(n - 1).push(pixels[n - 1]));
        all.take(n - 1).lemma_filter_push(info, selects(Pass::Full, None));
        pixels.take(n - 1).lemma_filter_push(pixels[n - 1], is_eraser_color());
    }
}

/// A full raster holds one instruction for each pixel that is not eraser-colored.
pub proof fn lemma_raster_len(pixels: Seq<Color>, width: int)
    ensures
        raster_instructions(pixels, width).len() == pixels.len() - eraser_count(pixels),
{
    lemma_raster_prefix_len(pixels, width, pixels.len() as int);
    assert(all_instructions(pixels, width).take(pixels.len() as int) =~= all_instructions(
        pixels,
        width,
    ));
    assert(pixels.take(pixels.len() as int) =~= pixels);
}

/// Where every instruction passes exactly one of two tests or neither, those that
/// pass the one and those that pass the other are, taken together, those that pass
/// either.
proof fn lemma_filter_split(
    s: Seq<DrawInfo>,
    p: spec_fn(DrawInfo) -> bool,
    q: spec_fn(DrawInfo) -> bool,
    r: spec_fn(DrawInfo) -> bool,
)
    requires
        forall|i: int|
            0 <= i < s.len() ==> r(#[trigger] s[i]) == (p(s[i]) || q(s[i])) && !(p(s[i]) && q(
                s[i],
            )),
    ensures
        s.filter(p).to_multiset().add(s.filter(q).to_multiset()) == s.filter(r).to_multiset(),
    decreases s.len(),
{
    broadcast use vstd::seq_lib::group_to_multiset_ensures;

    if s.len() == 0 {
        assert(s =~= Seq::<DrawInfo>::empty());
        lemma_filter_empty(p);
        lemma_filter_empty(q);
        lemma_filter_empty(r);
        assert(s.filter(p).to_multiset().add(s.filter(q).to_multiset()) =~= s.filter(
            r,
        ).to_multiset());
    } else {
        let front = s.drop_last();
        let info = s.last();
        assert(s =~= front.push(info));
        assert forall|i: int| 0 <= i < front.len() implies r(#[trigger] front[i]) == (p(front[i])
            || q(front[i])) && !(p(front[i]) && q(front[i])) by {
            assert(front[i] == s[i]);
        }
        assert(info == s[s.len() - 1]);
        lemma_filter_split(front, p, q, r);
        front.lemma_filter_push(info, p);
        front.lemma_filter_push(info, q);
        front.lemma_filter_push(info, r);
        assert(s.filter(p).to_multiset().add(s.filter(q).to_multiset()) =~= s.filter(
            r,
        ).to_multiset());
    }
}

/// Two tests that agree on every instruction of a list select the same from it.
proof fn lemma_filter_agree(
    s: Seq<DrawInfo>,
    p: spec_fn(DrawInfo) -> bool,
    q: spec_fn(DrawInfo) -> bool,
)
    requires
        forall|i: int| 0 <= i < s.len() ==> p(#[trigger] s[i]) == q(s[i]),
    ensures
        s.filter(p) == s.filter(q),
    decreases s.len(),
{
    if s.len() == 0 {
        assert(s =~= Seq::<DrawInfo>::empty());
        lemma_filter_empty(p);
        lemma_filter_empty(q);
    } else {
        let front = s.drop_last();
        let info = s.last();
        assert(s =~= front.push(info));
        assert forall|i: int| 0 <= i < front.len() implies p(#[trigger] front[i]) == q(
            front[i],
        ) by {
            assert(front[i] == s[i]);
        }
        assert(info == s[s.len() - 1]);
        lemma_filter_agree(front, p, q);
        front.lemma_filter_push(info, p);
        front.lemma_filter_push(info, q);
    }
}

proof fn lemma_split_by_parity(s: Seq<DrawInfo>, only: Option<Color>)
    ensures
        s.filter(selects(Pass::Odd, only)).to_multiset().add(
            s.filter(selects(Pass::Even, only)).to_multiset(),
        ) == s.filter(selects(Pass::Full, only)).to_multiset(),
{
    lemma_filter_split(
        s,
        selects(Pass::Odd, only),
        selects(Pass::Even, only),
        selects(Pass::Full, only),
    );
}

/// The two halves of a checkerboard hold, between them, exactly the instructions of
/// the full pass: each one in one half, as often as the full pass holds it.
pub proof fn lemma_checkerboard_partition(pixels: Seq<Color>, width: int, only: Option<Color>)
    ensures
        selected_instructions(pixels, width, Pass::Odd, only).to_multiset().add(
            selected_instructions(pixels, width, Pass::Even, only).to_multiset(),
        ) == selected_instructions(pixels, width, Pass::Full, only).to_multiset(),
        selected_instructions(pixels, width, Pass::Odd, only).len() + selected_instructions(
            pixels,
            width,
            Pass::Even,
            only,
        ).len() == selected_instructions(pixels, width, Pass::Full, only).len(),
{
    lemma_split_by_parity(all_instructions(pixels, width), only);
    let odd = selected_instructions(pixels, width, Pass::Odd, only);
    let even = selected_instructions(pixels, width, Pass::Even, only);
    let full = selected_instructions(pixels, width, Pass::Full, only);
    odd.to_multiset_ensures();
    even.to_multiset_ensures();
    full.to_multiset_ensures();
    vstd::seq_lib::lemma_multiset_commutative(odd, even);
    (odd + even).to_multiset_ensures();
}

/// Without batches, a session draws one instruction for each pixel that is not
/// eraser-colored, as one pass or as a checkerboard.
pub proof fn lemma_session_len(pixels: Seq<Color>, width: int, checkerboard: bool)
    ensures
        session_instructions(pixels, width, checkerboard, false).len() == pixels.len()
            - eraser_count(pixels),
{
    lemma_raster_len(pixels, width);
    lemma_checkerboard_partition(pixels, width, None);
    lemma_sorted_is_permutation(selected_instructions(pixels, width, Pass::Odd, None));
    lemma_sorted_is_permutation(selected_instructions(pixels, width, Pass::Even, None));
    lemma_sorted_is_permutation(selected_instructions(pixels, width, Pass::Full, None));
}

/// The test whether a pass queues an instruction when it draws the given colors only.
pub open spec fn selects_among(pass: Pass, colors: Seq<Color>) -> spec_fn(DrawInfo) -> bool {
    |info: DrawInfo| selects(pass, None)(info) && colors.contains(info.color)
}

/// Batches for colors that are all different hold what the pass selects of these colors.
proof fn lemma_batched_is_selection(pixels: Seq<Color>, width: int, pass: Pass, colors: Seq<Color>)
    requires
        colors.no_duplicates(),
    ensures
        batched(pixels, width, pass, colors).to_multiset() == all_instructions(
            pixels,
            width,
        ).filter(selects_among(pass, colors)).to_multiset(),
    decreases colors.len(),
{
    broadcast use vstd::seq_lib::group_to_multiset_ensures;

    let all = all_instructions(pixels, width);
    if colors.len() == 0 {
        assert(all.all(|info: DrawInfo| !selects_among(pass, colors)(info)));
        all.lemma_all_neg_filter_empty(selects_among(pass, colors));
        assert(all.filter(selects_among(pass, colors)) =~= Seq::<DrawInfo>::empty());
        assert(batched(pixels, width, pass, colors) =~= Seq::<DrawInfo>::empty());
    } else {
        let front = colors.drop_last();
        let last = colors.last();
        assert(colors =~= front.push(last));
        assert(front.no_duplicates()) by {
            assert forall|i: int, j: int| 0 <= i < front.len() && 0 <= j < front.len() && i
                != j implies front[i] != front[j] by {
                assert(front[i] == colors[i] && front[j] == colors[j]);
            }
        }
        assert(!front.contains(last)) by {
            if front.contains(last) {
                let i = choose|i: int| 0 <= i < front.len() && front[i] == last;
                assert(colors[i] == colors[colors.len() - 1]);
            }
        }
        lemma_batched_is_selection(pixels, width, pass, front);
        assert forall|i: int| 0 <= i < all.len() implies selects_among(pass, colors)(
            #[trigger] all[i],
        ) == (selects_among(pass, front)(all[i]) || selects(pass, Some(last))(all[i]))
            && !(selects_among(pass, front)(all[i]) && selects(pass, Some(last))(all[i])) by {
            let c = all[i].color;
            if front.contains(c) {
                let j = choose|j: int| 0 <= j < front.len() && front[j] == c;
                assert(colors[j] == c);
            }
            if colors.contains(c) && c != last {
                let j = choose|j: int| 0 <= j < colors.len() && colors[j] == c;
                assert(front[j] == c);
            }
            assert(colors[colors.len() - 1] == last);
        }
        lemma_filter_split(
            all,
            selects_among(pass, front),
            selects(pass, Some(last)),
            selects_among(pass, colors),
        );
        vstd::seq_lib::lemma_multiset_commutative(
            batched(pixels, width, pass, front),
            selected_instructions(pixels, width, pass, Some(last)),
        );
    }
}

/// Filtering keeps a list free of repetitions.
proof fn lemma_filter_no_duplicates(s: Seq<DrawInfo>, pred: spec_fn(DrawInfo) -> bool)
    requires
        s.no_duplicates(),
    ensures
        s.filter(pred).no_duplicates(),
    decreases s.len(),
{
    if s.len() == 0 {
        assert(s =~= Seq::<DrawInfo>::empty());
        lemma_filter_empty(pred);
    } else {
        let front = s.drop_last();
        let info = s.last();
        assert(s =~= front.push(info));
        assert(front.no_duplicates()) by {
            assert forall|i: int, j: int| 0 <= i < front.len() && 0 <= j < front.len() && i
                != j implies front[i] != front[j] by {
                assert(front[i] == s[i] && front[j] == s[j]);
            }
        }
        lemma_filter_no_duplicates(front, pred);
        front.lemma_filter_push(info, pred);
        if pred(info) {
            let kept = front.filter(pred);
            if kept.contains(info) {
                front.lemma_filter_contains_rev(pred, info);
                let i = choose|i: int| 0 <= i < front.len() && front[i] == info;
                assert(s[i] == s[s.len() - 1]);
            }
            assert forall|i: int, j: int| 0 <= i < kept.push(info).len() && 0 <= j < kept.push(
                info,
            ).len() && i != j implies kept.push(info)[i] != kept.push(info)[j] by {
                if i < kept.len() && j < kept.len() {
                    assert(kept[i] != kept[j]);
                } else if i < kept.len() {
                    assert(kept.contains(kept[i]));
                } else {
                    assert(kept.contains(kept[j]));
                }
            }
        }
    }
}

/// One instruction for each palette color, in picker order.
spec fn palette_list() -> Seq<DrawInfo> {
    Seq::new(PALETTE_SIZE as nat, |i: int| DrawInfo { x: i as u32, y: 0, color: palette()[i] })
}

/// The batches are for colors that are all different, and there is one for every
/// palette color but the eraser.
pub proof fn lemma_batch_order_is_the_palette()
    ensures
        batch_order().no_duplicates(),
        forall|c: Color| is_palette_color(c) && c != eraser() ==> batch_order().contains(c),
        forall|i: int|
            0 <= i < batch_order().len() ==> is_palette_color(#[trigger] batch_order()[i])
                && batch_order()[i] != eraser(),
{
    broadcast use vstd::seq_lib::group_to_multiset_ensures;

    let base = palette_list();
    let drawn = palette_instructions();
    let sorted = sorted_by_brightness(drawn);
    let order = batch_order();
    assert(drawn == base.filter(is_drawn()));
    assert(base.no_duplicates()) by {
        assert forall|i: int, j: int| 0 <= i < base.len() && 0 <= j < base.len() && i
            != j implies base[i] != base[j] by {
            assert(base[i].x != base[j].x);
        }
    }
    lemma_filter_no_duplicates(base, is_drawn());
    drawn.lemma_multiset_has_no_duplicates();
    lemma_sorted_is_permutation(drawn);
    sorted.lemma_multiset_has_no_duplicates_conv();
    sorted.to_multiset_ensures();
    drawn.to_multiset_ensures();
    // Every instruction of the sorted list is one of the palette list, and drawn.
    assert forall|m: int| 0 <= m < sorted.len() implies exists|i: int|
        0 <= i < PALETTE_SIZE && base[i] == #[trigger] sorted[m] && palette()[i] != eraser() by {
        let info = sorted[m];
        assert(sorted.contains(info));
        assert(sorted.to_multiset().count(info) > 0);
        assert(drawn.contains(info));
        let d = choose|d: int| 0 <= d < drawn.len() && drawn[d] == info;
        base.lemma_filter_pred(is_drawn(), d);
        base.lemma_filter_contains_rev(is_drawn(), info);
        let i = choose|i: int| 0 <= i < base.len() && base[i] == info;
        assert(base[i].color == palette()[i]);
    }
    assert forall|a: int, b: int| 0 <= a < order.len() && 0 <= b < order.len() && a
        != b implies order[a] != order[b] by {
        let i = choose|i: int| 0 <= i < PALETTE_SIZE && base[i] == sorted[a];
        let j = choose|j: int| 0 <= j < PALETTE_SIZE && base[j] == sorted[b];
        assert(sorted[a] != sorted[b]);
        if i != j {
            lemma_palette_distinct(i, j);
        }
    }
    assert forall|c: Color| is_palette_color(c) && c != eraser() implies order.contains(c) by {
        let i = choose|i: int| 0 <= i < PALETTE_SIZE && #[trigger] palette()[i] == c;
        let info = base[i];
        assert(is_drawn()(info));
        base.lemma_filter_contains(is_drawn(), i);
        assert(drawn.to_multiset().count(info) > 0);
        assert(sorted.contains(info));
        let m = choose|m: int| 0 <= m < sorted.len() && sorted[m] == info;
        assert(order[m] == c);
    }
    assert forall|m: int| 0 <= m < order.len() implies is_palette_color(#[trigger] order[m])
        && order[m] != eraser() by {
        let i = choose|i: int|
            0 <= i < PALETTE_SIZE && base[i] == sorted[m] && palette()[i] != eraser();
        assert(order[m] == palette()[i]);
    }
}

/// Drawn in batches, a pass over a palette image holds the same instructions as
/// drawn in one queue, each as often; only their order differs.
pub proof fn lemma_batched_pass_is_plain_pass(pixels: Seq<Color>, width: int, pass: Pass)
    requires
        is_palette_image(pixels),
    ensures
        pass_instructions(pixels, width, pass, true).to_multiset() == pass_instructions(
            pixels,
            width,
            pass,
            false,
        ).to_multiset(),
        pass_instructions(pixels, width, pass, true).len() == pass_instructions(
            pixels,
            width,
            pass,
            false,
        ).len(),
{
    let all = all_instructions(pixels, width);
    lemma_batch_order_is_the_palette();
    lemma_batched_is_selection(pixels, width, pass, batch_order());
    assert forall|i: int| 0 <= i < all.len() implies selects_among(pass, batch_order())(
        #[trigger] all[i],
    ) == selects(pass, None)(all[i]) by {
        assert(all[i].color == pixels[i]);
    }
    lemma_filter_agree(all, selects_among(pass, batch_order()), selects(pass, None));
    lemma_sorted_is_permutation(selected_instructions(pixels, width, pass, None));
    pass_instructions(pixels, width, pass, true).to_multiset_ensures();
    pass_instructions(pixels, width, pass, false).to_multiset_ensures();
}

/// A session over a palette image draws one instruction for each pixel that is not
/// eraser-colored, in batches or not, as one pass or as a checkerboard.
pub proof fn lemma_palette_session_len(
    pixels: Seq<Color>,
    width: int,
    checkerboard: bool,
    batch: bool,
)
    requires
        is_palette_image(pixels),
    ensures
        session_instructions(pixels, width, checkerboard, batch).len() == pixels.len()
            - eraser_count(pixels),
{
    lemma_session_len(pixels, width, checkerboard);
    lemma_batched_pass_is_plain_pass(pixels, width, Pass::Odd);
    lemma_batched_pass_is_plain_pass(pixels, width, Pass::Even);
    lemma_batched_pass_is_plain_pass(pixels, width, Pass::Full);
}

/// A batch holds one color: drawing it never asks for another color.
pub proof fn lemma_batch_has_one_color(
    pixels: Seq<Color>,
    width: int,
    pass: Pass,
    color: Color,
    i: int,
)
    requires
        0 <= i < selected_instructions(pixels, width, pass, Some(color)).len(),
    ensures
        selected_instructions(pixels, width, pass, Some(color))[i].color == color,
{
    all_instructions(pixels, width).lemma_filter_pred(selects(pass, Some(color)), i);
}

/// The two halves of a checkerboard share no instruction.
pub proof fn lemma_checkerboard_disjoint(
    pixels: Seq<Color>,
    width: int,
    only: Option<Color>,
    i: int,
    j: int,
)
    requires
        0 <= i < selected_instructions(pixels, width, Pass::Odd, only).len(),
        0 <= j < selected_instructions(pixels, width, Pass::Even, only).len(),
    ensures
        selected_instructions(pixels, width, Pass::Odd, only)[i] != selected_instructions(
            pixels,
            width,
            Pass::Even,
            only,
        )[j],
{
    let all = all_instructions(pixels, width);
    all.lemma_filter_pred(selects(Pass::Odd, only), i);
    all.lemma_filter_pred(selects(Pass::Even, only), j);
}

proof fn lemma_all_instructions_in_palette(pixels: Seq<Color>, width: int)
    requires
        is_palette_image(pixels),
    ensures
        all_in_palette(all_instructions(pixels, width)),
{
    let all = all_instructions(pixels, width);
    assert forall|i: int| 0 <= i < all.len() implies is_palette_color((#[trigger] all[i]).color) by {
        assert(all[i].color == pixels[i]);
    }
}

proof fn lemma_batched_in_palette(pixels: Seq<Color>, width: int, pass: Pass, colors: Seq<Color>)
    requires
        is_palette_image(pixels),
    ensures
        all_in_palette(batched(pixels, width, pass, colors)),
    decreases colors.len(),
{
    if colors.len() > 0 {
        lemma_batched_in_palette(pixels, width, pass, colors.drop_last());
        lemma_all_instructions_in_palette(pixels, width);
        lemma_filter_in_palette(all_instructions(pixels, width), selects(pass, Some(colors.last())));
    }
}

/// Every instruction of a pass over a palette image has a palette color.
pub proof fn lemma_pass_in_palette(pixels: Seq<Color>, width: int, pass: Pass, batch: bool)
    requires
        is_palette_image(pixels),
    ensures
        all_in_palette(pass_instructions(pixels, width, pass, batch)),
{
    if batch {
        lemma_batched_in_palette(pixels, width, pass, batch_order());
    } else {
        lemma_all_instructions_in_palette(pixels, width);
        lemma_filter_in_palette(all_instructions(pixels, width), selects(pass, None));
        lemma_sorted_in_palette(selected_instructions(pixels, width, pass, None));
    }
}

/// Every instruction of a session over a palette image has a palette color: such
/// an image can always be drawn.
pub proof fn lemma_session_in_palette(
    pixels: Seq<Color>,
    width: int,
    checkerboard: bool,
    batch: bool,
)
    requires
        is_palette_image(pixels),
    ensures
        all_in_palette(session_instructions(pixels, width, checkerboard, batch)),
{
    lemma_pass_in_palette(pixels, width, Pass::Odd, batch);
    lemma_pass_in_palette(pixels, width, Pass::Even, batch);
    lemma_pass_in_palette(pixels, width, Pass::Full, batch);
}

/// No pass queues an eraser-colored pixel.
pub proof fn lemma_selected_has_no_eraser(
    pixels: Seq<Color>,
    width: int,
    pass: Pass,
    only: Option<Color>,
)
    ensures
        has_no_eraser(selected_instructions(pixels, width, pass, only)),
{
    let all = all_instructions(pixels, width);
    let chosen = selected_instructions(pixels, width, pass, only);
    assert forall|i: int| 0 <= i < chosen.len() implies (#[trigger] chosen[i]).color
        != eraser() by {
        all.lemma_filter_pred(selects(pass, only), i);
    }
}

proof fn lemma_batched_has_no_eraser(pixels: Seq<Color>, width: int, pass: Pass, colors: Seq<Color>)
    ensures
        has_no_eraser(batched(pixels, width, pass, colors)),
    decreases colors.len(),
{
    if colors.len() > 0 {
        lemma_batched_has_no_eraser(pixels, width, pass, colors.drop_last());
        lemma_selected_has_no_eraser(pixels, width, pass, Some(colors.last()));
    }
}

/// No pass draws an eraser-colored pixel.
pub proof fn lemma_pass_has_no_eraser(pixels: Seq<Color>, width: int, pass: Pass, batch: bool)
    ensures
        has_no_eraser(pass_instructions(pixels, width, pass, batch)),
{
    if batch {
        lemma_batched_has_no_eraser(pixels, width, pass, batch_order());
    } else {
        lemma_selected_has_no_eraser(pixels, width, pass, None);
        lemma_sorted_has_no_eraser(selected_instructions(pixels, width, pass, None));
    }
}

/// No session draws an eraser-colored pixel.
pub proof fn lemma_session_has_no_eraser(
    pixels: Seq<Color>,
    width: int,
    checkerboard: bool,
    batch: bool,
)
    ensures
        has_no_eraser(session_instructions(pixels, width, checkerboard, batch)),
{
    lemma_pass_has_no_eraser(pixels, width, Pass::Odd, batch);
    lemma_pass_has_no_eraser(pixels, width, Pass::Even, batch);
    lemma_pass_has_no_eraser(pixels, width, Pass::Full, batch);
}

/// Every pixel has the eraser color.
pub open spec fn is_blank(pixels: Seq<Color>) -> bool {
    forall|k: int| 0 <= k < pixels.len() ==> #[trigger] pixels[k] == eraser()
}

proof fn lemma_blank_selects_nothing(
    pixels: Seq<Color>,
    width: int,
    pass: Pass,
    only: Option<Color>,
)
    requires
        is_blank(pixels),
    ensures
        selected_instructions(pixels, width, pass, only) == Seq::<DrawInfo>::empty(),
{
    let all = all_instructions(pixels, width);
    assert(all.all(|info: DrawInfo| !selects(pass, only)(info))) by {
        assert forall|i: int| 0 <= i < all.len() implies !selects(pass, only)(#[trigger] all[i]) by {
            assert(all[i].color == pixels[i]);
        }
    }
    all.lemma_all_neg_filter_empty(selects(pass, only));
    assert(all.filter(selects(pass, only)) =~= Seq::<DrawInfo>::empty());
}

proof fn lemma_blank_batches_nothing(pixels: Seq<Color>, width: int, pass: Pass, colors: Seq<Color>)
    requires
        is_blank(pixels),
    ensures
        batched(pixels, width, pass, colors) == Seq::<DrawInfo>::empty(),
    decreases colors.len(),
{
    if colors.len() > 0 {
        lemma_blank_batches_nothing(pixels, width, pass, colors.drop_last());
        lemma_blank_selects_nothing(pixels, width, pass, Some(colors.last()));
        assert(batched(pixels, width, pass, colors) =~= Seq::<DrawInfo>::empty());
    }
}

/// An image of eraser-colored pixels alone gives no instruction, whatever the settings.
pub proof fn lemma_blank_image_draws_nothing(
    pixels: Seq<Color>,
    width: int,
    checkerboard: bool,
    batch: bool,
)
    requires
        is_blank(pixels),
    ensures
        session_instructions(pixels, width, checkerboard, batch) == Seq::<DrawInfo>::empty(),
{
    if batch {
        lemma_blank_batches_nothing(pixels, width, Pass::Odd, batch_order());
        lemma_blank_batches_nothing(pixels, width, Pass::Even, batch_order());
        lemma_blank_batches_nothing(pixels, width, Pass::Full, batch_order());
    } else {
        lemma_blank_selects_nothing(pixels, width, Pass::Odd, None);
        lemma_blank_selects_nothing(pixels, width, Pass::Even, None);
        lemma_blank_selects_nothing(pixels, width, Pass::Full, None);
        lemma_levels_below_of_empty(MAX_BRIGHTNESS + 1);
    }
    assert(session_instructions(pixels, width, checkerboard, batch) =~= Seq::<DrawInfo>::empty());
}

/// Nothing remains of the empty sequence under any test.
pub proof fn lemma_filter_empty(pred: spec_fn(DrawInfo) -> bool)
    ensures
        Seq::<DrawInfo>::empty().filter(pred) == Seq::<DrawInfo>::empty(),
{
    reveal(Seq::filter);
}

/// In a grid `width` wide, the cell in column `x` and row `y` has index `y * width + x`,
/// and column and row are found again from the index.
pub proof fn lemma_row_major(width: int, x: int, y: int)
    requires
        0 <= x < width,
        0 <= y,
    ensures
        (y * width + x) % width == x,
        (y * width + x) / width == y,
{
    vstd::arithmetic::div_mod::lemma_fundamental_div_mod_converse(y * width + x, width, y, x);
    assert(width * y == y * width) by (nonlinear_arith);
}

} // verus!
