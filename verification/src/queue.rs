//! The draw queue: per-pixel draw instructions in the order in which they are drawn.
use vstd::prelude::*;
use crate::colors::{eraser, is_palette_color, Color, MAX_BRIGHTNESS};

verus! {

/// One instruction: place `color` at the image pixel in column `x` and row `y`.
#[derive(PartialEq, Eq, Structural, Copy, Clone, Debug)]
pub struct DrawInfo {
    pub x: u32,
    pub y: u32,
    pub color: Color,
}

/// The test whether an instruction's color has the given brightness.
pub open spec fn has_level(level: int) -> spec_fn(DrawInfo) -> bool {
    |info: DrawInfo| info.color.spec_brightness() == level
}

/// The instructions of `s` whose color has the given brightness, in the order of `s`.
pub open spec fn at_level(s: Seq<DrawInfo>, level: int) -> Seq<DrawInfo> {
    s.filter(has_level(level))
}

/// The instructions of `s` with a brightness below `n`: darkest first, and those of
/// one brightness in the order of `s`.
pub open spec fn levels_below(s: Seq<DrawInfo>, n: int) -> Seq<DrawInfo>
    decreases n,
{
    if n <= 0 {
        Seq::empty()
    } else {
        levels_below(s, n - 1) + at_level(s, n - 1)
    }
}

/// `s` in drawing order: darkest colors first; instructions of equal brightness keep
/// the order in which they were queued.
pub open spec fn sorted_by_brightness(s: Seq<DrawInfo>) -> Seq<DrawInfo> {
    levels_below(s, MAX_BRIGHTNESS + 1)
}

/// The test whether an instruction is for a color that is drawn: any but the eraser.
pub open spec fn is_drawn() -> spec_fn(DrawInfo) -> bool {
    |info: DrawInfo| info.color != eraser()
}

/// No instruction of `s` has the eraser color.
pub open spec fn has_no_eraser(s: Seq<DrawInfo>) -> bool {
    forall|i: int| 0 <= i < s.len() ==> (#[trigger] s[i]).color != eraser()
}

/// Every instruction has a palette color.
pub open spec fn all_in_palette(instructions: Seq<DrawInfo>) -> bool {
    forall|i: int|
        0 <= i < instructions.len() ==> is_palette_color((#[trigger] instructions[i]).color)
}

/// An ordered sequence of draw instructions, none of them in the eraser color. Its
/// view is the sequence of its instructions, the first to draw first.
#[derive(Debug)]
pub struct DrawQueue {
    queue: Vec<DrawInfo>,
}

impl View for DrawQueue {
    type V = Seq<DrawInfo>;

    closed spec fn view(&self) -> Seq<DrawInfo> {
        self.queue@
    }
}

impl DrawQueue {
    #[verifier::type_invariant]
    spec fn inv(&self) -> bool {
        has_no_eraser(self.queue@)
    }

    /// An empty queue.
    pub fn new() -> (q: DrawQueue)
        ensures
            q@ == Seq::<DrawInfo>::empty(),
            has_no_eraser(q@),
    {
        DrawQueue { queue: Vec::new() }
    }

    /// Queues `info` behind the instructions already there. An instruction in the
    /// eraser color is dropped: the eraser is never drawn.
    pub fn push(&mut self, info: DrawInfo)
        ensures
            final(self)@ == if info.color == eraser() {
                old(self)@
            } else {
                old(self)@.push(info)
            },
            has_no_eraser(final(self)@),
    {
        proof {
            use_type_invariant(&*self);
        }
        if !info.color.is_eraser() {
            let mut taken = DrawQueue { queue: Vec::new() };
            core::mem::swap(self, &mut taken);
            let DrawQueue { queue } = taken;
            let mut queue = queue;
            queue.push(info);
            *self = DrawQueue { queue };
        }
    }

    /// Number of queued instructions.
    pub fn len(&self) -> (n: usize)
        ensures
            n == self@.len(),
            has_no_eraser(self@),
    {
        proof {
            use_type_invariant(self);
        }
        self.queue.len()
    }

    /// The queued instructions in order.
    pub fn instructions(&self) -> (all: &Vec<DrawInfo>)
        ensures
            all@ == self@,
            has_no_eraser(all@),
    {
        proof {
            use_type_invariant(self);
        }
        &self.queue
    }

    /// Brings the queue into drawing order: darkest colors first, instructions of
    /// equal brightness in the order in which they were queued.
    pub fn sort(&mut self)
        ensures
            final(self)@ == sorted_by_brightness(old(self)@),
            has_no_eraser(final(self)@),
    {
        let ghost before = self.queue@;
        proof {
            use_type_invariant(&*self);
            lemma_sorted_has_no_eraser(before);
        }
        let mut buckets: Vec<Vec<DrawInfo>> = Vec::new();
        let mut level: usize = 0;
        while level <= MAX_BRIGHTNESS as usize
            invariant
                level <= MAX_BRIGHTNESS + 1,
                buckets.len() == level,
                forall|b: int|
                    0 <= b < level ==> (#[trigger] buckets[b])@ == Seq::<DrawInfo>::empty(),
            decreases MAX_BRIGHTNESS + 1 - level,
        {
            buckets.push(Vec::new());
            level += 1;
        }
        proof {
            assert(before.take(0) =~= Seq::<DrawInfo>::empty());
            assert forall|b: int| 0 <= b <= MAX_BRIGHTNESS implies (#[trigger] buckets[b])@
                == at_level(before.take(0), b) by {
                lemma_at_level_empty(b);
            }
        }
        let mut i: usize = 0;
        while i < self.queue.len()
            invariant
                i <= self.queue.len(),
                self.queue@ == before,
                buckets.len() == MAX_BRIGHTNESS + 1,
                forall|b: int|
                    0 <= b <= MAX_BRIGHTNESS ==> (#[trigger] buckets[b])@ == at_level(
                        before.take(i as int),
                        b,
                    ),
            decreases self.queue.len() - i,
        {
            let info = self.queue[i];
            let level = info.color.brightness() as usize;
            let ghost filled = buckets@;
            buckets[level].push(info);
            proof {
                assert(before.take(i + 1) =~= before.take(i as int).push(info));
                assert forall|b: int| 0 <= b <= MAX_BRIGHTNESS implies (#[trigger] buckets[b])@
                    == at_level(before.take(i + 1), b) by {
                    lemma_at_level_push(before.take(i as int), info, b);
                    assert(filled[b]@ == at_level(before.take(i as int), b));
                }
            }
            i += 1;
        }
        assert(before.take(i as int) =~= before);
        let mut sorted: Vec<DrawInfo> = Vec::new();
        let mut level: usize = 0;
        while level <= MAX_BRIGHTNESS as usize
            invariant
                level <= MAX_BRIGHTNESS + 1,
                buckets.len() == MAX_BRIGHTNESS + 1,
                forall|b: int|
                    0 <= b <= MAX_BRIGHTNESS ==> (#[trigger] buckets[b])@ == at_level(before, b),
                sorted@ == levels_below(before, level as int),
            decreases MAX_BRIGHTNESS + 1 - level,
        {
            let bucket = &buckets[level];
            let ghost done = sorted@;
            let mut j: usize = 0;
            while j < bucket.len()
                invariant
                    j <= bucket.len(),
                    sorted@ == done + bucket@.take(j as int),
                decreases bucket.len() - j,
            {
                sorted.push(bucket[j]);
                proof {
                    assert(bucket@.take(j + 1) =~= bucket@.take(j as int).push(bucket[j as int]));
                    assert(sorted@ =~= done + bucket@.take(j + 1));
                }
                j += 1;
            }
            assert(bucket@.take(j as int) =~= bucket@);
            level += 1;
        }
        self.queue = sorted;
    }
}

/// Nothing is at any level of the empty sequence.
pub proof fn lemma_at_level_empty(level: int)
    ensures
        at_level(Seq::<DrawInfo>::empty(), level) == Seq::<DrawInfo>::empty(),
{
    reveal(Seq::filter);
}

/// Queueing an instruction appends it to its own level and changes no other level.
pub proof fn lemma_at_level_push(s: Seq<DrawInfo>, info: DrawInfo, level: int)
    ensures
        at_level(s.push(info), level) == if info.color.spec_brightness() == level {
            at_level(s, level).push(info)
        } else {
            at_level(s, level)
        },
{
    s.lemma_filter_push(info, has_level(level));
}

/// Every instruction at a level has that level's brightness.
pub proof fn lemma_at_level_brightness(s: Seq<DrawInfo>, level: int, i: int)
    requires
        0 <= i < at_level(s, level).len(),
    ensures
        at_level(s, level)[i].color.spec_brightness() == level,
{
    s.lemma_filter_pred(has_level(level), i);
}

/// Taking a level of a level gives the level itself, or nothing for another level.
pub proof fn lemma_at_level_twice(s: Seq<DrawInfo>, a: int, b: int)
    ensures
        at_level(at_level(s, a), b) == if a == b {
            at_level(s, a)
        } else {
            Seq::<DrawInfo>::empty()
        },
    decreases s.len(),
{
    if s.len() == 0 {
        lemma_at_level_empty(a);
        lemma_at_level_empty(b);
    } else {
        let front = s.drop_last();
        let info = s.last();
        assert(s =~= front.push(info));
        lemma_at_level_twice(front, a, b);
        lemma_at_level_push(front, info, a);
        if info.color.spec_brightness() == a {
            lemma_at_level_push(at_level(front, a), info, b);
        }
    }
}

/// The levels of the first `n` levels of `s` are those of `s`, as far as they are below `n`.
pub proof fn lemma_level_of_levels_below(s: Seq<DrawInfo>, n: int, level: int)
    ensures
        at_level(levels_below(s, n), level) == if level < n && 0 <= level {
            at_level(s, level)
        } else {
            Seq::<DrawInfo>::empty()
        },
    decreases n,
{
    if n <= 0 {
        lemma_at_level_empty(level);
    } else {
        lemma_level_of_levels_below(s, n - 1, level);
        lemma_at_level_twice(s, n - 1, level);
        Seq::filter_distributes_over_add(
            levels_below(s, n - 1),
            at_level(s, n - 1),
            has_level(level),
        );
        assert(at_level(levels_below(s, n), level) =~= at_level(levels_below(s, n - 1), level)
            + at_level(at_level(s, n - 1), level));
    }
}

/// Stability: sorting changes neither which instructions have a given brightness nor
/// their order among themselves.
pub proof fn lemma_sorted_keeps_levels(s: Seq<DrawInfo>, level: int)
    ensures
        at_level(sorted_by_brightness(s), level) == at_level(s, level),
{
    lemma_level_of_levels_below(s, MAX_BRIGHTNESS + 1, level);
    if !(0 <= level <= MAX_BRIGHTNESS) {
        assert(s.all(|info: DrawInfo| !has_level(level)(info)));
        s.lemma_all_neg_filter_empty(has_level(level));
        assert(at_level(s, level) =~= Seq::<DrawInfo>::empty());
    }
}

/// Instructions of one brightness are in drawing order as they are: sorting leaves
/// their order alone.
pub proof fn lemma_sorted_keeps_one_level(s: Seq<DrawInfo>, level: int)
    requires
        forall|i: int| 0 <= i < s.len() ==> (#[trigger] s[i]).color.spec_brightness() == level,
    ensures
        sorted_by_brightness(s) == s,
{
    if s.len() == 0 {
        assert(s =~= Seq::<DrawInfo>::empty());
        lemma_levels_below_of_empty(MAX_BRIGHTNESS + 1);
    } else {
        assert(s[0].color.spec_brightness() == level);
        lemma_one_level_below(s, level, MAX_BRIGHTNESS + 1);
    }
}

proof fn lemma_one_level_below(s: Seq<DrawInfo>, level: int, n: int)
    requires
        forall|i: int| 0 <= i < s.len() ==> (#[trigger] s[i]).color.spec_brightness() == level,
        0 <= level,
    ensures
        levels_below(s, n) == if n > level {
            s
        } else {
            Seq::<DrawInfo>::empty()
        },
    decreases n,
{
    if n > 0 {
        lemma_one_level_below(s, level, n - 1);
        lemma_level_of_one_level(s, level, n - 1);
        assert(levels_below(s, n) =~= if n > level {
            s
        } else {
            Seq::<DrawInfo>::empty()
        });
    }
}

proof fn lemma_level_of_one_level(s: Seq<DrawInfo>, level: int, other: int)
    requires
        forall|i: int| 0 <= i < s.len() ==> (#[trigger] s[i]).color.spec_brightness() == level,
    ensures
        at_level(s, other) == if other == level {
            s
        } else {
            Seq::<DrawInfo>::empty()
        },
    decreases s.len(),
{
    if s.len() == 0 {
        assert(s =~= Seq::<DrawInfo>::empty());
        lemma_at_level_empty(other);
    } else {
        let front = s.drop_last();
        assert(s =~= front.push(s.last()));
        assert forall|i: int| 0 <= i < front.len() implies (
        #[trigger] front[i]).color.spec_brightness() == level by {
            assert(front[i] == s[i]);
        }
        assert(s.last() == s[s.len() - 1]);
        lemma_level_of_one_level(front, level, other);
        lemma_at_level_push(front, s.last(), other);
    }
}

/// Sorting twice gives what sorting once gives.
pub proof fn lemma_sort_idempotent(s: Seq<DrawInfo>)
    ensures
        sorted_by_brightness(sorted_by_brightness(s)) == sorted_by_brightness(s),
{
    lemma_levels_below_of_sorted(s, MAX_BRIGHTNESS + 1);
}

proof fn lemma_levels_below_of_sorted(s: Seq<DrawInfo>, n: int)
    ensures
        levels_below(sorted_by_brightness(s), n) == levels_below(s, n),
    decreases n,
{
    if n > 0 {
        lemma_levels_below_of_sorted(s, n - 1);
        lemma_sorted_keeps_levels(s, n - 1);
    }
}

/// Every instruction among the first `n` levels has a brightness below `n`, and none
/// comes before a darker one.
pub proof fn lemma_levels_below_ordered(s: Seq<DrawInfo>, n: int)
    ensures
        forall|i: int|
            0 <= i < levels_below(s, n).len() ==> (#[trigger] levels_below(
                s,
                n,
            )[i]).color.spec_brightness() < n,
        forall|i: int, j: int|
            0 <= i <= j < levels_below(s, n).len() ==> (#[trigger] levels_below(
                s,
                n,
            )[i]).color.spec_brightness() <= (#[trigger] levels_below(
                s,
                n,
            )[j]).color.spec_brightness(),
    decreases n,
{
    if n > 0 {
        lemma_levels_below_ordered(s, n - 1);
        let front = levels_below(s, n - 1);
        let top = at_level(s, n - 1);
        let all = levels_below(s, n);
        assert(all == front + top);
        assert forall|i: int| 0 <= i < all.len() implies (#[trigger] all[i]).color.spec_brightness()
            < n && (i >= front.len() ==> all[i].color.spec_brightness() == n - 1) by {
            if i >= front.len() {
                lemma_at_level_brightness(s, n - 1, i - front.len());
            }
        }
    }
}

/// A sorted queue never has a brighter instruction before a darker one.
pub proof fn lemma_sorted_is_ordered(s: Seq<DrawInfo>, i: int, j: int)
    requires
        0 <= i <= j < sorted_by_brightness(s).len(),
    ensures
        sorted_by_brightness(s)[i].color.spec_brightness() <= sorted_by_brightness(
            s,
        )[j].color.spec_brightness(),
{
    lemma_levels_below_ordered(s, MAX_BRIGHTNESS + 1);
}

proof fn lemma_levels_below_push(s: Seq<DrawInfo>, info: DrawInfo, n: int)
    ensures
        levels_below(s.push(info), n).to_multiset() == if info.color.spec_brightness() < n {
            levels_below(s, n).to_multiset().insert(info)
        } else {
            levels_below(s, n).to_multiset()
        },
    decreases n,
{
    broadcast use vstd::seq_lib::group_to_multiset_ensures;

    if n > 0 {
        lemma_levels_below_push(s, info, n - 1);
        lemma_at_level_push(s, info, n - 1);
        vstd::seq_lib::lemma_multiset_commutative(levels_below(s, n - 1), at_level(s, n - 1));
        vstd::seq_lib::lemma_multiset_commutative(
            levels_below(s.push(info), n - 1),
            at_level(s.push(info), n - 1),
        );
        assert(levels_below(s.push(info), n).to_multiset() =~= if info.color.spec_brightness()
            < n {
            levels_below(s, n).to_multiset().insert(info)
        } else {
            levels_below(s, n).to_multiset()
        });
    } else {
        assert(levels_below(s.push(info), n) =~= levels_below(s, n));
    }
}

/// Sorting neither drops nor adds nor repeats an instruction.
pub proof fn lemma_sorted_is_permutation(s: Seq<DrawInfo>)
    ensures
        sorted_by_brightness(s).to_multiset() == s.to_multiset(),
        sorted_by_brightness(s).len() == s.len(),
    decreases s.len(),
{
    broadcast use vstd::seq_lib::group_to_multiset_ensures;

    if s.len() == 0 {
        lemma_levels_below_of_empty(MAX_BRIGHTNESS + 1);
        assert(s =~= Seq::<DrawInfo>::empty());
    } else {
        let front = s.drop_last();
        let info = s.last();
        assert(s =~= front.push(info));
        lemma_sorted_is_permutation(front);
        lemma_levels_below_push(front, info, MAX_BRIGHTNESS + 1);
    }
    sorted_by_brightness(s).to_multiset_ensures();
    s.to_multiset_ensures();
}

/// Sorting nothing gives nothing.
pub proof fn lemma_levels_below_of_empty(n: int)
    ensures
        levels_below(Seq::<DrawInfo>::empty(), n) == Seq::<DrawInfo>::empty(),
    decreases n,
{
    if n > 0 {
        lemma_levels_below_of_empty(n - 1);
        lemma_at_level_empty(n - 1);
        assert(levels_below(Seq::<DrawInfo>::empty(), n) =~= Seq::<DrawInfo>::empty());
    }
}

/// Selecting from instructions without the eraser gives instructions without the eraser.
pub proof fn lemma_filter_has_no_eraser(s: Seq<DrawInfo>, pred: spec_fn(DrawInfo) -> bool)
    requires
        has_no_eraser(s),
    ensures
        has_no_eraser(s.filter(pred)),
    decreases s.len(),
{
    if s.len() == 0 {
        assert(s.filter(pred) =~= s) by {
            reveal(Seq::filter);
        }
    } else {
        let front = s.drop_last();
        assert(s =~= front.push(s.last()));
        assert(has_no_eraser(front)) by {
            assert forall|i: int| 0 <= i < front.len() implies (#[trigger] front[i]).color
                != eraser() by {
                assert(front[i] == s[i]);
            }
        }
        lemma_filter_has_no_eraser(front, pred);
        front.lemma_filter_push(s.last(), pred);
    }
}

/// Sorting instructions without the eraser gives instructions without the eraser.
pub proof fn lemma_sorted_has_no_eraser(s: Seq<DrawInfo>)
    requires
        has_no_eraser(s),
    ensures
        has_no_eraser(sorted_by_brightness(s)),
{
    lemma_levels_below_has_no_eraser(s, MAX_BRIGHTNESS + 1);
}

proof fn lemma_levels_below_has_no_eraser(s: Seq<DrawInfo>, n: int)
    requires
        has_no_eraser(s),
    ensures
        has_no_eraser(levels_below(s, n)),
    decreases n,
{
    if n > 0 {
        lemma_levels_below_has_no_eraser(s, n - 1);
        lemma_filter_has_no_eraser(s, has_level(n - 1));
    }
}

/// Taking the drawn instructions of a list drops every eraser-colored one, and
/// changes nothing where there is none.
pub proof fn lemma_drawn_instructions(s: Seq<DrawInfo>)
    ensures
        has_no_eraser(s.filter(is_drawn())),
        has_no_eraser(s) ==> s.filter(is_drawn()) == s,
    decreases s.len(),
{
    if s.len() == 0 {
        assert(s.filter(is_drawn()) =~= s) by {
            reveal(Seq::filter);
        }
    } else {
        let front = s.drop_last();
        assert(s =~= front.push(s.last()));
        lemma_drawn_instructions(front);
        front.lemma_filter_push(s.last(), is_drawn());
        if has_no_eraser(s) {
            assert(has_no_eraser(front)) by {
                assert forall|i: int| 0 <= i < front.len() implies (#[trigger] front[i]).color
                    != eraser() by {
                    assert(front[i] == s[i]);
                }
            }
            assert(s.last() == s[s.len() - 1]);
        }
    }
}

/// Selecting from instructions in palette colors gives instructions in palette colors.
pub proof fn lemma_filter_in_palette(s: Seq<DrawInfo>, pred: spec_fn(DrawInfo) -> bool)
    requires
        all_in_palette(s),
    ensures
        all_in_palette(s.filter(pred)),
    decreases s.len(),
{
    if s.len() == 0 {
        assert(s.filter(pred) =~= s) by {
            reveal(Seq::filter);
        }
    } else {
        let front = s.drop_last();
        assert(s =~= front.push(s.last()));
        assert(all_in_palette(front)) by {
            assert forall|i: int| 0 <= i < front.len() implies is_palette_color(
                (#[trigger] front[i]).color,
            ) by {
                assert(front[i] == s[i]);
            }
        }
        lemma_filter_in_palette(front, pred);
        front.lemma_filter_push(s.last(), pred);
    }
}

/// Sorting instructions in palette colors gives instructions in palette colors.
pub proof fn lemma_sorted_in_palette(s: Seq<DrawInfo>)
    requires
        all_in_palette(s),
    ensures
        all_in_palette(sorted_by_brightness(s)),
{
    lemma_levels_below_in_palette(s, MAX_BRIGHTNESS + 1);
}

proof fn lemma_levels_below_in_palette(s: Seq<DrawInfo>, n: int)
    requires
        all_in_palette(s),
    ensures
        all_in_palette(levels_below(s, n)),
    decreases n,
{
    if n > 0 {
        lemma_levels_below_in_palette(s, n - 1);
        lemma_filter_in_palette(s, has_level(n - 1));
    }
}

} // verus!
