//! Draining a draw queue: one instruction at a time, until the queue is empty or the
//! session is cancelled.
//!
//! The executor decides; it does not touch the pointer. Its caller looks at the
//! cancellation flag, asks for the next step, and carries out the actions it gets.
use vstd::prelude::*;
use crate::bitmap::Image;
use crate::colors::{find_palette_index, is_palette_color, is_palette_image, Color};
use crate::desktop::PointerAction;
use crate::drawer::{drawing_area_fits, instruction_actions, ConfigError, Drawer, Setup};
use crate::queue::{
    all_in_palette, has_no_eraser, is_drawn, lemma_drawn_instructions, lemma_filter_in_palette,
    sorted_by_brightness, DrawInfo, DrawQueue,
};
use crate::traversal::{
    append_pass, lemma_session_has_no_eraser, lemma_session_in_palette, session_instructions, Pass,
};

verus! {

/// Where a session stands.
pub struct ExecutorState {
    /// The instructions not yet drawn, the next one first.
    pub remaining: Seq<DrawInfo>,
    /// How many instructions have been drawn.
    pub drawn: nat,
    /// The color picked last, if any was.
    pub last_color: Option<Color>,
    /// Whether the session is over: cancelled, or with nothing left to draw.
    pub stopped: bool,
}

/// The state in which a session over `instructions` starts.
pub open spec fn initial_state(instructions: Seq<DrawInfo>) -> ExecutorState {
    ExecutorState { remaining: instructions, drawn: 0, last_color: None, stopped: false }
}

/// Whether a step from `state` draws an instruction.
pub open spec fn draws(state: ExecutorState, running: bool) -> bool {
    !state.stopped && running && state.remaining.len() > 0
}

/// The state after one step. A step draws the next instruction if the session is
/// still running and one is left; otherwise it ends the session for good.
pub open spec fn step_state(state: ExecutorState, running: bool) -> ExecutorState {
    if draws(state, running) {
        ExecutorState {
            remaining: state.remaining.drop_first(),
            drawn: state.drawn + 1,
            last_color: Some(state.remaining[0].color),
            stopped: false,
        }
    } else {
        ExecutorState { stopped: true, ..state }
    }
}

/// What the pointer is asked to do in one step: the actions of the next instruction,
/// or nothing.
pub open spec fn step_actions(state: ExecutorState, setup: Setup, running: bool) -> Seq<
    PointerAction,
> {
    if draws(state, running) {
        instruction_actions(setup, state.last_color, state.remaining[0])
    } else {
        Seq::empty()
    }
}

/// The state after a series of steps; `events[i]` is the cancellation flag as found
/// before step `i`.
pub open spec fn run(state: ExecutorState, events: Seq<bool>) -> ExecutorState
    decreases events.len(),
{
    if events.len() == 0 {
        state
    } else {
        run(step_state(state, events[0]), events.drop_first())
    }
}

/// Everything the pointer is asked to do over a series of steps, in order.
pub open spec fn trace(state: ExecutorState, setup: Setup, events: Seq<bool>) -> Seq<PointerAction>
    decreases events.len(),
{
    if events.len() == 0 {
        Seq::empty()
    } else {
        step_actions(state, setup, events[0]) + trace(
            step_state(state, events[0]),
            setup,
            events.drop_first(),
        )
    }
}

/// The actions for a list of instructions drawn one after the other, when
/// `last_color` was picked last before the first of them.
pub open spec fn script(setup: Setup, last_color: Option<Color>, instructions: Seq<DrawInfo>) -> Seq<
    PointerAction,
>
    decreases instructions.len(),
{
    if instructions.len() == 0 {
        Seq::empty()
    } else {
        instruction_actions(setup, last_color, instructions[0]) + script(
            setup,
            Some(instructions[0].color),
            instructions.drop_first(),
        )
    }
}

/// How many steps are taken before the session is first found cancelled.
pub open spec fn steps_before_cancel(events: Seq<bool>) -> nat
    decreases events.len(),
{
    if events.len() == 0 || !events[0] {
        0
    } else {
        1 + steps_before_cancel(events.drop_first())
    }
}

/// How many instructions a session draws: one for each step before it is first
/// found cancelled, as far as instructions are left.
pub open spec fn drawn_count(state: ExecutorState, events: Seq<bool>) -> nat {
    if state.stopped {
        0
    } else if steps_before_cancel(events) <= state.remaining.len() {
        steps_before_cancel(events)
    } else {
        state.remaining.len()
    }
}

/// A session that is over stays over: no step changes its state or asks anything
/// of the pointer, whatever the cancellation flag says later.
pub proof fn lemma_stopped_is_final(state: ExecutorState, setup: Setup, events: Seq<bool>)
    requires
        state.stopped,
    ensures
        run(state, events) == state,
        trace(state, setup, events) == Seq::<PointerAction>::empty(),
    decreases events.len(),
{
    if events.len() > 0 {
        assert(step_state(state, events[0]) == state);
        lemma_stopped_is_final(state, setup, events.drop_first());
        assert(trace(state, setup, events) =~= Seq::<PointerAction>::empty());
    }
}

/// A session draws exactly the instructions that come before its cancellation, in
/// order, and nothing after it: the count it reports goes up by their number, and
/// the pointer is asked for their actions and no others.
pub proof fn lemma_run_until_cancelled(state: ExecutorState, setup: Setup, events: Seq<bool>)
    ensures
        run(state, events).drawn == state.drawn + drawn_count(state, events),
        run(state, events).remaining == state.remaining.skip(drawn_count(state, events) as int),
        trace(state, setup, events) == script(
            setup,
            state.last_color,
            state.remaining.take(drawn_count(state, events) as int),
        ),
    decreases events.len(),
{
    let count = drawn_count(state, events) as int;
    if state.stopped {
        lemma_stopped_is_final(state, setup, events);
        assert(state.remaining.skip(0) =~= state.remaining);
        assert(state.remaining.take(0) =~= Seq::<DrawInfo>::empty());
    } else if events.len() == 0 {
        assert(state.remaining.skip(0) =~= state.remaining);
        assert(state.remaining.take(0) =~= Seq::<DrawInfo>::empty());
    } else {
        let next = step_state(state, events[0]);
        let rest = events.drop_first();
        if draws(state, events[0]) {
            lemma_run_until_cancelled(next, setup, rest);
            let later = drawn_count(next, rest) as int;
            assert(count == later + 1);
            assert(next.remaining.skip(later) =~= state.remaining.skip(count));
            let drawn = state.remaining.take(count);
            assert(drawn.drop_first() =~= next.remaining.take(later));
            assert(drawn[0] == state.remaining[0]);
            assert(trace(state, setup, events) =~= script(setup, state.last_color, drawn));
        } else {
            lemma_stopped_is_final(next, setup, rest);
            assert(count == 0);
            assert(state.remaining.skip(0) =~= state.remaining);
            assert(state.remaining.take(0) =~= Seq::<DrawInfo>::empty());
            assert(trace(state, setup, events) =~= Seq::<PointerAction>::empty());
        }
    }
}

/// A session cancelled before its first step draws nothing.
pub proof fn lemma_cancelled_at_start(instructions: Seq<DrawInfo>, setup: Setup, events: Seq<bool>)
    requires
        events.len() > 0,
        !events[0],
    ensures
        run(initial_state(instructions), events).drawn == 0,
        trace(initial_state(instructions), setup, events) == Seq::<PointerAction>::empty(),
{
    lemma_run_until_cancelled(initial_state(instructions), setup, events);
    assert(instructions.take(0) =~= Seq::<DrawInfo>::empty());
}

/// Drains a list of instructions, step by step.
#[derive(Debug)]
pub struct Executor {
    instructions: Vec<DrawInfo>,
    position: usize,
    last_color: Option<Color>,
    stopped: bool,
}

impl View for Executor {
    type V = ExecutorState;

    closed spec fn view(&self) -> ExecutorState {
        ExecutorState {
            remaining: self.instructions@.skip(self.position as int),
            drawn: self.position as nat,
            last_color: self.last_color,
            stopped: self.stopped,
        }
    }
}

impl Executor {
    #[verifier::type_invariant]
    spec fn inv(&self) -> bool {
        &&& self.position <= self.instructions.len()
        &&& all_in_palette(self.instructions@)
        &&& has_no_eraser(self.instructions@)
    }

    /// A session that draws `instructions` in the order given, without those in the
    /// eraser color: the eraser is never drawn. It cannot start if an instruction has
    /// a color that the picker does not offer.
    pub fn new(instructions: Vec<DrawInfo>) -> (res: Result<Executor, ConfigError>)
        ensures
            match res {
                Ok(executor) => {
                    &&& all_in_palette(instructions@)
                    &&& executor@ == initial_state(instructions@.filter(is_drawn()))
                    &&& has_no_eraser(executor@.remaining)
                },
                Err(e) => !all_in_palette(instructions@) && e == ConfigError::UnknownColor,
            },
    {
        let mut drawn: Vec<DrawInfo> = Vec::new();
        let mut i: usize = 0;
        proof {
            assert(instructions@.take(0) =~= Seq::<DrawInfo>::empty());
            assert(Seq::<DrawInfo>::empty().filter(is_drawn()) =~= Seq::<DrawInfo>::empty()) by {
                reveal(Seq::filter);
            }
        }
        while i < instructions.len()
            invariant
                i <= instructions.len(),
                all_in_palette(instructions@.take(i as int)),
                drawn@ == instructions@.take(i as int).filter(is_drawn()),
            decreases instructions.len() - i,
        {
            let info = instructions[i];
            if find_palette_index(info.color).is_none() {
                return Err(ConfigError::UnknownColor);
            }
            proof {
                assert forall|j: int| 0 <= j < i + 1 implies is_palette_color(
                    (#[trigger] instructions@.take(i + 1)[j]).color,
                ) by {
                    if j < i {
                        assert(instructions@.take(i as int)[j] == instructions@[j]);
                    }
                }
                assert(instructions@.take(i + 1) =~= instructions@.take(i as int).push(info));
                instructions@.take(i as int).lemma_filter_push(info, is_drawn());
            }
            if !info.color.is_eraser() {
                drawn.push(info);
            }
            i += 1;
        }
        proof {
            assert(instructions@.take(i as int) =~= instructions@);
            lemma_drawn_instructions(instructions@);
            lemma_filter_in_palette(instructions@, is_drawn());
        }
        let executor = Executor { instructions: drawn, position: 0, last_color: None, stopped: false };
        assert(executor@.remaining =~= instructions@.filter(is_drawn()));
        Ok(executor)
    }

    /// One step of the session. `running` is the cancellation flag as the caller
    /// found it: `false` once the session has been cancelled. The actions that come
    /// back are to be carried out in order before the next step is asked for.
    pub fn step(&mut self, drawer: &Drawer, running: bool) -> (actions: Vec<PointerAction>)
        ensures
            final(self)@ == step_state(old(self)@, running),
            actions@ == step_actions(old(self)@, drawer@, running),
            drawing_area_fits(drawer@.drawing_area),
    {
        let _area = drawer.drawing_area();
        proof {
            use_type_invariant(&*self);
        }
        if self.stopped || !running || self.position >= self.instructions.len() {
            self.stopped = true;
            return Vec::new();
        }
        let info = self.instructions[self.position];
        assert(self.instructions@.skip(self.position as int)[0] == info);
        let actions = drawer.actions_for(self.last_color, info);
        self.last_color = Some(info.color);
        self.position = self.position + 1;
        assert(self.instructions@.skip(self.position as int) =~= old(self).instructions@.skip(
            old(self).position as int,
        ).drop_first());
        actions
    }

    /// How many instructions have been drawn.
    pub fn drawn(&self) -> (count: usize)
        ensures
            count == self@.drawn,
    {
        self.position
    }

    /// How many instructions are left to draw.
    pub fn remaining(&self) -> (count: usize)
        ensures
            count == self@.remaining.len(),
    {
        proof {
            use_type_invariant(self);
        }
        self.instructions.len() - self.position
    }

    /// Whether the session is over.
    pub fn is_stopped(&self) -> (stopped: bool)
        ensures
            stopped == self@.stopped,
    {
        self.stopped
    }
}

impl DrawQueue {
    /// Starts the drawing of the queue: brings it into drawing order and hands it
    /// to an executor.
    pub fn draw(self) -> (res: Result<Executor, ConfigError>)
        ensures
            match res {
                Ok(executor) => all_in_palette(sorted_by_brightness(self@)) && executor@
                    == initial_state(sorted_by_brightness(self@)),
                Err(e) => !all_in_palette(sorted_by_brightness(self@)) && e
                    == ConfigError::UnknownColor,
            },
    {
        let mut queue = self;
        queue.sort();
        proof {
            lemma_drawn_instructions(queue@);
        }
        let mut instructions: Vec<DrawInfo> = Vec::new();
        crate::traversal::append_queue(&mut instructions, &queue);
        assert(instructions@ =~= queue@);
        Executor::new(instructions)
    }
}

impl Drawer {
    /// Starts the drawing of `image`: queues its pixels as the session's settings
    /// ask, pass by pass, and hands them to an executor. The session cannot start if
    /// a pixel that it would draw has a color that the picker does not offer; an image
    /// of palette colors alone can always be drawn.
    pub fn draw(&self, image: &Image) -> (res: Result<Executor, ConfigError>)
        ensures
            match res {
                Ok(executor) => executor@ == initial_state(
                    session_instructions(
                        image@,
                        image.spec_width(),
                        self@.checkerboard,
                        self@.batch_colors,
                    ),
                ),
                Err(e) => e == ConfigError::UnknownColor,
            },
            res is Ok <==> all_in_palette(
                session_instructions(
                    image@,
                    image.spec_width(),
                    self@.checkerboard,
                    self@.batch_colors,
                ),
            ),
            is_palette_image(image@) ==> res is Ok,
            drawing_area_fits(self@.drawing_area),
    {
        let _area = self.drawing_area();
        proof {
            lemma_session_has_no_eraser(
                image@,
                image.spec_width(),
                self@.checkerboard,
                self@.batch_colors,
            );
            lemma_drawn_instructions(
                session_instructions(
                    image@,
                    image.spec_width(),
                    self@.checkerboard,
                    self@.batch_colors,
                ),
            );
            if is_palette_image(image@) {
                lemma_session_in_palette(
                    image@,
                    image.spec_width(),
                    self@.checkerboard,
                    self@.batch_colors,
                );
            }
        }
        let mut instructions: Vec<DrawInfo> = Vec::new();
        let batch = self.batch_colors();
        if self.checkerboard() {
            append_pass(&mut instructions, image, Pass::Odd, batch);
            append_pass(&mut instructions, image, Pass::Even, batch);
        } else {
            append_pass(&mut instructions, image, Pass::Full, batch);
        }
        assert(instructions@ =~= session_instructions(
            image@,
            image.spec_width(),
            self@.checkerboard,
            self@.batch_colors,
        ));
        Executor::new(instructions)
    }
}

} // verus!
