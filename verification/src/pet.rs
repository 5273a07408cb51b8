//! The pet: where it stands, where it is walking to, which animation it
//! shows and which frame of it. Each tick it advances its animation when the
//! frame's time is up, waits out a pause, picks a new random destination and
//! idle/sleep poses when it has arrived, or takes one step towards the
//! destination, walking the columns first and then the rows.

use vstd::prelude::*;
use crate::half_block::{cursor_seq, frame_text, write_frame, HbFrame};
use crate::screen::{Screen, ScreenModel};
use crate::text::push_char;
use crate::chance::{gen_range, gen_ratio, thread_rng};
use std::time::Instant;

verus! {

#[verifier::external_type_specification]
#[verifier::external_body]
pub struct ExInstant(Instant);

/// The current time (`Instant::now`).
#[verifier::external_body]
fn now() -> Instant {
    Instant::now()
}

/// The whole milliseconds elapsed since `since` (`Instant::elapsed`); the
/// result depends on the clock, so nothing is stated of it.
#[verifier::external_body]
fn millis_since(since: &Instant) -> u128 {
    since.elapsed().as_millis()
}

/// The frames of one animation, and how long each is shown.
pub enum Anim {
    /// Frames as ready-made sixel images.
    Sixel { sixels: Vec<String>, durations_ms: Vec<u32> },
    /// Frames as half-block cell grids.
    HalfBlock { frames: Vec<HbFrame>, durations_ms: Vec<u32> },
}

impl Anim {
    pub open spec fn spec_frame_count(&self) -> nat {
        match self {
            Anim::Sixel { sixels, .. } => sixels@.len(),
            Anim::HalfBlock { frames, .. } => frames@.len(),
        }
    }

    pub open spec fn spec_durations(&self) -> Seq<u32> {
        match self {
            Anim::Sixel { durations_ms, .. } => durations_ms@,
            Anim::HalfBlock { durations_ms, .. } => durations_ms@,
        }
    }

    /// The number of frames.
    pub fn frame_count(&self) -> (n: usize)
        ensures
            n == self.spec_frame_count(),
    {
        match self {
            Anim::Sixel { sixels, .. } => sixels.len(),
            Anim::HalfBlock { frames, .. } => frames.len(),
        }
    }

    /// How long frame `i` is shown, in milliseconds.
    pub fn duration_ms(&self, i: usize) -> (d: u32)
        requires
            i < self.spec_durations().len(),
        ensures
            d == self.spec_durations()[i as int],
    {
        match self {
            Anim::Sixel { durations_ms, .. } => durations_ms[i],
            Anim::HalfBlock { durations_ms, .. } => durations_ms[i],
        }
    }
}

/// What the pet is doing.
#[derive(Clone, Copy, PartialEq, Eq, Structural)]
pub enum State {
    Idle,
    WalkingLeft,
    WalkingRight,
    WalkingUp,
    WalkingDown,
}

/// The positions of the animations in the list a pet is made with.
pub const ANIM_WASH: usize = 0;
pub const ANIM_WALK_RIGHT: usize = 1;
pub const ANIM_WALK_LEFT: usize = 2;
pub const ANIM_WALK_UP: usize = 3;
pub const ANIM_WALK_DOWN: usize = 4;
pub const ANIM_SLEEP_CURL: usize = 5;
pub const ANIM_YAWN: usize = 6;
pub const ANIM_SLEEP_LOAF: usize = 7;
pub const ANIM_SLEEP_HEAD: usize = 8;
pub const ANIM_SLEEP_STRETCH: usize = 9;
pub const ANIM_WASH_LIE: usize = 10;
pub const ANIM_SCRATCH: usize = 11;

/// The number of animations a pet is made with.
pub const ANIM_COUNT: usize = 12;

/// After this many idle ticks the pet falls asleep.
pub const IDLE_TO_SLEEP_TICKS: u32 = 100;

/// The shortest time a frame is shown, in milliseconds.
pub const MIN_FRAME_MS: u32 = 50;

/// A frame meant to stay `d` milliseconds is done after `elapsed_ms`
/// milliseconds: when they reach `d`, and never before `MIN_FRAME_MS`.
pub open spec fn spec_frame_due(elapsed_ms: u128, d: u32) -> bool {
    elapsed_ms >= if d > MIN_FRAME_MS { d } else { MIN_FRAME_MS }
}

/// Whether a frame meant to stay `d` milliseconds is done after
/// `elapsed_ms` milliseconds (see `spec_frame_due`).
pub fn frame_due(elapsed_ms: u128, d: u32) -> (r: bool)
    ensures
        r == spec_frame_due(elapsed_ms, d),
{
    let dur_ms = if d > MIN_FRAME_MS { d } else { MIN_FRAME_MS };
    elapsed_ms >= dur_ms as u128
}

/// The idle poses to pick from.
pub open spec fn spec_idle_variant(i: int) -> usize {
    if i == 0 {
        ANIM_WASH
    } else if i == 1 {
        ANIM_YAWN
    } else if i == 2 {
        ANIM_WASH_LIE
    } else {
        ANIM_SCRATCH
    }
}

/// The sleeping poses to pick from.
pub open spec fn spec_sleep_variant(i: int) -> usize {
    if i == 0 {
        ANIM_SLEEP_CURL
    } else if i == 1 {
        ANIM_SLEEP_LOAF
    } else if i == 2 {
        ANIM_SLEEP_HEAD
    } else {
        ANIM_SLEEP_STRETCH
    }
}

/// The number of idle poses, and of sleeping poses.
pub const VARIANT_COUNT: u16 = 4;

fn idle_variant(i: u16) -> (a: usize)
    ensures
        a == spec_idle_variant(i as int),
{
    if i == 0 {
        ANIM_WASH
    } else if i == 1 {
        ANIM_YAWN
    } else if i == 2 {
        ANIM_WASH_LIE
    } else {
        ANIM_SCRATCH
    }
}

fn sleep_variant(i: u16) -> (a: usize)
    ensures
        a == spec_sleep_variant(i as int),
{
    if i == 0 {
        ANIM_SLEEP_CURL
    } else if i == 1 {
        ANIM_SLEEP_LOAF
    } else if i == 2 {
        ANIM_SLEEP_HEAD
    } else {
        ANIM_SLEEP_STRETCH
    }
}

/// The random choices made when the pet arrives: which idle and sleeping
/// poses to use, where to walk next, and how many ticks to rest first.
#[derive(Clone, Copy)]
pub struct Wander {
    pub idle_pick: u16,
    pub sleep_pick: u16,
    pub target_row: u16,
    pub target_col: u16,
    pub pause_ticks: u16,
}

/// A pet: where it is and is heading, what it is doing and showing, and
/// what its last drawing covered.
pub struct Pet {
    pub row: u16,
    pub col: u16,
    pub target_row: u16,
    pub target_col: u16,
    pub pause_ticks: u16,
    pub idle_ticks: u32,
    pub last_drawn: Option<(u16, u16, usize, usize)>,
    pub rows: u16,
    pub cols: u16,
    pub cell_w: u16,
    pub cell_h: u16,
    pub animations: Vec<Anim>,
    pub state: State,
    pub active_idle_anim: usize,
    pub active_sleep_anim: usize,
    pub current_frame: usize,
    pub last_frame_change: Instant,
    /// Whether the last render found a full-screen program on the alternate screen.
    pub was_alt_screen: bool,
    /// The screen's scroll count at the last render.
    pub last_render_scroll: u64,
}

/// The state of a pet, with each animation given by its frame count and its
/// frame durations.
pub struct PetModel {
    pub row: u16,
    pub col: u16,
    pub target_row: u16,
    pub target_col: u16,
    pub pause_ticks: u16,
    pub idle_ticks: u32,
    pub last_drawn: Option<(u16, u16, usize, usize)>,
    pub rows: u16,
    pub cols: u16,
    pub cell_w: u16,
    pub cell_h: u16,
    pub animations: Seq<Anim>,
    pub frame_counts: Seq<nat>,
    pub durations: Seq<Seq<u32>>,
    pub state: State,
    pub active_idle_anim: usize,
    pub active_sleep_anim: usize,
    pub current_frame: usize,
    pub was_alt_screen: bool,
    pub last_render_scroll: u64,
}

impl View for Pet {
    type V = PetModel;

    open spec fn view(&self) -> PetModel {
        PetModel {
            row: self.row,
            col: self.col,
            target_row: self.target_row,
            target_col: self.target_col,
            pause_ticks: self.pause_ticks,
            idle_ticks: self.idle_ticks,
            last_drawn: self.last_drawn,
            rows: self.rows,
            cols: self.cols,
            cell_w: self.cell_w,
            cell_h: self.cell_h,
            animations: self.animations@,
            frame_counts: self.animations@.map_values(|a: Anim| a.spec_frame_count()),
            durations: self.animations@.map_values(|a: Anim| a.spec_durations()),
            state: self.state,
            active_idle_anim: self.active_idle_anim,
            active_sleep_anim: self.active_sleep_anim,
            current_frame: self.current_frame,
            was_alt_screen: self.was_alt_screen,
            last_render_scroll: self.last_render_scroll,
        }
    }
}

pub open spec fn sat_sub16(a: u16, b: u16) -> u16 {
    if a > b { (a - b) as u16 } else { 0 }
}

impl PetModel {
    /// The animation shown: a walk in the walking direction; when idle, the
    /// sleeping pose once idle long enough, else the idle pose.
    pub open spec fn anim_index(self) -> usize {
        match self.state {
            State::Idle => if self.idle_ticks >= IDLE_TO_SLEEP_TICKS {
                self.active_sleep_anim
            } else {
                self.active_idle_anim
            },
            State::WalkingRight => ANIM_WALK_RIGHT,
            State::WalkingLeft => ANIM_WALK_LEFT,
            State::WalkingUp => ANIM_WALK_UP,
            State::WalkingDown => ANIM_WALK_DOWN,
        }
    }

    /// Entering state `s` restarts the animation; entering a walk also
    /// forgets the idle time. Staying in the same state changes nothing.
    pub open spec fn with_state(self, s: State) -> PetModel {
        if self.state != s {
            PetModel {
                state: s,
                current_frame: 0,
                idle_ticks: if s != State::Idle { 0 } else { self.idle_ticks },
                ..self
            }
        } else {
            self
        }
    }

    /// The rows the pet's top edge may be sent to: [0, max_row).
    pub open spec fn max_row(self) -> u16 {
        let m = sat_sub16(self.rows, self.cell_h);
        if m > 1 { m } else { 1 }
    }

    /// The columns the pet's left edge may be sent to: [0, max_col).
    pub open spec fn max_col(self) -> u16 {
        let m = sat_sub16(self.cols, self.cell_w);
        if m > 1 { m } else { 1 }
    }

    /// The pet and its destination lie inside the screen: the top edge at
    /// most the rows minus the sprite's height, the left edge at most the
    /// columns minus its width.
    pub open spec fn on_screen(self) -> bool {
        &&& self.row <= sat_sub16(self.rows, self.cell_h)
        &&& self.col <= sat_sub16(self.cols, self.cell_w)
        &&& self.target_row <= sat_sub16(self.rows, self.cell_h)
        &&& self.target_col <= sat_sub16(self.cols, self.cell_w)
    }

    /// A walk up or down happens only in the destination's column (the walk
    /// goes across first).
    pub open spec fn legs_ok(self) -> bool {
        (self.state == State::WalkingUp || self.state == State::WalkingDown) ==> self.col == self.target_col
    }

    /// The state every pet made by `Pet::new` (with frames in every
    /// animation) keeps while it ticks: well-formed, on the screen, walking
    /// up or down only in its destination's column, and with its frame
    /// position inside the animation shown.
    pub open spec fn steady(self) -> bool {
        &&& self.wf()
        &&& self.on_screen()
        &&& self.legs_ok()
        &&& self.current_frame < self.frame_counts[self.anim_index() as int]
    }

    /// Random choices that the generator can make for this pet.
    pub open spec fn allows(self, w: Wander) -> bool {
        &&& w.idle_pick < VARIANT_COUNT
        &&& w.sleep_pick < VARIANT_COUNT
        &&& w.target_row < self.max_row()
        &&& w.target_col < self.max_col()
        &&& (250 <= w.pause_ticks < 500 || 20 <= w.pause_ticks < 60)
    }

    /// The first part of a tick: the idle time grows while idle, and a frame
    /// position past the end of the (possibly changed) animation restarts at 0.
    pub open spec fn counted(self) -> PetModel {
        let m = PetModel {
            idle_ticks: if self.state == State::Idle {
                if self.idle_ticks == u32::MAX { u32::MAX } else { (self.idle_ticks + 1) as u32 }
            } else {
                self.idle_ticks
            },
            ..self
        };
        let n = m.frame_counts[m.anim_index() as int];
        PetModel { current_frame: if m.current_frame >= n { 0 } else { m.current_frame }, ..m }
    }

    /// A tick can run: the animation shown after counting has frames, and
    /// a duration for the frame it stands at.
    pub open spec fn tick_ok(self) -> bool {
        let m = self.counted();
        &&& self.frame_counts.len() == self.durations.len()
        &&& m.anim_index() < self.frame_counts.len()
        &&& m.frame_counts[m.anim_index() as int] > 0
        &&& m.current_frame < m.durations[m.anim_index() as int].len()
    }

    /// The pet after arriving: idle, with the chosen poses, destination and
    /// rest; when that changes the animation shown, it starts from its first
    /// frame.
    pub open spec fn settled(self, w: Wander) -> PetModel {
        let idle = self.with_state(State::Idle);
        let s = PetModel {
            active_idle_anim: spec_idle_variant(w.idle_pick as int),
            active_sleep_anim: spec_sleep_variant(w.sleep_pick as int),
            target_row: w.target_row,
            target_col: w.target_col,
            pause_ticks: w.pause_ticks,
            ..idle
        };
        if s.anim_index() != idle.anim_index() {
            PetModel { current_frame: 0, ..s }
        } else {
            s
        }
    }

    /// How long the frame shown is meant to stay, in milliseconds.
    pub open spec fn shown_duration(self) -> u32 {
        self.durations[self.anim_index() as int][self.current_frame as int]
    }

    /// A tick at which `elapsed_ms` milliseconds have passed since the frame
    /// shown appeared, with the random choices `w`.
    pub open spec fn ticked_after(self, elapsed_ms: u128, w: Wander) -> PetModel {
        self.ticked(spec_frame_due(elapsed_ms, self.counted().shown_duration()), w)
    }

    /// The movement part of a tick: rest while a pause lasts; on arrival,
    /// settle with the random choices `w`; else step one column towards the
    /// destination, or, in the destination's column, one row.
    pub open spec fn moved(self, w: Wander) -> PetModel {
        if self.pause_ticks > 0 {
            PetModel { pause_ticks: (self.pause_ticks - 1) as u16, ..self }
        } else if self.row == self.target_row && self.col == self.target_col {
            self.settled(w)
        } else if self.col != self.target_col {
            if self.col < self.target_col {
                PetModel { col: (self.col + 1) as u16, ..self.with_state(State::WalkingRight) }
            } else {
                PetModel { col: (self.col - 1) as u16, ..self.with_state(State::WalkingLeft) }
            }
        } else {
            if self.row < self.target_row {
                PetModel { row: (self.row + 1) as u16, ..self.with_state(State::WalkingDown) }
            } else {
                PetModel { row: (self.row - 1) as u16, ..self.with_state(State::WalkingUp) }
            }
        }
    }

    /// The rest of a tick once counted: advance the frame when its time is
    /// up (`due`), then move.
    pub open spec fn stepped(self, due: bool, w: Wander) -> PetModel {
        let n = self.frame_counts[self.anim_index() as int];
        let m2 = if due {
            PetModel { current_frame: ((self.current_frame + 1) % (n as int)) as usize, ..self }
        } else {
            self
        };
        m2.moved(w)
    }

    /// A whole tick: count, advance the frame when its time is up (`due`),
    /// then move.
    pub open spec fn ticked(self, due: bool, w: Wander) -> PetModel {
        self.counted().stepped(due, w)
    }

    /// The rest of a tick can run: the animation shown has frames, the
    /// frame position is inside it, and the frame has a duration.
    pub open spec fn step_ok(self) -> bool {
        &&& self.frame_counts.len() == self.durations.len()
        &&& self.anim_index() < self.frame_counts.len()
        &&& self.frame_counts[self.anim_index() as int] > 0
        &&& self.current_frame < self.frame_counts[self.anim_index() as int]
        &&& self.current_frame < self.durations[self.anim_index() as int].len()
    }

    /// Whether the random choices are used by a tick from this state.
    pub open spec fn settles(self) -> bool {
        self.pause_ticks == 0 && self.row == self.target_row && self.col == self.target_col
    }

    /// The animations are the twelve the pet is made with, each with at
    /// least one frame and a duration for every frame, and the chosen poses
    /// are among the idle and sleeping poses.
    pub open spec fn wf(self) -> bool {
        &&& self.frame_counts.len() == ANIM_COUNT
        &&& self.durations.len() == ANIM_COUNT
        &&& forall|a: int|
            0 <= a < ANIM_COUNT ==> #[trigger] self.frame_counts[a] > 0
                && self.durations[a].len() >= self.frame_counts[a]
        &&& exists|i: int| 0 <= i < 4 && self.active_idle_anim == spec_idle_variant(i)
        &&& exists|i: int| 0 <= i < 4 && self.active_sleep_anim == spec_sleep_variant(i)
    }
}

impl Pet {
    /// A pet in the bottom-right corner of a `rows` x `cols` screen, idle,
    /// washing, with sprites of `cell_w` x `cell_h` cells.
    pub fn new(rows: u16, cols: u16, animations: Vec<Anim>, cell_w: u16, cell_h: u16) -> (p: Self)
        requires
            animations@.len() == ANIM_COUNT,
            cell_h + 2 <= u16::MAX,
        ensures
            p@.row == sat_sub16(rows, (cell_h + 2) as u16),
            p@.col == sat_sub16(cols, cell_w),
            p@.target_row == p@.row,
            p@.target_col == p@.col,
            p@.pause_ticks == 0,
            p@.idle_ticks == 0,
            p@.last_drawn == None::<(u16, u16, usize, usize)>,
            p@.rows == rows,
            p@.cols == cols,
            p@.cell_w == cell_w,
            p@.cell_h == cell_h,
            p@.animations == animations@,
            p@.on_screen(),
            p@.legs_ok(),
            (forall|a: int|
                0 <= a < ANIM_COUNT ==> (#[trigger] animations@[a]).spec_frame_count() > 0
                    && animations@[a].spec_durations().len() >= animations@[a].spec_frame_count()) ==> p@.steady(),
            p@.frame_counts == animations@.map_values(|a: Anim| a.spec_frame_count()),
            p@.durations == animations@.map_values(|a: Anim| a.spec_durations()),
            p@.state == State::Idle,
            p@.active_idle_anim == ANIM_WASH,
            p@.active_sleep_anim == ANIM_SLEEP_CURL,
            p@.current_frame == 0,
            !p@.was_alt_screen,
            p@.last_render_scroll == 0,
    {
        let start_col = cols.saturating_sub(cell_w);
        let start_row = rows.saturating_sub(cell_h + 2);
        let p = Pet {
            row: start_row,
            col: start_col,
            target_row: start_row,
            target_col: start_col,
            pause_ticks: 0,
            idle_ticks: 0,
            last_drawn: None,
            rows,
            cols,
            cell_w,
            cell_h,
            animations,
            state: State::Idle,
            active_idle_anim: ANIM_WASH,
            active_sleep_anim: ANIM_SLEEP_CURL,
            current_frame: 0,
            last_frame_change: now(),
            was_alt_screen: false,
            last_render_scroll: 0,
        };
        assert(spec_idle_variant(0) == ANIM_WASH && spec_sleep_variant(0) == ANIM_SLEEP_CURL);
        p
    }

    fn anim_idx(&self) -> (a: usize)
        ensures
            a == self@.anim_index(),
    {
        match self.state {
            State::Idle => {
                if self.idle_ticks >= IDLE_TO_SLEEP_TICKS {
                    self.active_sleep_anim
                } else {
                    self.active_idle_anim
                }
            },
            State::WalkingRight => ANIM_WALK_RIGHT,
            State::WalkingLeft => ANIM_WALK_LEFT,
            State::WalkingUp => ANIM_WALK_UP,
            State::WalkingDown => ANIM_WALK_DOWN,
        }
    }

    /// The position of the animation shown in the list the pet was made with.
    pub fn anim_index(&self) -> (a: usize)
        ensures
            a == self@.anim_index(),
    {
        self.anim_idx()
    }

    /// The animation shown.
    pub open spec fn spec_current_anim(&self) -> Anim {
        self@.animations[self@.anim_index() as int]
    }

    /// The animation shown.
    pub fn current_anim(&self) -> (a: &Anim)
        requires
            self@.anim_index() < self@.frame_counts.len(),
        ensures
            *a == self.spec_current_anim(),
            a.spec_frame_count() == self@.frame_counts[self@.anim_index() as int],
    {
        &self.animations[self.anim_idx()]
    }

    /// The sixel image of the frame shown.
    pub fn current_sixel(&self) -> (s: &str)
        requires
            self@.anim_index() < self@.frame_counts.len(),
            self.spec_current_anim() is Sixel,
            self@.current_frame < self@.frame_counts[self@.anim_index() as int],
        ensures
            s@ == self.spec_current_anim()->Sixel_sixels@[self@.current_frame as int]@,
    {
        match &self.animations[self.anim_idx()] {
            Anim::Sixel { sixels, .. } => sixels[self.current_frame].as_str(),
            Anim::HalfBlock { .. } => {
                proof {
                    assert(false);
                }
                ""
            },
        }
    }

    fn set_state(&mut self, s: State)
        ensures
            final(self)@ == old(self)@.with_state(s),
    {
        if self.state != s {
            self.state = s;
            self.current_frame = 0;
            self.last_frame_change = now();
            if s != State::Idle {
                self.idle_ticks = 0;
            }
        }
        assert(self@.frame_counts == old(self)@.frame_counts);
        assert(self@.durations == old(self)@.durations);
    }

    /// Arrives: goes idle with the poses, destination and rest of `w`.
    pub fn settle(&mut self, w: Wander)
        requires
            w.idle_pick < VARIANT_COUNT,
            w.sleep_pick < VARIANT_COUNT,
        ensures
            final(self)@ == old(self)@.settled(w),
    {
        self.set_state(State::Idle);
        let before = self.anim_idx();
        self.active_idle_anim = idle_variant(w.idle_pick);
        self.active_sleep_anim = sleep_variant(w.sleep_pick);
        self.target_row = w.target_row;
        self.target_col = w.target_col;
        self.pause_ticks = w.pause_ticks;
        if self.anim_idx() != before {
            self.current_frame = 0;
            self.last_frame_change = now();
        }
        assert(self@.frame_counts == old(self)@.frame_counts);
        assert(self@.durations == old(self)@.durations);
    }

    /// Makes the random choices for an arrival.
    fn draw_wander(&self) -> (w: Wander)
        ensures
            self@.allows(w),
    {
        let mut rng = thread_rng();
        let idle_pick = gen_range(&mut rng, 0, VARIANT_COUNT);
        let sleep_pick = gen_range(&mut rng, 0, VARIANT_COUNT);
        let mr = self.rows.saturating_sub(self.cell_h);
        let max_row = if mr > 1 { mr } else { 1 };
        let mc = self.cols.saturating_sub(self.cell_w);
        let max_col = if mc > 1 { mc } else { 1 };
        let target_row = gen_range(&mut rng, 0, max_row);
        let target_col = gen_range(&mut rng, 0, max_col);
        // Most rests are short; one in four is long enough to fall asleep.
        let pause_ticks = if gen_ratio(&mut rng, 1, 4) {
            gen_range(&mut rng, 250, 500)
        } else {
            gen_range(&mut rng, 20, 60)
        };
        Wander { idle_pick, sleep_pick, target_row, target_col, pause_ticks }
    }

    /// Whether a tick can run (see `tick_ok`): the animation shown after
    /// counting the tick has frames and a duration for the frame it stands at.
    pub fn can_tick(&self) -> (r: bool)
        ensures
            r == self@.tick_ok(),
    {
        let idle_ticks = if self.state == State::Idle { self.idle_ticks.saturating_add(1) } else { self.idle_ticks };
        let a = match self.state {
            State::Idle => if idle_ticks >= IDLE_TO_SLEEP_TICKS {
                self.active_sleep_anim
            } else {
                self.active_idle_anim
            },
            State::WalkingRight => ANIM_WALK_RIGHT,
            State::WalkingLeft => ANIM_WALK_LEFT,
            State::WalkingUp => ANIM_WALK_UP,
            State::WalkingDown => ANIM_WALK_DOWN,
        };
        if a >= self.animations.len() {
            return false;
        }
        let n = self.animations[a].frame_count();
        if n == 0 {
            return false;
        }
        let f = if self.current_frame >= n { 0 } else { self.current_frame };
        let durations = match &self.animations[a] {
            Anim::Sixel { durations_ms, .. } => durations_ms.len(),
            Anim::HalfBlock { durations_ms, .. } => durations_ms.len(),
        };
        assert(self@.counted().anim_index() == a);
        f < durations
    }

    /// The rest of a tick, once the idle time is counted and the frame
    /// position brought inside the animation (see `counted`): with
    /// `elapsed_ms` milliseconds since the frame shown appeared, the frame
    /// moves on when its duration, raised to at least `MIN_FRAME_MS`, has
    /// passed (`spec_frame_due`); then the pet rests, settles with the random
    /// choices `w`, or takes a step.
    pub fn finish_tick(&mut self, elapsed_ms: u128, w: Wander)
        requires
            old(self)@.step_ok(),
            old(self)@.allows(w),
        ensures
            final(self)@ == old(self)@.stepped(spec_frame_due(elapsed_ms, old(self)@.shown_duration()), w),
    {
        let ghost m1 = self@;
        let cur_anim = self.anim_idx();
        let frame_count = self.animations[cur_anim].frame_count();
        let d = self.animations[cur_anim].duration_ms(self.current_frame);
        let due = frame_due(elapsed_ms, d);
        if due {
            self.current_frame = (self.current_frame + 1) % frame_count;
            self.last_frame_change = now();
        }
        assert(self@.frame_counts == m1.frame_counts);
        assert(m1.max_row() >= 1 && m1.max_col() >= 1);
        if self.pause_ticks > 0 {
            self.pause_ticks = self.pause_ticks - 1;
        } else if self.row == self.target_row && self.col == self.target_col {
            self.settle(w);
        } else if self.col != self.target_col {
            if self.col < self.target_col {
                self.set_state(State::WalkingRight);
                self.col = self.col + 1;
            } else {
                self.set_state(State::WalkingLeft);
                self.col = self.col - 1;
            }
        } else if self.row < self.target_row {
            self.set_state(State::WalkingDown);
            self.row = self.row + 1;
        } else {
            self.set_state(State::WalkingUp);
            self.row = self.row - 1;
        }
        assert(d == m1.shown_duration());
    }

    /// One tick of 100 ms: counts the idle time and brings the frame
    /// position inside the animation shown, reads the clock, makes the random
    /// choices when the pet is about to arrive, and finishes the tick with
    /// them (`finish_tick`). What the clock and the generator give is not
    /// known in advance, so the result is stated for some elapsed time and
    /// some choices the generator can make.
    pub fn tick(&mut self)
        requires
            old(self)@.tick_ok(),
        ensures
            exists|elapsed_ms: u128, w: Wander|
                old(self)@.counted().allows(w) && final(self)@ == old(self)@.ticked_after(elapsed_ms, w),
    {
        let ghost m0 = self@;
        if self.state == State::Idle {
            self.idle_ticks = self.idle_ticks.saturating_add(1);
        }
        let cur_anim = self.anim_idx();
        let frame_count = self.animations[cur_anim].frame_count();
        if self.current_frame >= frame_count {
            self.current_frame = 0;
            self.last_frame_change = now();
        }
        assert(self@ == m0.counted());
        let elapsed_ms = millis_since(&self.last_frame_change);
        assert(self@.max_row() >= 1 && self@.max_col() >= 1);
        let w = if self.pause_ticks == 0 && self.row == self.target_row && self.col == self.target_col {
            self.draw_wander()
        } else {
            Wander { idle_pick: 0, sleep_pick: 0, target_row: 0, target_col: 0, pause_ticks: 20 }
        };
        self.finish_tick(elapsed_ms, w);
        assert(self@ == m0.ticked_after(elapsed_ms, w));
    }
}

// ---------------------------------------------------------------------------
// Drawing the pet over the shell's output
// ---------------------------------------------------------------------------

/// The character that repaints a screen cell (a NUL cell shows as a space).
pub open spec fn shown_char(c: char) -> char {
    if c == '\0' { ' ' } else { c }
}

/// Repaints screen cell (`y`, `x`) with what the shell put there, in the
/// default colours.
pub open spec fn restore_cell_text(s: ScreenModel, y: int, x: int) -> Seq<char> {
    cursor_seq(y, x) + "\x1b[0m"@ + seq![shown_char(s.cell(y, x).ch)]
}

/// Repaints the cells of row `y` from column `x` up to `right`.
pub open spec fn restore_row_text(s: ScreenModel, y: int, x: int, right: int) -> Seq<char>
    decreases right - x,
{
    if x >= right {
        Seq::empty()
    } else {
        restore_cell_text(s, y, x) + restore_row_text(s, y, x + 1, right)
    }
}

/// Repaints the cells of rows `y` up to `bottom`, columns `left` up to `right`.
pub open spec fn restore_text(s: ScreenModel, y: int, bottom: int, left: int, right: int) -> Seq<
    char,
>
    decreases bottom - y,
{
    if y >= bottom {
        Seq::empty()
    } else {
        restore_row_text(s, y, left, right) + restore_text(s, y + 1, bottom, left, right)
    }
}

/// What the pet's last drawing covered and must be repainted: from `delta`
/// rows above the old position (where scrolled output carried the old
/// pixels), down to the sprite's old bottom edge, clipped to the screen.
pub open spec fn ghost_text(p: PetModel, s: ScreenModel, delta: int) -> Seq<char> {
    match p.last_drawn {
        Some((or, oc, _a, _f)) => restore_text(
            s,
            crate::screen::sat_sub(or as int, delta),
            crate::screen::min_int(
                crate::screen::min_int(or + p.cell_h, u16::MAX as int),
                s.rows as int,
            ),
            oc as int,
            crate::screen::min_int(oc + p.cell_w, s.cols as int),
        ),
        None => Seq::empty(),
    }
}

/// The number of rows the screen scrolled since the last render, at most
/// the screen's height.
pub open spec fn scroll_delta(p: PetModel, s: ScreenModel) -> int {
    crate::screen::min_int(
        s.scroll_count.wrapping_sub(p.last_render_scroll) as int,
        s.rows as int,
    )
}

/// What a render starts from: the pet with the drawing forgotten when a
/// full-screen program has just left the alternate screen.
pub open spec fn render_start(p: PetModel) -> PetModel {
    if p.was_alt_screen {
        PetModel { was_alt_screen: false, last_drawn: None, ..p }
    } else {
        p
    }
}

/// What the pet shows now: position, animation and frame.
pub open spec fn drawing_key(p: PetModel) -> (u16, u16, usize, usize) {
    (p.row, p.col, p.anim_index(), p.current_frame)
}

/// A render draws: the screen is not on the alternate screen, and the pet
/// moved, changed frame or was scrolled since it was last drawn.
pub open spec fn render_draws(p: PetModel, s: ScreenModel) -> bool {
    let q = render_start(p);
    !s.alt_screen && (q.last_drawn != Some(drawing_key(q)) || scroll_delta(q, s) > 0)
}

/// The pet's state after a render.
pub open spec fn rendered_pet(p: PetModel, s: ScreenModel) -> PetModel {
    if s.alt_screen {
        PetModel { was_alt_screen: true, last_drawn: None, last_render_scroll: s.scroll_count, ..p }
    } else if render_draws(p, s) {
        let q = render_start(p);
        PetModel { last_drawn: Some(drawing_key(q)), last_render_scroll: s.scroll_count, ..q }
    } else {
        render_start(p)
    }
}

impl Pet {
    /// The text that draws the current frame with its top-left cell at the
    /// pet's position: a cursor move and the sixel image, or the half-block
    /// cells clipped to the screen.
    pub open spec fn sprite_text(&self, s: ScreenModel) -> Seq<char> {
        match self@.animations[self@.anim_index() as int] {
            Anim::Sixel { sixels, .. } => cursor_seq(self@.row as int, self@.col as int)
                + sixels@[self@.current_frame as int]@,
            Anim::HalfBlock { frames, .. } => frame_text(
                frames@[self@.current_frame as int],
                self@.row,
                self@.col,
                s.rows,
                s.cols,
            ),
        }
    }

    /// The current frame can be drawn at the pet's position.
    pub open spec fn sprite_ok(&self) -> bool {
        &&& self@.anim_index() < self@.animations.len()
        &&& self@.current_frame < self@.frame_counts[self@.anim_index() as int]
        &&& match self@.animations[self@.anim_index() as int] {
            Anim::Sixel { .. } => self@.row < u16::MAX && self@.col < u16::MAX,
            Anim::HalfBlock { frames, .. } => {
                let f = frames@[self@.current_frame as int];
                &&& f.readable(f.width_cells as int, f.height_cells as int)
                &&& f.width_cells > 0 && f.height_cells > 0 ==> self@.row + f.height_cells - 1
                    <= 0xffff && self@.col + f.width_cells - 1 <= 0xffff
            },
        }
    }

    /// Appends the drawing of the current frame.
    fn push_sprite(&self, buf: &mut String, screen: &Screen)
        requires
            self.sprite_ok(),
        ensures
            final(buf)@ == old(buf)@ + self.sprite_text(screen@),
    {
        match self.current_anim() {
            Anim::Sixel { sixels, .. } => {
                crate::half_block::push_cursor(buf, self.row, self.col);
                buf.append(sixels[self.current_frame].as_str());
            },
            Anim::HalfBlock { frames, .. } => {
                write_frame(buf, &frames[self.current_frame], self.row, self.col, screen.rows, screen.cols);
            },
        }
    }
}

/// Appends the repainting of rows [`top`, `bottom`), columns [`left`, `right`).
fn push_restore(buf: &mut String, screen: &Screen, top: u16, bottom: u16, left: u16, right: u16)
    requires
        screen.wf(),
        bottom <= screen.rows,
        right <= screen.cols,
    ensures
        final(buf)@ == old(buf)@ + restore_text(screen@, top as int, bottom as int, left as int, right as int),
{
    let ghost total = old(buf)@ + restore_text(screen@, top as int, bottom as int, left as int, right as int);
    let mut cy = top;
    while cy < bottom
        invariant
            screen.wf(),
            bottom <= screen.rows,
            right <= screen.cols,
            top <= cy || bottom <= cy,
            buf@ + restore_text(screen@, cy as int, bottom as int, left as int, right as int) == total,
        decreases bottom - cy,
    {
        let mut cx = left;
        while cx < right
            invariant
                screen.wf(),
                cy < bottom <= screen.rows,
                right <= screen.cols,
                buf@ + restore_row_text(screen@, cy as int, cx as int, right as int) + restore_text(
                    screen@,
                    cy + 1,
                    bottom as int,
                    left as int,
                    right as int,
                ) == total,
            decreases right - cx,
        {
            let ghost before = buf@;
            let ch = screen.cell_at(cy, cx).ch;
            crate::half_block::push_cursor(buf, cy, cx);
            buf.append("\x1b[0m");
            push_char(buf, if ch == '\0' { ' ' } else { ch });
            assert(buf@ =~= before + restore_cell_text(screen@, cy as int, cx as int));
            assert(buf@ + restore_row_text(screen@, cy as int, cx + 1, right as int) =~= before
                + restore_row_text(screen@, cy as int, cx as int, right as int));
            cx = cx + 1;
        }
        assert(buf@ + restore_text(screen@, cy + 1, bottom as int, left as int, right as int)
            =~= buf@ + restore_row_text(screen@, cy as int, cx as int, right as int) + restore_text(
            screen@,
            cy + 1,
            bottom as int,
            left as int,
            right as int,
        ));
        cy = cy + 1;
    }
    assert(buf@ =~= total);
}

/// Whether `render_pet` can run on `pet` and `screen`: when it would draw,
/// the current frame can be drawn at the pet's position and the area of the
/// last drawing lies within the 16-bit columns.
pub fn render_ready(pet: &Pet, screen: &Screen) -> (r: bool)
    requires
        screen.wf(),
    ensures
        r == (render_draws(pet@, screen@) ==> pet.sprite_ok() && match pet@.last_drawn {
            Some((_r, oc, _a, _f)) => oc + pet@.cell_w <= u16::MAX,
            None => true,
        }),
{
    if screen.alt_screen {
        return true;
    }
    let start_last = if pet.was_alt_screen { None } else { pet.last_drawn };
    let now = (pet.row, pet.col, pet.anim_index(), pet.current_frame);
    let scroll_delta_raw = screen.scroll_count.wrapping_sub(pet.last_render_scroll);
    let delta64 = if scroll_delta_raw < screen.rows as u64 { scroll_delta_raw } else { screen.rows as u64 };
    let same = match start_last {
        Some(d) => d.0 == now.0 && d.1 == now.1 && d.2 == now.2 && d.3 == now.3,
        None => false,
    };
    if same && delta64 == 0 {
        return true;
    }
    let last_ok = match pet.last_drawn {
        Some((_, oc, _, _)) => oc as u32 + pet.cell_w as u32 <= 0xffff,
        None => true,
    };
    let a = pet.anim_index();
    if !last_ok || a >= pet.animations.len() {
        return false;
    }
    let n = pet.animations[a].frame_count();
    if pet.current_frame >= n {
        return false;
    }
    match &pet.animations[a] {
        Anim::Sixel { .. } => pet.row < u16::MAX && pet.col < u16::MAX,
        Anim::HalfBlock { frames, .. } => {
            let f = &frames[pet.current_frame];
            let w = f.width_cells as usize;
            let h = f.height_cells as usize;
            proof {
                f.lemma_readable_iff_size(w as int, h as int);
                assert(w * h <= 0xffff * 0xffff) by (nonlinear_arith)
                    requires
                        w <= 0xffff,
                        h <= 0xffff,
                ;
            }
            let readable = w == 0 || h == 0 || w * h <= f.cells.len();
            readable && (w == 0 || h == 0 || (pet.row as u32 + h as u32 - 1 <= 0xffff && pet.col as u32 + w as u32 - 1
                <= 0xffff))
        },
    }
}

/// The text that redraws the pet, and the pet's bookkeeping after it. While
/// a full-screen program owns the screen nothing is drawn and the last
/// drawing is forgotten. Otherwise, when the pet moved, changed frame or
/// the screen scrolled since the last drawing, the cells the last drawing
/// covered are repainted from the screen model and the current frame is
/// drawn, all between saving and restoring the cursor, with the cursor
/// hidden meanwhile; `None` when nothing needs drawing.
pub fn render_pet(pet: &mut Pet, screen: &Screen) -> (out: Option<String>)
    requires
        screen.wf(),
        render_draws(old(pet)@, screen@) ==> old(pet).sprite_ok(),
        render_draws(old(pet)@, screen@) ==> match old(pet)@.last_drawn {
            Some((_r, oc, _a, _f)) => oc + old(pet)@.cell_w <= u16::MAX,
            None => true,
        },
    ensures
        final(pet)@ == rendered_pet(old(pet)@, screen@),
        match out {
            Some(text) => render_draws(old(pet)@, screen@) && text@ == "\x1b7\x1b[?25l"@
                + ghost_text(render_start(old(pet)@), screen@, scroll_delta(render_start(old(pet)@), screen@))
                + old(pet).sprite_text(screen@) + "\x1b[0m\x1b8\x1b[?25h"@,
            None => !render_draws(old(pet)@, screen@),
        },
{
    if screen.alt_screen {
        pet.was_alt_screen = true;
        pet.last_drawn = None;
        pet.last_render_scroll = screen.scroll_count;
        return None;
    }
    if pet.was_alt_screen {
        pet.was_alt_screen = false;
        pet.last_drawn = None;
    }
    let now = (pet.row, pet.col, pet.anim_index(), pet.current_frame);
    let scroll_delta_raw = screen.scroll_count.wrapping_sub(pet.last_render_scroll);
    let delta64 = if scroll_delta_raw < screen.rows as u64 { scroll_delta_raw } else { screen.rows as u64 };
    let scroll_delta = delta64 as u16;
    let same = match pet.last_drawn {
        Some(d) => d.0 == now.0 && d.1 == now.1 && d.2 == now.2 && d.3 == now.3,
        None => false,
    };
    if same && scroll_delta == 0 {
        return None;
    }
    let mut buf = String::new();
    buf.append("\x1b7\x1b[?25l");
    if let Some((or, oc, _, _)) = pet.last_drawn {
        let restore_top = or.saturating_sub(scroll_delta);
        let bottom = or.saturating_add(pet.cell_h);
        let restore_bottom_excl = if bottom < screen.rows { bottom } else { screen.rows };
        let right = oc + pet.cell_w;
        let restore_right_excl = if right < screen.cols { right } else { screen.cols };
        push_restore(&mut buf, screen, restore_top, restore_bottom_excl, oc, restore_right_excl);
    }
    pet.push_sprite(&mut buf, screen);
    buf.append("\x1b[0m\x1b8\x1b[?25h");
    pet.last_drawn = Some(now);
    pet.last_render_scroll = screen.scroll_count;
    Some(buf)
}

/// `n` blank characters.
pub open spec fn spaces(n: nat) -> Seq<char> {
    Seq::new(n, |_i: int| ' ')
}

/// Blanks rows `y` up to `bottom`, `w` cells from column `c` on each.
pub open spec fn blank_rows_text(y: int, bottom: int, c: int, w: nat) -> Seq<char>
    decreases bottom - y,
{
    if y >= bottom {
        Seq::empty()
    } else {
        cursor_seq(y, c) + "\x1b[0m"@ + spaces(w) + blank_rows_text(y + 1, bottom, c, w)
    }
}

/// The text that blanks the area of the pet's last drawing, if it was drawn.
pub open spec fn erase_text(p: PetModel) -> Option<Seq<char>> {
    match p.last_drawn {
        Some((or, oc, _a, _f)) => Some(blank_rows_text(or as int, or + p.cell_h, oc as int, p.cell_w as nat)),
        None => None,
    }
}

/// The text that wipes the pet off the screen when the program ends: each
/// row of the sprite's last drawn area overwritten with blanks in the
/// default colours; `None` when the pet was never drawn (or the drawing was
/// forgotten).
pub fn erase_pet(pet: &Pet) -> (r: Option<String>)
    requires
        match pet@.last_drawn {
            Some((or, oc, _a, _f)) => pet@.cell_h > 0 ==> or + pet@.cell_h <= u16::MAX && oc < u16::MAX,
            None => true,
        },
    ensures
        match r {
            Some(text) => erase_text(pet@) == Some(text@),
            None => erase_text(pet@) is None,
        },
{
    let (or, oc) = match pet.last_drawn {
        Some((r, c, _, _)) => (r, c),
        None => return None,
    };
    let ghost w = pet.cell_w as nat;
    let ghost bottom = or + pet.cell_h;
    let mut buf = String::new();
    let mut cy: u16 = 0;
    while cy < pet.cell_h
        invariant
            cy <= pet.cell_h,
            pet.cell_h > 0 ==> or + pet.cell_h <= u16::MAX && oc < u16::MAX,
            w == pet.cell_w,
            bottom == or + pet.cell_h,
            buf@ + blank_rows_text(or + cy, bottom, oc as int, w) == blank_rows_text(
                or as int,
                bottom,
                oc as int,
                w,
            ),
        decreases pet.cell_h - cy,
    {
        let ghost before = buf@;
        crate::half_block::push_cursor(&mut buf, or + cy, oc);
        buf.append("\x1b[0m");
        let mut k: u16 = 0;
        while k < pet.cell_w
            invariant
                k <= pet.cell_w,
                w == pet.cell_w,
                buf@ == before + cursor_seq(or + cy, oc as int) + "\x1b[0m"@ + spaces(k as nat),
            decreases pet.cell_w - k,
        {
            push_char(&mut buf, ' ');
            assert(spaces(k as nat).push(' ') =~= spaces((k + 1) as nat));
            k = k + 1;
        }
        assert(buf@ + blank_rows_text(or + cy + 1, bottom, oc as int, w) =~= before + blank_rows_text(
            or + cy,
            bottom,
            oc as int,
            w,
        ));
        cy = cy + 1;
    }
    Some(buf)
}

} // verus!
