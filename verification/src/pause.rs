//! Pausing and stepping the world.
//!
//! `P` asks for the inverse of the clock's pause, `.` asks a paused world for a
//! step. A step budget is spent in bounded chunks, so that a large step plays
//! out over several frames. Time is counted in ticks of a sixtieth of a
//! millisecond, of which a sixtieth of a second holds exactly a thousand.

use crate::craft_library::CraftLibraryModal;
use crate::input::KeyCode;
use crate::input::Keyboard;
use vstd::prelude::*;

verus! {

/// What a paused scene spends of its step budget per frame: a sixtieth of a
/// second.
pub const STEP_CHUNK_TICKS: u64 = 1000;

/// The part of the simulation clock that pausing concerns.
#[derive(Clone, Copy, Debug, PartialEq, Eq, Structural)]
pub struct SimClock {
    pub paused: bool,
    /// What is left to be stepped while paused, in ticks.
    pub step_budget: u64,
}

impl Default for SimClock {
    fn default() -> (c: SimClock)
        ensures
            c == (SimClock { paused: false, step_budget: 0 }),
    {
        SimClock { paused: false, step_budget: 0 }
    }
}

/// The pause that is asked for, if any.
pub open spec fn asked_pause(closed: bool, key: bool, pad: bool, paused: bool) -> Option<bool> {
    if closed && (key || pad) {
        Some(!paused)
    } else {
        None
    }
}

/// The pause that is asked for, if any: the inverse of the clock's, on `P` or
/// the gamepad's pause button. While the craft library's modal is open, a `P`
/// is a letter of a name.
pub fn toggle_pause(
    keys: &Keyboard,
    pad_pause: bool,
    clock: &SimClock,
    modal: &CraftLibraryModal,
) -> (pause: Option<bool>)
    ensures
        pause == (if modal@ is Closed && (keys.tapped(KeyCode::KeyP) || pad_pause) {
            Some(!clock.paused)
        } else {
            None
        }),
        pause == asked_pause(modal@ is Closed, keys.tapped(KeyCode::KeyP), pad_pause, clock.paused),
{
    if modal.is_open() {
        return None;
    }
    if keys.just_pressed(KeyCode::KeyP) || pad_pause {
        Some(!clock.paused)
    } else {
        None
    }
}

/// Whether a step is asked for: `.` in a paused world.
pub fn step_scene(keys: &Keyboard, clock: &SimClock) -> (step: bool)
    ensures
        step == (clock.paused && keys.tapped(KeyCode::Period)),
{
    clock.paused && keys.just_pressed(KeyCode::Period)
}

/// How far a scene advances in a frame.
#[derive(Clone, Copy, Debug, PartialEq, Eq, Structural)]
pub enum FrameStep {
    /// Not at all: paused with nothing to step.
    Frozen,
    /// By the frame's own length.
    Running,
    /// By this many ticks of the step budget.
    Chunk(u64),
}

/// How far a scene advances with this clock.
pub open spec fn step_for(c: SimClock) -> FrameStep {
    if !c.paused {
        FrameStep::Running
    } else if c.step_budget == 0 {
        FrameStep::Frozen
    } else if c.step_budget < STEP_CHUNK_TICKS {
        FrameStep::Chunk(c.step_budget)
    } else {
        FrameStep::Chunk(STEP_CHUNK_TICKS)
    }
}

/// The clock after that step: a chunk is spent.
pub open spec fn clock_after(c: SimClock) -> SimClock {
    match step_for(c) {
        FrameStep::Chunk(n) => SimClock { step_budget: (c.step_budget - n) as u64, ..c },
        _ => c,
    }
}

/// How far the scene advances this frame; a chunk of the step budget is spent.
pub fn frame_step_dt(clock: &mut SimClock) -> (step: FrameStep)
    ensures
        step == step_for(*old(clock)),
        *final(clock) == clock_after(*old(clock)),
{
    if !clock.paused {
        return FrameStep::Running;
    }
    if clock.step_budget == 0 {
        return FrameStep::Frozen;
    }
    let chunk: u64 = if clock.step_budget < STEP_CHUNK_TICKS {
        clock.step_budget
    } else {
        STEP_CHUNK_TICKS
    };
    clock.step_budget = clock.step_budget - chunk;
    FrameStep::Chunk(chunk)
}

/// The note that marks a paused world on a display; nothing while it runs.
pub fn paused_banner(clock: &SimClock) -> (s: &'static str)
    ensures
        s@ == (if clock.paused {
            "\n⏸ PAUSED (P · . step)"@
        } else {
            ""@
        }),
{
    if clock.paused {
        "\n⏸ PAUSED (P · . step)"
    } else {
        ""
    }
}

/// The clock after `n` frames.
pub open spec fn clock_after_frames(c: SimClock, n: nat) -> SimClock
    decreases n,
{
    if n == 0 {
        c
    } else {
        clock_after(clock_after_frames(c, (n - 1) as nat))
    }
}

/// A paused world spends its step budget chunk by chunk and then stands still:
/// after `n` frames what is left is the budget less `n` chunks, or nothing.
pub proof fn lemma_budget_is_spent_exactly(c: SimClock, n: nat)
    requires
        c.paused,
    ensures
        ({
            let after = clock_after_frames(c, n);
            &&& after.paused
            &&& after.step_budget == (if c.step_budget >= n * STEP_CHUNK_TICKS {
                c.step_budget - n * STEP_CHUNK_TICKS
            } else {
                0
            })
        }),
    decreases n,
{
    if n > 0 {
        lemma_budget_is_spent_exactly(c, (n - 1) as nat);
        assert(n * 1000 == (n - 1) * 1000 + 1000);
    }
}

/// A running world never spends its step budget.
pub proof fn lemma_running_keeps_the_budget(c: SimClock)
    requires
        !c.paused,
    ensures
        clock_after(c) == c,
        step_for(c) == FrameStep::Running,
{
}

/// A pause is asked for by the key or by the pad, never while the library is open, and it
/// is never the one that the clock has: it stops a running world and resumes a paused one.
pub proof fn lemma_pause_is_toggled(closed: bool, key: bool, pad: bool, paused: bool)
    ensures
        asked_pause(false, key, pad, paused) is None,
        asked_pause(closed, false, false, paused) is None,
        closed && (key || pad) ==> asked_pause(closed, key, pad, paused) is Some,
        asked_pause(closed, key, pad, paused) matches Some(p) ==> p != paused,
{
}

/// A paused world with a budget advances by what it spends, at most a sixtieth of a second
/// of it in a frame; without a budget it stands still, and only a running one runs.
pub proof fn lemma_a_step_is_what_it_spends(c: SimClock)
    ensures
        step_for(c) == FrameStep::Running <==> !c.paused,
        step_for(c) == FrameStep::Frozen <==> c.paused && c.step_budget == 0,
        clock_after(c).paused == c.paused,
        c.paused && c.step_budget > 0 ==> (step_for(c) matches FrameStep::Chunk(n) && 0 < n
            <= 1_000 && n == c.step_budget - clock_after(c).step_budget && (n == 1_000
            || clock_after(c).step_budget == 0)),
{
}

} // verus!
