//! Fixed sub-steps: frame time collects in an accumulator and is spent in whole
//! steps, up to a cap per frame. What the cap leaves over waits for the next
//! frame. Times are microseconds.

use vstd::prelude::*;

verus! {

/// The flight scenes' sub-step.
pub const FLIGHT_STEP_US: u64 = 4_000;

/// The flight scenes' cap on sub-steps per frame.
pub const FLIGHT_MAX_SUBSTEPS: u32 = 250;

/// The rovers' cap on sub-steps per frame.
pub const ROVER_MAX_SUBSTEPS: u32 = 64;

/// The flooding scene's sub-step.
pub const FLOOD_STEP_US: u64 = 10_000;

/// The flooding scene's cap on sub-steps per frame.
pub const FLOOD_MAX_SUBSTEPS: u32 = 40;

/// A frame's worth of sub-steps in progress.
#[derive(Clone, Copy, Debug, PartialEq, Eq, Structural)]
pub struct Substeps {
    /// The time not yet spent.
    pub accumulator: u64,
    /// One step.
    pub step: u64,
    /// The steps still allowed in this frame.
    pub left: u32,
}

/// How many steps a frame takes if nothing stops it.
pub open spec fn steps_in(accumulator: int, step: int, cap: int) -> int {
    if accumulator / step < cap {
        accumulator / step
    } else {
        cap
    }
}

impl Substeps {
    /// Whether the state is sound.
    pub open spec fn wf(self) -> bool {
        self.step > 0
    }

    /// The steps that remain in this frame.
    pub open spec fn remaining(self) -> int {
        steps_in(self.accumulator as int, self.step as int, self.left as int)
    }

    /// Begins a frame: its time, sped up by the warp, joins what was left over.
    pub fn begin(leftover: u64, frame: u64, warp: u64, step: u64, cap: u32) -> (s: Substeps)
        requires
            step > 0,
            leftover + frame * warp <= u64::MAX,
        ensures
            s.wf(),
            s == (Substeps {
                accumulator: (leftover + frame * warp) as u64,
                step,
                left: cap,
            }),
            s == frame_start(leftover, frame, warp, step, cap),
    {
        assert(0 <= frame * warp) by (nonlinear_arith)
            requires
                frame >= 0,
                warp >= 0,
        ;
        Substeps { accumulator: leftover + frame * warp, step, left: cap }
    }

    /// Takes one step, if the time and the cap allow it and the session is not
    /// over.
    pub fn take(&mut self, over: bool) -> (taken: bool)
        requires
            old(self).wf(),
        ensures
            final(self).wf(),
            taken == (!over && old(self).accumulator >= old(self).step && old(self).left > 0),
            *final(self) == (if taken {
                Substeps {
                    accumulator: (old(self).accumulator - old(self).step) as u64,
                    step: old(self).step,
                    left: (old(self).left - 1) as u32,
                }
            } else {
                *old(self)
            }),
            taken == (!over && old(self).remaining() > 0),
            taken ==> final(self).remaining() == old(self).remaining() - 1,
            taken ==> *final(self) == after_steps(*old(self), 1),
    {
        proof {
            reveal_with_fuel(after_steps, 2);
        }
        let ghost start = *self;
        if over || self.accumulator < self.step || self.left == 0 {
            proof {
                if start.accumulator < start.step {
                    vstd::arithmetic::div_mod::lemma_basic_div(
                        start.accumulator as int,
                        start.step as int,
                    );
                }
                lemma_steps_are_no_less_than_none(start);
            }
            return false;
        }
        self.accumulator = self.accumulator - self.step;
        self.left = self.left - 1;
        proof {
            let (a, d) = (start.accumulator as int, start.step as int);
            assert((a - d) / d == a / d - 1) by {
                vstd::arithmetic::div_mod::lemma_div_minus_one(a, d);
            }
            lemma_steps_are_no_less_than_none(*self);
        }
        true
    }
}

proof fn lemma_steps_are_no_less_than_none(s: Substeps)
    requires
        s.wf(),
    ensures
        s.accumulator as int / s.step as int >= 0,
        s.remaining() >= 0,
{
    vstd::arithmetic::div_mod::lemma_div_pos_is_pos(s.accumulator as int, s.step as int);
}

/// The state after `k` steps.
pub open spec fn after_steps(s: Substeps, k: nat) -> Substeps
    decreases k,
{
    if k == 0 {
        s
    } else {
        let t = after_steps(s, (k - 1) as nat);
        Substeps {
            accumulator: (t.accumulator - t.step) as u64,
            step: t.step,
            left: (t.left - 1) as u32,
        }
    }
}

/// A frame that nothing stops takes as many steps as its time and its cap allow,
/// and spends exactly that much time.
pub proof fn lemma_time_is_spent_in_whole_steps(s: Substeps, k: nat)
    requires
        s.wf(),
        k <= s.remaining(),
    ensures
        after_steps(s, k).accumulator == s.accumulator - k * s.step,
        after_steps(s, k).left == s.left - k,
        after_steps(s, k).step == s.step,
    decreases k,
{
    let (a, d) = (s.accumulator as int, s.step as int);
    vstd::arithmetic::div_mod::lemma_fundamental_div_mod(a, d);
    assert(k * d <= a) by (nonlinear_arith)
        requires
            k <= a / d,
            a == d * (a / d) + a % d,
            a % d >= 0,
            d > 0,
    ;
    if k > 0 {
        lemma_time_is_spent_in_whole_steps(s, (k - 1) as nat);
        assert((k - 1) * d == k * d - d) by (nonlinear_arith);
    } else {
        assert(k * d == 0) by (nonlinear_arith)
            requires
                k == 0,
        ;
    }
}

/// When a frame is done, less than one step is left over, or its cap is spent.
pub proof fn lemma_leftover_is_less_than_a_step(s: Substeps)
    requires
        s.wf(),
    ensures
        ({
            let done = after_steps(s, s.remaining() as nat);
            done.accumulator < s.step || done.left == 0
        }),
{
    lemma_steps_are_no_less_than_none(s);
    lemma_time_is_spent_in_whole_steps(s, s.remaining() as nat);
    let (a, d) = (s.accumulator as int, s.step as int);
    vstd::arithmetic::div_mod::lemma_fundamental_div_mod(a, d);
    vstd::arithmetic::div_mod::lemma_mod_bound(a, d);
    if s.remaining() == a / d {
        assert((a / d) * d == d * (a / d)) by (nonlinear_arith);
    }
}

/// A frame as it begins: its time, sped up by the warp, has joined what was left over.
pub open spec fn frame_start(leftover: u64, frame: u64, warp: u64, step: u64, cap: u32) -> Substeps {
    Substeps { accumulator: (leftover + frame * warp) as u64, step, left: cap }
}

/// No time is lost or made up: what a frame has to spend is what was left over and its own
/// time as often as the warp says; without either there is nothing to spend.
pub proof fn lemma_a_frame_begins_with_all_its_time(
    leftover: u64,
    frame: u64,
    warp: u64,
    step: u64,
    cap: u32,
)
    requires
        step > 0,
        leftover + frame * warp <= u64::MAX,
    ensures
        ({
            let s = frame_start(leftover, frame, warp, step, cap);
            &&& s.accumulator - leftover == frame * warp
            &&& s.remaining() <= cap
            &&& s.remaining() * step <= leftover + frame * warp
            &&& s.remaining() < cap ==> (s.remaining() + 1) * step > leftover + frame * warp
        }),
{
    assert(frame * warp >= 0) by (nonlinear_arith)
        requires
            frame >= 0,
            warp >= 0,
    ;
    lemma_as_many_steps_as_fit(leftover + frame * warp, step as int, cap as int);
}

/// As many steps are taken as fit into the time, and no more than the cap.
pub proof fn lemma_as_many_steps_as_fit(accumulator: int, step: int, cap: int)
    requires
        accumulator >= 0,
        step > 0,
        cap >= 0,
    ensures
        ({
            let k = steps_in(accumulator, step, cap);
            &&& 0 <= k <= cap
            &&& k * step <= accumulator
            &&& k < cap ==> (k + 1) * step > accumulator
        }),
{
    let q = accumulator / step;
    let k = steps_in(accumulator, step, cap);
    vstd::arithmetic::div_mod::lemma_fundamental_div_mod(accumulator, step);
    vstd::arithmetic::div_mod::lemma_mod_bound(accumulator, step);
    vstd::arithmetic::div_mod::lemma_div_pos_is_pos(accumulator, step);
    assert(step * q == q * step && (q + 1) * step == q * step + step) by (nonlinear_arith);
    assert(k * step <= q * step) by (nonlinear_arith)
        requires
            k <= q,
            step > 0,
    ;
}

} // verus!
