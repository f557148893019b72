//! Driving: what the keys do to the wheels, the track that the rover leaves, and
//! the rovers' readouts.
//!
//! Torques are newton-metres, steering angles tenths of a radian, times
//! microseconds, steering inputs millionths.

use crate::input::KeyCode;
use crate::input::Keyboard;
use crate::pause::paused_banner;
use crate::pause::SimClock;
use crate::readout::field;
use crate::readout::show;
use crate::readout::shown;
use crate::readout::Field;
use crate::text::lemma_says_its_end;
use crate::text::lemma_says_itself;
use crate::text::lemma_says_on;
use crate::text::says;
use vstd::prelude::*;

verus! {

/// The longest track, in points.
pub const MAX_TRACK: usize = 600;

/// A point is recorded at every so many sub-steps.
pub const TRACK_EVERY: u32 = 16;

/// What a wheel is told.
#[derive(Clone, Copy, Debug, PartialEq, Eq, Structural)]
pub struct WheelCommand {
    pub drive_torque: i32,
    pub brake: i32,
    /// Tenths of a radian.
    pub steer: i32,
}

/// A choice of two keys, the first of which wins.
pub open spec fn either(keys: Keyboard, first: KeyCode, second: KeyCode, size: int) -> int {
    if keys.held(first) {
        size
    } else if keys.held(second) {
        -size
    } else {
        0
    }
}

/// A choice of two keys, the first of which wins.
fn either_of(keys: &Keyboard, first: KeyCode, second: KeyCode, size: i32) -> (r: i32)
    requires
        size > i32::MIN,
    ensures
        r == either(*keys, first, second, size as int),
{
    if keys.pressed(first) {
        size
    } else if keys.pressed(second) {
        -size
    } else {
        0
    }
}

/// What a wheel is told: all are driven and braked alike, the far pair steers.
pub open spec fn wheel_command(keys: Keyboard, wheel: int) -> WheelCommand {
    WheelCommand {
        drive_torque: either(keys, KeyCode::KeyW, KeyCode::KeyS, 2_500) as i32,
        brake: if keys.held(KeyCode::Space) {
            3_000
        } else {
            0
        },
        steer: if wheel >= 2 {
            either(keys, KeyCode::KeyA, KeyCode::KeyD, 4) as i32
        } else {
            0
        },
    }
}

/// What the rover's wheels are told.
pub fn drive_input(keys: &Keyboard, wheels: usize) -> (out: Vec<WheelCommand>)
    ensures
        out@ == Seq::new(wheels as nat, |i: int| wheel_command(*keys, i)),
{
    let throttle: i32 = either_of(keys, KeyCode::KeyW, KeyCode::KeyS, 2_500);
    let brake: i32 = if keys.pressed(KeyCode::Space) {
        3_000
    } else {
        0
    };
    let steer: i32 = either_of(keys, KeyCode::KeyA, KeyCode::KeyD, 4);
    let mut out: Vec<WheelCommand> = Vec::new();
    let mut i: usize = 0;
    while i < wheels
        invariant
            i <= wheels,
            throttle == either(*keys, KeyCode::KeyW, KeyCode::KeyS, 2_500),
            brake == (if keys.held(KeyCode::Space) {
                3_000int
            } else {
                0
            }),
            steer == either(*keys, KeyCode::KeyA, KeyCode::KeyD, 4),
            out@ == Seq::new(i as nat, |i: int| wheel_command(*keys, i)),
        decreases wheels - i,
    {
        out.push(
            WheelCommand {
                drive_torque: throttle,
                brake,
                steer: if i >= 2 {
                    steer
                } else {
                    0
                },
            },
        );
        i += 1;
        assert(out@ =~= Seq::new(i as nat, |i: int| wheel_command(*keys, i)));
    }
    out
}

/// The trail that the rover leaves: points, and how many sub-steps have passed.
#[derive(Debug, PartialEq, Eq)]
pub struct Track<P> {
    pub points: Vec<P>,
    pub record: u32,
}

/// The last points of a trail.
pub open spec fn recent<P>(points: Seq<P>) -> Seq<P> {
    if points.len() > MAX_TRACK {
        points.skip(points.len() - MAX_TRACK)
    } else {
        points
    }
}

impl<P> Track<P> {
    /// Whether the trail is within its length.
    pub open spec fn wf(self) -> bool {
        self.points@.len() <= MAX_TRACK
    }

    /// No trail.
    pub fn new() -> (t: Track<P>)
        ensures
            t.wf(),
            t.points@.len() == 0,
            t.record == 0,
    {
        Track { points: Vec::new(), record: 0 }
    }

    /// Counts a sub-step, and records its point when its turn comes; the oldest
    /// point makes room.
    pub fn step(&mut self, point: P)
        requires
            old(self).wf(),
            old(self).record < u32::MAX,
        ensures
            final(self).wf(),
            final(self).record == old(self).record + 1,
            final(self).points@ == (if (old(self).record + 1) % TRACK_EVERY as int == 0 {
                recent(old(self).points@.push(point))
            } else {
                old(self).points@
            }),
    {
        let ghost start = self.points@;
        self.record = self.record + 1;
        if self.record % TRACK_EVERY == 0 {
            self.points.push(point);
            if self.points.len() > MAX_TRACK {
                let _ = self.points.remove(0);
                assert(self.points@ =~= start.push(point).skip(1));
            }
        }
    }
}

/// Trimming a trail as it grows keeps what trimming it at the end would keep.
pub proof fn lemma_trail_is_the_recent_past<P>(points: Seq<P>, next: P)
    ensures
        recent(recent(points).push(next)) == recent(points.push(next)),
        recent(points).len() <= MAX_TRACK,
{
    assert(recent(recent(points).push(next)) =~= recent(points.push(next)));
}

/// What the buggy's driver asks for.
#[derive(Clone, Copy, Debug, PartialEq, Eq, Structural)]
pub struct BuggyInput {
    /// -1, 0 or 1.
    pub throttle: i32,
    pub braking: bool,
    /// Millionths, slewed towards full lock.
    pub steer: i32,
}

/// How fast the steering moves, in full locks per second.
pub const STEER_RATE: i64 = 3;

/// A value moved towards a target by a step at most.
pub open spec fn slewed(from: int, to: int, step: int) -> int {
    if to - from > step {
        from + step
    } else if from - to > step {
        from - step
    } else {
        to
    }
}

/// The buggy's keys.
pub fn buggy_input(keys: &Keyboard, steer: i32, dt: u32) -> (r: BuggyInput)
    requires
        -1_000_000 <= steer <= 1_000_000,
    ensures
        r.throttle == either(*keys, KeyCode::KeyW, KeyCode::KeyS, 1),
        r.braking == keys.held(KeyCode::Space),
        r.steer == slewed(
            steer as int,
            either(*keys, KeyCode::KeyA, KeyCode::KeyD, 1_000_000),
            STEER_RATE * dt,
        ),
        -1_000_000 <= r.steer <= 1_000_000,
{
    let target: i64 = either_of(keys, KeyCode::KeyA, KeyCode::KeyD, 1_000_000) as i64;
    let step: i64 = STEER_RATE * dt as i64;
    let from: i64 = steer as i64;
    let next: i64 = if target - from > step {
        from + step
    } else if from - target > step {
        from - step
    } else {
        target
    };
    BuggyInput {
        throttle: either_of(keys, KeyCode::KeyW, KeyCode::KeyS, 1),
        braking: keys.pressed(KeyCode::Space),
        steer: next as i32,
    }
}

/// The steering settles on its target and stays there.
pub proof fn lemma_steering_settles(to: int, step: int)
    requires
        step >= 0,
    ensures
        slewed(to, to, step) == to,
{
}

/// The steering never overshoots its target.
pub proof fn lemma_steering_does_not_overshoot(from: int, to: int, step: int)
    requires
        step >= 0,
    ensures
        from <= to ==> from <= slewed(from, to, step) <= to,
        to <= from ==> to <= slewed(from, to, step) <= from,
{
}

/// Whether a wheel is among the driven ones.
pub open spec fn driven(drive: Seq<usize>, wheel: int) -> bool {
    exists|i: int| 0 <= i < drive.len() && #[trigger] drive[i] == wheel
}

/// The torque of each wheel: the driven ones share the motor's, the others have
/// none.
pub fn wheel_torques(wheels: usize, drive: &Vec<usize>, torque: i64) -> (out: Vec<i64>)
    ensures
        out@.len() == wheels,
        forall|i: int|
            0 <= i < wheels ==> #[trigger] out@[i] == (if driven(drive@, i) {
                torque
            } else {
                0
            }),
{
    let mut out: Vec<i64> = Vec::new();
    let mut i: usize = 0;
    while i < wheels
        invariant
            i <= wheels,
            out@.len() == i,
            forall|j: int|
                0 <= j < i ==> #[trigger] out@[j] == (if driven(drive@, j) {
                    torque
                } else {
                    0
                }),
        decreases wheels - i,
    {
        let mut k: usize = 0;
        let mut found: bool = false;
        while k < drive.len()
            invariant
                k <= drive@.len(),
                found == exists|j: int| 0 <= j < k && #[trigger] drive@[j] == i,
            decreases drive.len() - k,
        {
            if drive[k] == i {
                found = true;
                assert(drive@[k as int] == i);
            }
            k += 1;
        }
        out.push(
            if found {
                torque
            } else {
                0
            },
        );
        i += 1;
    }
    out
}

/// The rover's readout.
pub open spec fn rover_text(speed: i64, height: i64, clock: SimClock) -> Seq<char> {
    "speed: "@ + shown(speed as int, (Field { width: 5, digits: 1, plus: false }))
            + " m/s\nheight: "@ + shown(
            height as int,
            (Field { width: 5, digits: 2, plus: false }),
        ) + " m"@ + (if clock.paused {
            "\n⏸ PAUSED (P · . step)"@
        } else {
            ""@
        })
}

/// The rover's readout.
pub fn rover_hud(speed: i64, height: i64, clock: &SimClock) -> (s: String)
    ensures
        s@ == "speed: "@ + shown(speed as int, (Field { width: 5, digits: 1, plus: false }))
            + " m/s\nheight: "@ + shown(
            height as int,
            (Field { width: 5, digits: 2, plus: false }),
        ) + " m"@ + (if clock.paused {
            "\n⏸ PAUSED (P · . step)"@
        } else {
            ""@
        }),
        s@ == rover_text(speed, height, *clock),
{
    let mut s: String = "speed: ".to_owned();
    show(&mut s, speed, field(5, 1));
    s.append(" m/s\nheight: ");
    show(&mut s, height, field(5, 2));
    s.append(" m");
    s.append(paused_banner(clock));
    s
}

/// The buggy's readout.
pub open spec fn moon_text(speed: i64, clearance: i64) -> Seq<char> {
    "MOON (-- moon) — land & drive on the analytic surface\nspeed: "@ + shown(
            speed as int,
            (Field { width: 5, digits: 1, plus: false }),
        ) + " m/s\nclearance: "@ + shown(
            clearance as int,
            (Field { width: 5, digits: 2, plus: false }),
        ) + " m\n\nW/S throttle \u{b7} A/D steer \u{b7} Space brake \u{b7} P pause"@
}

/// The buggy's readout.
pub fn moon_hud(speed: i64, clearance: i64) -> (s: String)
    ensures
        s@ == "MOON (-- moon) — land & drive on the analytic surface\nspeed: "@ + shown(
            speed as int,
            (Field { width: 5, digits: 1, plus: false }),
        ) + " m/s\nclearance: "@ + shown(
            clearance as int,
            (Field { width: 5, digits: 2, plus: false }),
        ) + " m\n\nW/S throttle \u{b7} A/D steer \u{b7} Space brake \u{b7} P pause"@,
        s@ == moon_text(speed, clearance),
{
    let mut s: String = "MOON (-- moon) — land & drive on the analytic surface\nspeed: ".to_owned();
    show(&mut s, speed, field(5, 1));
    s.append(" m/s\nclearance: ");
    show(&mut s, clearance, field(5, 2));
    s.append(" m\n\nW/S throttle \u{b7} A/D steer \u{b7} Space brake \u{b7} P pause");
    s
}

/// Of two keys the first alone, or both, gives the full amount, the second alone the same
/// the other way, and neither gives nothing.
pub proof fn lemma_the_first_key_wins(keys: Keyboard, first: KeyCode, second: KeyCode, size: int)
    ensures
        keys.held(first) ==> either(keys, first, second, size) == size,
        keys.held(second) && !keys.held(first) ==> either(keys, first, second, size) == -size,
        !keys.held(first) && !keys.held(second) ==> either(keys, first, second, size) == 0,
{
}

/// `W` drives every wheel forward and `S` back, with the same torque; Space brakes every
/// wheel; `A` and `D` steer the wheels from the third on, to opposite sides, and no other.
pub proof fn lemma_rover_keys(keys: Keyboard, wheel: int, other: int)
    ensures
        ({
            let c = wheel_command(keys, wheel);
            let d = wheel_command(keys, other);
            &&& c.drive_torque == d.drive_torque && c.brake == d.brake
            &&& keys.held(KeyCode::KeyW) ==> c.drive_torque == 2_500
            &&& keys.held(KeyCode::KeyS) && !keys.held(KeyCode::KeyW) ==> c.drive_torque == -2_500
            &&& !keys.held(KeyCode::KeyS) && !keys.held(KeyCode::KeyW) ==> c.drive_torque == 0
            &&& keys.held(KeyCode::Space) <==> c.brake == 3_000
            &&& !keys.held(KeyCode::Space) <==> c.brake == 0
            &&& wheel < 2 ==> c.steer == 0
            &&& wheel >= 2 && keys.held(KeyCode::KeyA) ==> c.steer == 4
            &&& wheel >= 2 && keys.held(KeyCode::KeyD) && !keys.held(KeyCode::KeyA) ==> c.steer
                == -4
            &&& !keys.held(KeyCode::KeyA) && !keys.held(KeyCode::KeyD) ==> c.steer == 0
        }),
{
}

/// A trail is the last six hundred points, or all of a shorter one, in their order.
pub proof fn lemma_a_trail_is_the_last_points<P>(points: Seq<P>)
    ensures
        points.len() <= 600 ==> recent(points) == points,
        points.len() > 600 ==> recent(points) == points.subrange(
            points.len() - 600,
            points.len() as int,
        ),
{
    if points.len() > 600 {
        assert(recent(points) =~= points.subrange(points.len() - 600, points.len() as int));
    }
}

/// The steering goes towards its target by exactly one step, or arrives there if that is
/// nearer.
pub proof fn lemma_steering_moves_by_a_step(from: int, to: int, step: int)
    requires
        step >= 0,
    ensures
        to > from + step ==> slewed(from, to, step) - from == step,
        to < from - step ==> from - slewed(from, to, step) == step,
        from - step <= to <= from + step ==> slewed(from, to, step) == to,
{
}

/// Driving the first wheels drives those; a wheel that is not on the list is not driven.
pub proof fn lemma_only_listed_wheels_are_driven(drive: Seq<usize>, wheel: usize)
    ensures
        driven(drive, wheel as int) <==> drive.contains(wheel),
{
    if drive.contains(wheel) {
        let i = choose|i: int| 0 <= i < drive.len() && drive[i] == wheel;
        assert(drive[i] == wheel as int);
    }
}

/// Every measure stands behind its own label in the rover's readout.
pub proof fn lemma_the_rover_readout_labels_its_measures(
    speed: i64,
    height: i64,
    clock: SimClock,
)
    ensures
        says(
            rover_text(speed, height, clock),
            "speed: "@ + shown(speed as int, (Field { width: 5, digits: 1, plus: false })),
        ),
        says(
            rover_text(speed, height, clock),
            " m/s\nheight: "@ + shown(height as int, (Field { width: 5, digits: 2, plus: false })),
        ),
        says(
            rover_text(speed, height, clock),
            " m"@ + (if clock.paused { "\n⏸ PAUSED (P · . step)"@ } else { ""@ }),
        ),
{
    let text = rover_text(speed, height, clock);
    let t0 = "speed: "@;
    let t1 = shown(speed as int, (Field { width: 5, digits: 1, plus: false }));
    let t2 = " m/s\nheight: "@;
    let t3 = shown(height as int, (Field { width: 5, digits: 2, plus: false }));
    let t4 = " m"@;
    let t5 = (if clock.paused { "\n⏸ PAUSED (P · . step)"@ } else { ""@ });
    let a1 = t0 + t1;
    lemma_says_itself(a1);
    let a2 = a1 + t2;
    lemma_says_on(a1, t2);
    let a3 = a2 + t3;
    lemma_says_on(a2, t3);
    lemma_says_its_end(a1, t2, t3);
    let a4 = a3 + t4;
    lemma_says_on(a3, t4);
    let a5 = a4 + t5;
    lemma_says_on(a4, t5);
    lemma_says_its_end(a3, t4, t5);
    assert(text == a5);
}

/// Every measure stands behind its own label in the buggy's readout.
pub proof fn lemma_the_buggy_readout_labels_its_measures(
    speed: i64,
    clearance: i64,
)
    ensures
        says(
            moon_text(speed, clearance),
            "MOON (-- moon) — land & drive on the analytic surface\nspeed: "@ + shown(speed as int, (Field { width: 5, digits: 1, plus: false })),
        ),
        says(
            moon_text(speed, clearance),
            " m/s\nclearance: "@ + shown(clearance as int, (Field { width: 5, digits: 2, plus: false })),
        ),
{
    let text = moon_text(speed, clearance);
    let t0 = "MOON (-- moon) — land & drive on the analytic surface\nspeed: "@;
    let t1 = shown(speed as int, (Field { width: 5, digits: 1, plus: false }));
    let t2 = " m/s\nclearance: "@;
    let t3 = shown(clearance as int, (Field { width: 5, digits: 2, plus: false }));
    let t4 = " m\n\nW/S throttle \u{b7} A/D steer \u{b7} Space brake \u{b7} P pause"@;
    let a1 = t0 + t1;
    lemma_says_itself(a1);
    let a2 = a1 + t2;
    lemma_says_on(a1, t2);
    let a3 = a2 + t3;
    lemma_says_on(a2, t3);
    lemma_says_its_end(a1, t2, t3);
    let a4 = a3 + t4;
    lemma_says_on(a3, t4);
    assert(text == a4);
}

} // verus!
