//! Flying by hand and by schedule: which commands the keys and the clock send,
//! and what the flight readouts show.
//!
//! Throttles are millionths, times microseconds, lengths micrometres, speeds
//! micrometres per second and masses milligrams.

use crate::input::KeyCode;
use crate::input::Keyboard;
use crate::net::Outcome;
use crate::net::Phase;
use crate::pause::paused_banner;
use crate::pause::SimClock;
use crate::readout::field;
use crate::readout::nearest;
use crate::readout::nearest_of;
use crate::readout::show;
use crate::readout::shown;
use crate::readout::sign_of;
use crate::readout::size_of;
use crate::readout::Field;
use crate::text::decimal;
use crate::text::push_char;
use crate::text::push_decimal;
use crate::text::lemma_says_its_end;
use crate::text::lemma_says_on;
use crate::text::says;
use crate::text::lemma_says_itself;
use vstd::prelude::*;

verus! {

/// A full throttle.
pub const FULL_THROTTLE: u32 = 1_000_000;

/// The fastest time-warp.
pub const MAX_WARP: u32 = 16;

/// The slowest time-warp.
pub const MIN_WARP: u32 = 1;

/// What the attitude hold does.
#[derive(Clone, Copy, Debug, PartialEq, Eq, Structural)]
pub enum SasMode {
    Off,
    KillRotation,
    Hold,
    Point,
}

/// A push about each body axis: -1, 0 or 1.
#[derive(Clone, Copy, Debug, PartialEq, Eq, Structural)]
pub struct Attitude {
    pub x: i32,
    pub y: i32,
    pub z: i32,
}

/// A command to the craft.
#[derive(Clone, Copy, Debug, PartialEq, Eq, Structural)]
pub enum Command {
    SetThrottle(u32),
    SetAttitude(Attitude),
    SetSas(SasMode),
    SetSasRecapture(bool),
}

/// What two keys push along an axis: one forward, one back.
pub open spec fn push_of(keys: Keyboard, forward: KeyCode, back: KeyCode) -> int {
    (if keys.held(forward) {
        1int
    } else {
        0
    }) - (if keys.held(back) {
        1int
    } else {
        0
    })
}

/// What two keys push along an axis.
pub fn axis(keys: &Keyboard, forward: KeyCode, back: KeyCode) -> (r: i32)
    ensures
        r == push_of(*keys, forward, back),
        -1 <= r <= 1,
{
    let mut r: i32 = 0;
    if keys.pressed(forward) {
        r += 1;
    }
    if keys.pressed(back) {
        r -= 1;
    }
    r
}

/// The player's own controls.
#[derive(Clone, Copy, Debug, PartialEq, Eq, Structural)]
pub struct Controls {
    pub throttle: u32,
    pub warp: u32,
}

impl Controls {
    /// The throttle is at most full; the warp is one of the doublings.
    pub open spec fn wf(self) -> bool {
        &&& self.throttle <= FULL_THROTTLE
        &&& (self.warp == 1 || self.warp == 2 || self.warp == 4 || self.warp == 8 || self.warp
            == 16)
    }

    /// At rest.
    pub fn new() -> (c: Controls)
        ensures
            c == (Controls { throttle: 0, warp: 1 }),
            c.wf(),
    {
        Controls { throttle: 0, warp: 1 }
    }
}

/// The throttle after a frame: shift ramps it up and control down, by the frame's
/// time; `Z` opens it fully and `X` closes it.
pub open spec fn next_throttle(throttle: u32, keys: Keyboard, dt: u32) -> u32 {
    let up = keys.held(KeyCode::ShiftLeft) || keys.held(KeyCode::ShiftRight);
    let down = keys.held(KeyCode::ControlLeft) || keys.held(KeyCode::ControlRight);
    let raised = if !up {
        throttle as int
    } else if throttle + dt < FULL_THROTTLE {
        throttle + dt
    } else {
        FULL_THROTTLE as int
    };
    let lowered = if !down {
        raised
    } else if raised > dt {
        raised - dt
    } else {
        0
    };
    if keys.tapped(KeyCode::KeyX) {
        0
    } else if keys.tapped(KeyCode::KeyZ) {
        FULL_THROTTLE
    } else {
        lowered as u32
    }
}

/// The warp after a frame: the period doubles it and the comma halves it, within
/// its bounds.
pub open spec fn next_warp(warp: u32, keys: Keyboard) -> u32 {
    let faster = if keys.tapped(KeyCode::Period) && warp < MAX_WARP {
        2 * warp
    } else {
        warp as int
    };
    if keys.tapped(KeyCode::Comma) && faster > MIN_WARP {
        (faster / 2) as u32
    } else {
        faster as u32
    }
}

/// The attitude that the player's keys ask for.
pub open spec fn player_attitude(keys: Keyboard) -> (int, int, int) {
    (
        push_of(keys, KeyCode::KeyW, KeyCode::KeyS),
        push_of(keys, KeyCode::KeyQ, KeyCode::KeyE),
        push_of(keys, KeyCode::KeyA, KeyCode::KeyD),
    )
}

/// The commands that a frame sends whatever else happens: the throttle, and the
/// attitude that the keys ask for.
pub fn player_input(controls: &mut Controls, keys: &Keyboard, dt: u32) -> (out: Vec<Command>)
    requires
        old(controls).wf(),
    ensures
        final(controls).wf(),
        final(controls).throttle == next_throttle(old(controls).throttle, *keys, dt),
        final(controls).warp == old(controls).warp,
        out@.len() == 2,
        out@[0] == Command::SetThrottle(final(controls).throttle),
        out@[1] matches Command::SetAttitude(a) && a.x == push_of(
            *keys,
            KeyCode::KeyW,
            KeyCode::KeyS,
        ) && a.y == push_of(*keys, KeyCode::KeyQ, KeyCode::KeyE) && a.z == push_of(
            *keys,
            KeyCode::KeyA,
            KeyCode::KeyD,
        ),
        out@[1] == attitude_command(player_attitude(*keys)),
{
    if keys.pressed(KeyCode::ShiftLeft) || keys.pressed(KeyCode::ShiftRight) {
        controls.throttle = if dt < FULL_THROTTLE - controls.throttle {
            controls.throttle + dt
        } else {
            FULL_THROTTLE
        };
    }
    if keys.pressed(KeyCode::ControlLeft) || keys.pressed(KeyCode::ControlRight) {
        controls.throttle = if controls.throttle > dt {
            controls.throttle - dt
        } else {
            0
        };
    }
    if keys.just_pressed(KeyCode::KeyZ) {
        controls.throttle = FULL_THROTTLE;
    }
    if keys.just_pressed(KeyCode::KeyX) {
        controls.throttle = 0;
    }
    let manual: Attitude = Attitude {
        x: axis(keys, KeyCode::KeyW, KeyCode::KeyS),
        y: axis(keys, KeyCode::KeyQ, KeyCode::KeyE),
        z: axis(keys, KeyCode::KeyA, KeyCode::KeyD),
    };
    let mut out: Vec<Command> = Vec::new();
    out.push(Command::SetThrottle(controls.throttle));
    out.push(Command::SetAttitude(manual));
    out
}

/// The hold's mode, toggled.
pub open spec fn toggled(mode: SasMode) -> SasMode {
    if mode == SasMode::Hold {
        SasMode::Off
    } else {
        SasMode::Hold
    }
}

/// The commands to the attitude hold: `T` toggles holding, `R` kills rotation and
/// `F` switches it off, in this order.
pub open spec fn sas_commands(keys: Keyboard, mode: SasMode) -> Seq<Command> {
    (if keys.tapped(KeyCode::KeyT) {
        seq![Command::SetSas(toggled(mode))]
    } else {
        Seq::empty()
    }) + (if keys.tapped(KeyCode::KeyR) {
        seq![Command::SetSas(SasMode::KillRotation)]
    } else {
        Seq::empty()
    }) + (if keys.tapped(KeyCode::KeyF) {
        seq![Command::SetSas(SasMode::Off)]
    } else {
        Seq::empty()
    })
}

/// The commands to the attitude hold, given the mode that it is in.
pub fn sas_input(keys: &Keyboard, mode: SasMode) -> (out: Vec<Command>)
    ensures
        out@ == sas_commands(*keys, mode),
{
    let mut out: Vec<Command> = Vec::new();
    if keys.just_pressed(KeyCode::KeyT) {
        out.push(
            Command::SetSas(
                if mode == SasMode::Hold {
                    SasMode::Off
                } else {
                    SasMode::Hold
                },
            ),
        );
    }
    if keys.just_pressed(KeyCode::KeyR) {
        out.push(Command::SetSas(SasMode::KillRotation));
    }
    if keys.just_pressed(KeyCode::KeyF) {
        out.push(Command::SetSas(SasMode::Off));
    }
    assert(out@ =~= sas_commands(*keys, mode));
    out
}

/// The command to the hold's recapture.
pub open spec fn recapture_command(keys: Keyboard, recapture: bool) -> Option<Command> {
    if keys.tapped(KeyCode::KeyG) {
        Some(Command::SetSasRecapture(!recapture))
    } else {
        None
    }
}

/// The command to the hold's recapture: `G` inverts it.
pub fn recapture_input(keys: &Keyboard, recapture: bool) -> (c: Option<Command>)
    ensures
        c == (if keys.tapped(KeyCode::KeyG) {
            Some(Command::SetSasRecapture(!recapture))
        } else {
            None
        }),
        c == recapture_command(*keys, recapture),
{
    if keys.just_pressed(KeyCode::KeyG) {
        Some(Command::SetSasRecapture(!recapture))
    } else {
        None
    }
}

/// The time-warp's keys.
pub fn warp_input(controls: &mut Controls, keys: &Keyboard)
    requires
        old(controls).wf(),
    ensures
        final(controls).wf(),
        final(controls).throttle == old(controls).throttle,
        final(controls).warp == next_warp(old(controls).warp, *keys),
{
    if keys.just_pressed(KeyCode::Period) && controls.warp < MAX_WARP {
        controls.warp = 2 * controls.warp;
    }
    if keys.just_pressed(KeyCode::Comma) && controls.warp > MIN_WARP {
        controls.warp = controls.warp / 2;
    }
}

/// Toggling the hold twice switches it off again.
pub proof fn lemma_toggling_twice_switches_off(mode: SasMode)
    requires
        mode != SasMode::Hold,
    ensures
        toggled(mode) == SasMode::Hold,
        toggled(toggled(mode)) == SasMode::Off,
{
}

/// What a faster key gives, a slower key takes back, below the fastest warp.
pub proof fn lemma_slower_undoes_faster(warp: u32, faster: Keyboard, slower: Keyboard)
    requires
        (Controls { throttle: 0, warp }).wf(),
        warp < MAX_WARP,
        faster.tapped(KeyCode::Period),
        !faster.tapped(KeyCode::Comma),
        slower.tapped(KeyCode::Comma),
        !slower.tapped(KeyCode::Period),
    ensures
        next_warp(next_warp(warp, faster), slower) == warp,
{
}

/// The throttle never leaves its range.
pub proof fn lemma_throttle_stays_in_range(throttle: u32, keys: Keyboard, dt: u32)
    requires
        throttle <= FULL_THROTTLE,
    ensures
        next_throttle(throttle, keys, dt) <= FULL_THROTTLE,
{
}

/// The attitude that the scenario's keys ask for.
pub open spec fn scenario_attitude(keys: Keyboard) -> (int, int, int) {
    (
        push_of(keys, KeyCode::KeyS, KeyCode::KeyW),
        push_of(keys, KeyCode::KeyA, KeyCode::KeyD),
        push_of(keys, KeyCode::KeyQ, KeyCode::KeyE),
    )
}

/// The commands of the scenario's single-shot keys.
pub open spec fn scenario_taps(keys: Keyboard) -> Seq<Command> {
    (if keys.tapped(KeyCode::KeyZ) {
        seq![Command::SetThrottle(FULL_THROTTLE)]
    } else {
        Seq::empty()
    }) + (if keys.tapped(KeyCode::KeyX) {
        seq![Command::SetThrottle(0)]
    } else {
        Seq::empty()
    }) + (if keys.tapped(KeyCode::KeyT) {
        seq![Command::SetSas(SasMode::Hold)]
    } else {
        Seq::empty()
    }) + (if keys.tapped(KeyCode::KeyF) {
        seq![Command::SetSas(SasMode::Off)]
    } else {
        Seq::empty()
    })
}

/// An attitude as a command.
pub open spec fn attitude_command(a: (int, int, int)) -> Command {
    Command::SetAttitude(Attitude { x: a.0 as i32, y: a.1 as i32, z: a.2 as i32 })
}

/// The attitude command of a frame: the keys' while any is held, and one of zero
/// when they are released.
pub open spec fn scenario_turn(keys: Keyboard, active: bool) -> Seq<Command> {
    let a = scenario_attitude(keys);
    if a != (0int, 0int, 0int) || active {
        seq![attitude_command(a)]
    } else {
        Seq::empty()
    }
}

/// The scenario's keys.
pub fn scenario_input(keys: &Keyboard, active: &mut bool) -> (out: Vec<Command>)
    ensures
        out@ == scenario_taps(*keys) + scenario_turn(*keys, *old(active)),
        *final(active) == (scenario_attitude(*keys) != (0int, 0int, 0int)),
{
    let ghost was = *active;
    let mut out: Vec<Command> = Vec::new();
    if keys.just_pressed(KeyCode::KeyZ) {
        out.push(Command::SetThrottle(FULL_THROTTLE));
    }
    if keys.just_pressed(KeyCode::KeyX) {
        out.push(Command::SetThrottle(0));
    }
    if keys.just_pressed(KeyCode::KeyT) {
        out.push(Command::SetSas(SasMode::Hold));
    }
    if keys.just_pressed(KeyCode::KeyF) {
        out.push(Command::SetSas(SasMode::Off));
    }
    assert(out@ =~= scenario_taps(*keys));
    let manual: Attitude = Attitude {
        x: axis(keys, KeyCode::KeyS, KeyCode::KeyW),
        y: axis(keys, KeyCode::KeyA, KeyCode::KeyD),
        z: axis(keys, KeyCode::KeyQ, KeyCode::KeyE),
    };
    let moving: bool = manual.x != 0 || manual.y != 0 || manual.z != 0;
    if moving {
        out.push(Command::SetAttitude(manual));
        *active = true;
    } else if *active {
        out.push(Command::SetAttitude(Attitude { x: 0, y: 0, z: 0 }));
        *active = false;
    }
    assert(out@ =~= scenario_taps(*keys) + scenario_turn(*keys, was));
    out
}

/// After the keys are released, exactly one zero is sent: the frame of the
/// release sends it, and the quiet frames after it send nothing.
pub proof fn lemma_one_zero_on_release(keys: Keyboard)
    requires
        scenario_attitude(keys) == (0int, 0int, 0int),
    ensures
        scenario_turn(keys, true) == seq![attitude_command((0, 0, 0))],
        scenario_turn(keys, false).len() == 0,
{
}

/// How long the schedule holds on the pad.
pub const HOLD_TIME: u64 = 2_000_000;

/// How long the schedule takes to open the throttle.
pub const RAMP_TIME: u64 = 1_500_000;

/// The scheduled throttle: closed while holding, then opened at an even rate.
pub open spec fn scheduled(elapsed: int) -> int {
    if elapsed <= HOLD_TIME {
        0
    } else if elapsed >= HOLD_TIME + RAMP_TIME {
        FULL_THROTTLE as int
    } else {
        (elapsed - HOLD_TIME) * FULL_THROTTLE / RAMP_TIME as int
    }
}

/// The scheduled throttle.
pub fn target_throttle(elapsed: u64) -> (t: u32)
    ensures
        t == scheduled(elapsed as int),
        t <= FULL_THROTTLE,
{
    if elapsed <= HOLD_TIME {
        0
    } else if elapsed >= HOLD_TIME + RAMP_TIME {
        FULL_THROTTLE
    } else {
        let since: u64 = elapsed - HOLD_TIME;
        (since * 1_000_000 / RAMP_TIME) as u32
    }
}

/// The schedule never closes the throttle again.
pub proof fn lemma_schedule_only_opens(a: int, b: int)
    requires
        a <= b,
    ensures
        scheduled(a) <= scheduled(b),
{
}

/// The commands of a scheduled sub-step: the throttle, and a hold as soon as the
/// engine burns.
pub open spec fn scheduled_commands(elapsed: int, mode: SasMode) -> Seq<Command> {
    let t = scheduled(elapsed) as u32;
    if t > 0 && mode == SasMode::Off {
        seq![Command::SetThrottle(t), Command::SetSas(SasMode::Hold)]
    } else {
        seq![Command::SetThrottle(t)]
    }
}

/// The commands of a scheduled sub-step.
pub fn autopilot_commands(elapsed: u64, mode: SasMode) -> (out: Vec<Command>)
    ensures
        out@ == scheduled_commands(elapsed as int, mode),
{
    let t: u32 = target_throttle(elapsed);
    let mut out: Vec<Command> = Vec::new();
    out.push(Command::SetThrottle(t));
    if t > 0 && mode == SasMode::Off {
        out.push(Command::SetSas(SasMode::Hold));
    }
    assert(out@ =~= scheduled_commands(elapsed as int, mode));
    out
}

/// What a craft is in.
#[derive(Clone, Copy, Debug, PartialEq, Eq, Structural)]
pub enum MediumKind {
    Vacuum,
    Atmosphere,
    Liquid,
}

/// How well a craft can be controlled.
#[derive(Clone, Copy, Debug, PartialEq, Eq, Structural)]
pub enum ControlTier {
    Uncontrolled,
    Direct,
    Stabilized,
}

/// A phase's name.
pub open spec fn phase_name(phase: Phase, outcome: Outcome) -> Seq<char> {
    match phase {
        Phase::Build => "BUILD"@,
        Phase::Launch => "LAUNCH"@,
        Phase::Flight => "FLIGHT"@,
        Phase::Recovery => match outcome {
            Outcome::Landed => "RECOVERY (landed)"@,
            Outcome::Crashed => "RECOVERY (crashed)"@,
            Outcome::Open => "RECOVERY"@,
        },
    }
}

/// A phase's name.
pub fn phase_label(phase: Phase, outcome: Outcome) -> (s: &'static str)
    ensures
        s@ == phase_name(phase, outcome),
{
    match phase {
        Phase::Build => "BUILD",
        Phase::Launch => "LAUNCH",
        Phase::Flight => "FLIGHT",
        Phase::Recovery => match outcome {
            Outcome::Landed => "RECOVERY (landed)",
            Outcome::Crashed => "RECOVERY (crashed)",
            Outcome::Open => "RECOVERY",
        },
    }
}

/// A medium's name.
pub open spec fn medium_name(medium: MediumKind) -> Seq<char> {
    match medium {
        MediumKind::Vacuum => "vacuum"@,
        MediumKind::Atmosphere => "atmosphere"@,
        MediumKind::Liquid => "ocean"@,
    }
}

/// A medium's name.
pub fn medium_label(medium: MediumKind) -> (s: &'static str)
    ensures
        s@ == medium_name(medium),
{
    match medium {
        MediumKind::Vacuum => "vacuum",
        MediumKind::Atmosphere => "atmosphere",
        MediumKind::Liquid => "ocean",
    }
}

/// A hold's name; only a craft that can be stabilized has one.
pub open spec fn sas_name(mode: SasMode, stabilizes: bool) -> Seq<char> {
    if !stabilizes {
        "unavail"@
    } else {
        match mode {
            SasMode::Off => "off"@,
            SasMode::KillRotation => "kill-rot"@,
            SasMode::Hold => "hold"@,
            SasMode::Point => "point"@,
        }
    }
}

/// A hold's name.
pub fn sas_label(mode: SasMode, stabilizes: bool) -> (s: &'static str)
    ensures
        s@ == sas_name(mode, stabilizes),
{
    if !stabilizes {
        "unavail"
    } else {
        match mode {
            SasMode::Off => "off",
            SasMode::KillRotation => "kill-rot",
            SasMode::Hold => "hold",
            SasMode::Point => "point",
        }
    }
}

/// A control tier's name.
pub open spec fn tier_name(tier: ControlTier) -> Seq<char> {
    match tier {
        ControlTier::Uncontrolled => "UNCONTROLLED"@,
        ControlTier::Direct => "direct"@,
        ControlTier::Stabilized => "stabilized"@,
    }
}

/// A control tier's name.
pub fn tier_label(tier: ControlTier) -> (s: &'static str)
    ensures
        s@ == tier_name(tier),
{
    match tier {
        ControlTier::Uncontrolled => "UNCONTROLLED",
        ControlTier::Direct => "direct",
        ControlTier::Stabilized => "stabilized",
    }
}

/// How many of ten cells a gauge fills: the ratio's tenths, rounded (a half up),
/// and ten at most.
pub open spec fn filled(num: int, den: int) -> int {
    let tenths = (20 * num + den) / (2 * den);
    if tenths < 10 {
        tenths
    } else {
        10
    }
}

/// A gauge of ten cells.
pub open spec fn gauge_of(num: int, den: int) -> Seq<char> {
    let k = filled(num, den);
    seq!['['] + Seq::new(10, |i: int|
        if i < k {
            '#'
        } else {
            '-'
        }) + seq![']']
}

/// A gauge of ten cells for the ratio of two numbers.
pub fn gauge(num: u64, den: u64) -> (s: String)
    requires
        den > 0,
    ensures
        s@ == gauge_of(num as int, den as int),
{
    let tenths: u128 = (20 * num as u128 + den as u128) / (2 * den as u128);
    let k: u128 = if tenths < 10 {
        tenths
    } else {
        10
    };
    let mut s: String = "[".to_owned();
    proof {
        reveal_strlit("[");
    }
    let ghost cells = Seq::new(10, |i: int|
        if i < k {
            '#'
        } else {
            '-'
        });
    let mut i: u128 = 0;
    assert(s@ =~= seq!['['] + cells.take(0));
    while i < 10
        invariant
            i <= 10,
            cells == Seq::new(10, |i: int|
                if i < k {
                    '#'
                } else {
                    '-'
                }),
            s@ == seq!['['] + cells.take(i as int),
        decreases 10 - i,
    {
        push_char(
            &mut s,
            if i < k {
                '#'
            } else {
                '-'
            },
        );
        i += 1;
        assert(s@ =~= seq!['['] + cells.take(i as int));
    }
    assert(cells.take(10) =~= cells);
    push_char(&mut s, ']');
    assert(s@ =~= gauge_of(num as int, den as int));
    s
}

/// A full ratio fills the gauge, and a zero leaves it empty.
pub proof fn lemma_gauge_ends(den: int)
    requires
        den > 0,
    ensures
        filled(0, den) == 0,
        filled(den, den) == 10,
{
    assert(den / (2 * den) == 0) by (nonlinear_arith)
        requires
            den > 0,
    ;
    assert((21 * den) / (2 * den) == 10) by (nonlinear_arith)
        requires
            den > 0,
    ;
}

/// A distance: whole kilometres from ten kilometres on, else whole metres.
pub open spec fn distance_of(um: int) -> Seq<char> {
    if size_of(um) >= 10_000_000_000 {
        sign_of(um, false) + decimal(nearest(size_of(um), 1_000_000_000)) + " km"@
    } else {
        sign_of(um, false) + decimal(nearest(size_of(um), 1_000_000)) + " m"@
    }
}

/// A distance: whole kilometres from ten kilometres on, else whole metres.
pub fn fmt_alt(um: i64) -> (s: String)
    ensures
        s@ == distance_of(um as int),
{
    let mut s: String = "".to_owned();
    proof {
        reveal_strlit("");
    }
    if um < 0 {
        push_char(&mut s, '-');
    }
    assert(s@ =~= sign_of(um as int, false));
    let size: u64 = if um < 0 {
        (-(um as i128)) as u64
    } else {
        um as u64
    };
    if size >= 10_000_000_000 {
        push_decimal(&mut s, nearest_of(size, 1_000_000_000));
        s.append(" km");
    } else {
        push_decimal(&mut s, nearest_of(size, 1_000_000));
        s.append(" m");
    }
    s
}

/// The orbit's line: an orbit that stays clear of the surface, one that does not,
/// or none. The apsides are heights.
pub open spec fn orbit_text(apsides: Option<(i64, i64)>) -> Seq<char> {
    match apsides {
        Some((apo, peri)) => if peri >= 0 {
            "orbit:    ORBIT  apo "@ + distance_of(apo as int) + " / peri "@ + distance_of(
                peri as int,
            )
        } else {
            "orbit:    suborbital  apoapsis "@ + distance_of(apo as int)
        },
        None => "orbit:    escape"@,
    }
}

/// The orbit's line.
pub fn orbit_line(apsides: Option<(i64, i64)>) -> (s: String)
    ensures
        s@ == orbit_text(apsides),
{
    match apsides {
        Some((apo, peri)) => if peri >= 0 {
            let mut s: String = "orbit:    ORBIT  apo ".to_owned();
            s.append(fmt_alt(apo).as_str());
            s.append(" / peri ");
            s.append(fmt_alt(peri).as_str());
            s
        } else {
            let mut s: String = "orbit:    suborbital  apoapsis ".to_owned();
            s.append(fmt_alt(apo).as_str());
            s
        },
        None => "orbit:    escape".to_owned(),
    }
}

/// What a flight readout shows. A fuel capacity of zero stands for no tank.
#[derive(Clone, Copy, Debug, PartialEq, Eq, Structural)]
pub struct FlightReadout {
    pub phase: Phase,
    pub outcome: Outcome,
    pub throttle: u32,
    /// Fuel and capacity, in milligrams.
    pub fuel: u64,
    pub fuel_capacity: u64,
    pub delta_v: i64,
    /// Millionths of a g.
    pub g_force: i64,
    pub altitude: i64,
    pub vertical_speed: i64,
    pub speed: i64,
    /// Joules per kilogram.
    pub energy: i64,
    /// Millionths of a degree.
    pub tilt: i64,
    pub medium: MediumKind,
    pub sas: SasMode,
    pub recapture: bool,
    pub tier: ControlTier,
    /// Whether the tier allows an attitude hold.
    pub stabilizes: bool,
}

/// Whether the engine is asked for thrust with no more than a kilogram left.
pub open spec fn flamed_out(r: FlightReadout) -> bool {
    r.throttle > 0 && r.fuel <= 1_000_000
}

/// The fuel gauge's ratio: no tank counts as empty.
pub open spec fn fuel_gauge(r: FlightReadout) -> Seq<char> {
    if r.fuel_capacity > 0 {
        gauge_of(r.fuel as int, r.fuel_capacity as int)
    } else {
        gauge_of(0, 1)
    }
}

/// The lines that both flight readouts share: the phase, the throttle, the fuel.
pub open spec fn flight_head(r: FlightReadout) -> Seq<char> {
    "phase:    "@ + phase_name(r.phase, r.outcome) + "\nthrottle: "@ + gauge_of(
        r.throttle as int,
        FULL_THROTTLE as int,
    ) + " "@ + shown(r.throttle * 100, (Field { width: 3, digits: 0, plus: false })) + "%"@ + (
    if flamed_out(r) {
        "  FLAMEOUT"@
    } else {
        ""@
    }) + "\nfuel:     "@ + fuel_gauge(r) + " "@ + shown(
        r.fuel as int,
        (Field { width: 6, digits: 0, plus: false }),
    ) + " kg"@
}

/// The lines that both flight readouts share.
fn flight_top(r: &FlightReadout) -> (s: String)
    requires
        r.fuel <= i64::MAX,
    ensures
        s@ == flight_head(*r),
{
    let mut s: String = "phase:    ".to_owned();
    s.append(phase_label(r.phase, r.outcome));
    s.append("\nthrottle: ");
    s.append(gauge(r.throttle as u64, FULL_THROTTLE as u64).as_str());
    s.append(" ");
    show(&mut s, r.throttle as i64 * 100, field(3, 0));
    s.append("%");
    s.append(
        if r.throttle > 0 && r.fuel <= 1_000_000 {
            "  FLAMEOUT"
        } else {
            ""
        },
    );
    s.append("\nfuel:     ");
    if r.fuel_capacity > 0 {
        s.append(gauge(r.fuel, r.fuel_capacity).as_str());
    } else {
        s.append(gauge(0, 1).as_str());
    }
    s.append(" ");
    show(&mut s, r.fuel as i64, field(6, 0));
    s.append(" kg");
    s
}

/// The scheduled flight's readout.
pub open spec fn autopilot_text(r: FlightReadout) -> Seq<char> {
    flight_head(r) + "\nG-force:  "@ + shown(
            r.g_force as int,
            (Field { width: 5, digits: 1, plus: false }),
        ) + " g\naltitude: "@ + shown(
            r.altitude as int,
            (Field { width: 8, digits: 0, plus: false }),
        ) + " m\nspeed:    "@ + shown(
            r.speed as int,
            (Field { width: 7, digits: 1, plus: false }),
        ) + " m/s\ntilt:     "@ + shown(
            r.tilt as int,
            (Field { width: 5, digits: 0, plus: false }),
        ) + "°"@
}

/// The scheduled flight's readout.
pub fn autopilot_hud(r: &FlightReadout) -> (s: String)
    requires
        r.fuel <= i64::MAX,
    ensures
        s@ == flight_head(*r) + "\nG-force:  "@ + shown(
            r.g_force as int,
            (Field { width: 5, digits: 1, plus: false }),
        ) + " g\naltitude: "@ + shown(
            r.altitude as int,
            (Field { width: 8, digits: 0, plus: false }),
        ) + " m\nspeed:    "@ + shown(
            r.speed as int,
            (Field { width: 7, digits: 1, plus: false }),
        ) + " m/s\ntilt:     "@ + shown(
            r.tilt as int,
            (Field { width: 5, digits: 0, plus: false }),
        ) + "°"@,
        s@ == autopilot_text(*r),
{
    let mut s: String = flight_top(r);
    s.append("\nG-force:  ");
    show(&mut s, r.g_force, field(5, 1));
    s.append(" g\naltitude: ");
    show(&mut s, r.altitude, field(8, 0));
    s.append(" m\nspeed:    ");
    show(&mut s, r.speed, field(7, 1));
    s.append(" m/s\ntilt:     ");
    show(&mut s, r.tilt, field(5, 0));
    s.append("°");
    s
}

/// The player's readout.
pub open spec fn play_text(r: FlightReadout, apsides: Option<(i64, i64)>) -> Seq<char> {
    flight_head(r) + "\n\u{0394}v:       "@ + shown(
            r.delta_v as int,
            (Field { width: 6, digits: 0, plus: false }),
        ) + " m/s\nG-force:  "@ + shown(
            r.g_force as int,
            (Field { width: 5, digits: 1, plus: false }),
        ) + " g\naltitude: "@ + distance_of(r.altitude as int) + "\nv-speed:  "@ + shown(
            r.vertical_speed as int,
            (Field { width: 7, digits: 0, plus: true }),
        ) + " m/s\nspeed:    "@ + shown(
            r.speed as int,
            (Field { width: 7, digits: 1, plus: false }),
        ) + " m/s\n"@ + orbit_text(apsides) + "\nenergy:   "@ + shown(
            r.energy as int,
            (Field { width: 8, digits: 2, plus: false }),
        ) + " MJ/kg\nmedium:   "@ + medium_name(r.medium) + "   tilt "@ + shown(
            r.tilt as int,
            (Field { width: 0, digits: 0, plus: false }),
        ) + "\u{00b0}   SAS "@ + sas_name(r.sas, r.stabilizes) + " ("@ + (
        if r.recapture {
            "recap"@
        } else {
            "return"@
        }) + ")\ncontrol:  "@ + tier_name(r.tier)
}

/// The player's readout.
pub fn play_hud(r: &FlightReadout, apsides: Option<(i64, i64)>) -> (s: String)
    requires
        r.fuel <= i64::MAX,
    ensures
        s@ == flight_head(*r) + "\n\u{0394}v:       "@ + shown(
            r.delta_v as int,
            (Field { width: 6, digits: 0, plus: false }),
        ) + " m/s\nG-force:  "@ + shown(
            r.g_force as int,
            (Field { width: 5, digits: 1, plus: false }),
        ) + " g\naltitude: "@ + distance_of(r.altitude as int) + "\nv-speed:  "@ + shown(
            r.vertical_speed as int,
            (Field { width: 7, digits: 0, plus: true }),
        ) + " m/s\nspeed:    "@ + shown(
            r.speed as int,
            (Field { width: 7, digits: 1, plus: false }),
        ) + " m/s\n"@ + orbit_text(apsides) + "\nenergy:   "@ + shown(
            r.energy as int,
            (Field { width: 8, digits: 2, plus: false }),
        ) + " MJ/kg\nmedium:   "@ + medium_name(r.medium) + "   tilt "@ + shown(
            r.tilt as int,
            (Field { width: 0, digits: 0, plus: false }),
        ) + "\u{00b0}   SAS "@ + sas_name(r.sas, r.stabilizes) + " ("@ + (
        if r.recapture {
            "recap"@
        } else {
            "return"@
        }) + ")\ncontrol:  "@ + tier_name(r.tier),
        s@ == play_text(*r, apsides),
{
    let mut s: String = flight_top(r);
    s.append("\n\u{0394}v:       ");
    show(&mut s, r.delta_v, field(6, 0));
    s.append(" m/s\nG-force:  ");
    show(&mut s, r.g_force, field(5, 1));
    s.append(" g\naltitude: ");
    s.append(fmt_alt(r.altitude).as_str());
    s.append("\nv-speed:  ");
    show(&mut s, r.vertical_speed, Field { width: 7, digits: 0, plus: true });
    s.append(" m/s\nspeed:    ");
    show(&mut s, r.speed, field(7, 1));
    s.append(" m/s\n");
    s.append(orbit_line(apsides).as_str());
    s.append("\nenergy:   ");
    show(&mut s, r.energy, field(8, 2));
    s.append(" MJ/kg\nmedium:   ");
    s.append(medium_label(r.medium));
    s.append("   tilt ");
    show(&mut s, r.tilt, field(0, 0));
    s.append("\u{00b0}   SAS ");
    s.append(sas_label(r.sas, r.stabilizes));
    s.append(" (");
    s.append(
        if r.recapture {
            "recap"
        } else {
            "return"
        },
    );
    s.append(")\ncontrol:  ");
    s.append(tier_label(r.tier));
    s
}

/// The launch's readout.
pub open spec fn launch_text(throttle: u32, altitude: i64, speed: i64, released: bool) -> Seq<char> {
    "throttle: "@ + shown(
            throttle * 100,
            (Field { width: 3, digits: 0, plus: false }),
        ) + "%\naltitude: "@ + shown(
            altitude as int,
            (Field { width: 8, digits: 0, plus: false }),
        ) + " m\nspeed:    "@ + shown(
            speed as int,
            (Field { width: 7, digits: 1, plus: false }),
        ) + " m/s\nstate:    "@ + (if released {
            "ASCENT"@
        } else {
            "on pad"@
        })
}

/// The launch's readout.
pub fn launch_hud(throttle: u32, altitude: i64, speed: i64, released: bool) -> (s: String)
    ensures
        s@ == "throttle: "@ + shown(
            throttle * 100,
            (Field { width: 3, digits: 0, plus: false }),
        ) + "%\naltitude: "@ + shown(
            altitude as int,
            (Field { width: 8, digits: 0, plus: false }),
        ) + " m\nspeed:    "@ + shown(
            speed as int,
            (Field { width: 7, digits: 1, plus: false }),
        ) + " m/s\nstate:    "@ + (if released {
            "ASCENT"@
        } else {
            "on pad"@
        }),
        s@ == launch_text(throttle, altitude, speed, released),
{
    let mut s: String = "throttle: ".to_owned();
    show(&mut s, throttle as i64 * 100, field(3, 0));
    s.append("%\naltitude: ");
    show(&mut s, altitude, field(8, 0));
    s.append(" m\nspeed:    ");
    show(&mut s, speed, field(7, 1));
    s.append(" m/s\nstate:    ");
    s.append(
        if released {
            "ASCENT"
        } else {
            "on pad"
        },
    );
    s
}

/// A setting of a scenario: its name, its factor as it is printed, and why.
#[derive(Debug, PartialEq, Eq)]
pub struct Setting {
    pub name: String,
    pub factor: String,
    pub rationale: Option<String>,
}

/// A mission: its name, its state as it is printed, and its progress in
/// millionths.
#[derive(Debug, PartialEq, Eq)]
pub struct Mission {
    pub name: String,
    pub state: String,
    pub progress: u32,
}

/// A setting's line.
pub open spec fn setting_line(s: Setting) -> Seq<char> {
    "\n  "@ + s.name@ + " ×"@ + s.factor@ + (match s.rationale {
        Some(r) => " — "@ + r@,
        None => Seq::empty(),
    })
}

/// The settings' lines.
pub open spec fn setting_lines(s: Seq<Setting>) -> Seq<char>
    decreases s.len(),
{
    if s.len() == 0 {
        Seq::empty()
    } else {
        setting_lines(s.drop_last()) + setting_line(s.last())
    }
}

/// A mission's line.
pub open spec fn mission_line(m: Mission) -> Seq<char> {
    "\n  "@ + m.name@ + " — "@ + m.state@ + " ("@ + shown(
        m.progress * 100,
        (Field { width: 0, digits: 0, plus: false }),
    ) + "%)"@
}

/// The missions' lines.
pub open spec fn mission_lines(m: Seq<Mission>) -> Seq<char>
    decreases m.len(),
{
    if m.len() == 0 {
        Seq::empty()
    } else {
        mission_lines(m.drop_last()) + mission_line(m.last())
    }
}

/// Appends the settings' lines.
fn push_settings(text: &mut String, settings: &Vec<Setting>)
    ensures
        final(text)@ == old(text)@ + setting_lines(settings@),
{
    let ghost before = text@;
    let mut i: usize = 0;
    assert(settings@.take(0) =~= Seq::<Setting>::empty());
    assert(text@ =~= before + setting_lines(settings@.take(0)));
    while i < settings.len()
        invariant
            i <= settings@.len(),
            text@ == before + setting_lines(settings@.take(i as int)),
        decreases settings.len() - i,
    {
        let ghost head = text@;
        assert(settings@.take(i + 1).drop_last() =~= settings@.take(i as int));
        let item: &Setting = &settings[i];
        text.append("\n  ");
        text.append(item.name.as_str());
        text.append(" ×");
        text.append(item.factor.as_str());
        if let Some(r) = &item.rationale {
            text.append(" — ");
            text.append(r.as_str());
        }
        assert(text@ =~= head + setting_line(*item));
        i += 1;
        assert(text@ =~= before + setting_lines(settings@.take(i as int)));
    }
    assert(settings@.take(i as int) =~= settings@);
}

/// Appends the missions' lines.
fn push_missions(text: &mut String, missions: &Vec<Mission>)
    ensures
        final(text)@ == old(text)@ + mission_lines(missions@),
{
    let ghost before = text@;
    let mut i: usize = 0;
    assert(missions@.take(0) =~= Seq::<Mission>::empty());
    assert(text@ =~= before + mission_lines(missions@.take(0)));
    while i < missions.len()
        invariant
            i <= missions@.len(),
            text@ == before + mission_lines(missions@.take(i as int)),
        decreases missions.len() - i,
    {
        let ghost head = text@;
        assert(missions@.take(i + 1).drop_last() =~= missions@.take(i as int));
        let item: &Mission = &missions[i];
        text.append("\n  ");
        text.append(item.name.as_str());
        text.append(" — ");
        text.append(item.state.as_str());
        text.append(" (");
        show(text, item.progress as i64 * 100, field(0, 0));
        text.append("%)");
        assert(text@ =~= head + mission_line(*item));
        i += 1;
        assert(text@ =~= before + mission_lines(missions@.take(i as int)));
    }
    assert(missions@.take(i as int) =~= missions@);
}

/// The first lines of the scenario's readout.
pub open spec fn scenario_head(
    name: Seq<char>,
    released: bool,
    paused: bool,
    altitude: int,
    speed: int,
    throttle: int,
    propellant: int,
) -> Seq<char> {
    "scenario: "@ + name + " — "@ + (if released {
        "FLYING"@
    } else {
        "on the pad"@
    }) + (if paused {
        "\n⏸ PAUSED (P · . step)"@
    } else {
        ""@
    }) + "\naltitude: "@ + shown(altitude, (Field { width: 8, digits: 1, plus: false }))
        + " m\nspeed:    "@ + shown(speed, (Field { width: 8, digits: 1, plus: false }))
        + " m/s\nthrottle: "@ + shown(throttle, (Field { width: 4, digits: 2, plus: false }))
        + "   propellant: "@ + shown(propellant, (Field { width: 6, digits: 1, plus: false }))
        + " kg\nsettings:"@
}

/// The scenario's readout.
pub fn scenario_hud(
    name: &str,
    released: bool,
    clock: &SimClock,
    altitude: i64,
    speed: i64,
    throttle: i64,
    propellant: i64,
    settings: &Vec<Setting>,
    missions: &Vec<Mission>,
    lore: Option<&str>,
) -> (s: String)
    ensures
        s@ == scenario_head(
            name@,
            released,
            clock.paused,
            altitude as int,
            speed as int,
            throttle as int,
            propellant as int,
        ) + setting_lines(settings@) + (if missions@.len() == 0 {
            Seq::empty()
        } else {
            "\nmissions:"@ + mission_lines(missions@)
        }) + (match lore {
            Some(beat) => "\n» "@ + beat@,
            None => Seq::empty(),
        }),
{
    let mut s: String = "scenario: ".to_owned();
    s.append(name);
    s.append(" — ");
    s.append(
        if released {
            "FLYING"
        } else {
            "on the pad"
        },
    );
    s.append(paused_banner(clock));
    s.append("\naltitude: ");
    show(&mut s, altitude, field(8, 1));
    s.append(" m\nspeed:    ");
    show(&mut s, speed, field(8, 1));
    s.append(" m/s\nthrottle: ");
    show(&mut s, throttle, field(4, 2));
    s.append("   propellant: ");
    show(&mut s, propellant, field(6, 1));
    s.append(" kg\nsettings:");
    push_settings(&mut s, settings);
    let ghost middle = s@;
    if missions.len() > 0 {
        s.append("\nmissions:");
        push_missions(&mut s, missions);
        assert(s@ =~= middle + ("\nmissions:"@ + mission_lines(missions@)));
    } else {
        assert(s@ =~= middle + Seq::<char>::empty());
    }
    let ghost end = s@;
    if let Some(beat) = lore {
        s.append("\n» ");
        s.append(beat);
        assert(s@ =~= end + ("\n» "@ + beat@));
    } else {
        assert(s@ =~= end + Seq::<char>::empty());
    }
    s
}

/// A scheduled sub-step first sets the throttle of its time: none during the hold of
/// two seconds, all from the end of the ramp of one and a half on, and between them the
/// share of the ramp that has passed, rounded down. It then engages a hold, and does
/// nothing else, exactly when that throttle is open and the hold is off.
pub proof fn lemma_the_schedule_lights_the_engine(elapsed: int, mode: SasMode)
    ensures
        ({
            let out = scheduled_commands(elapsed, mode);
            &&& out.len() >= 1
            &&& out[0] matches Command::SetThrottle(t) && {
                &&& elapsed <= 2_000_000 ==> t == 0
                &&& elapsed >= 3_500_000 ==> t == 1_000_000
                &&& 2_000_000 <= elapsed <= 3_500_000 ==> t * 1_500_000 <= (elapsed - 2_000_000)
                    * 1_000_000 < (t + 1) * 1_500_000
                &&& out.len() == 2 <==> (t > 0 && mode == SasMode::Off)
                &&& out.len() <= 2
            }
            &&& out.len() == 2 ==> out[1] == Command::SetSas(SasMode::Hold)
        }),
{
}

/// The hand throttle. `X` closes it and `Z` opens it, whatever else is held. Shift
/// alone opens it by the frame's time and control alone closes it by as much, each
/// until it is at its end; with neither it stays.
pub proof fn lemma_hand_throttle(throttle: u32, keys: Keyboard, dt: u32)
    requires
        throttle <= 1_000_000,
    ensures
        ({
            let next = next_throttle(throttle, keys, dt);
            let up = keys.held(KeyCode::ShiftLeft) || keys.held(KeyCode::ShiftRight);
            let down = keys.held(KeyCode::ControlLeft) || keys.held(KeyCode::ControlRight);
            let jump = keys.tapped(KeyCode::KeyX) || keys.tapped(KeyCode::KeyZ);
            &&& keys.tapped(KeyCode::KeyX) ==> next == 0
            &&& keys.tapped(KeyCode::KeyZ) && !keys.tapped(KeyCode::KeyX) ==> next == 1_000_000
            &&& !jump && !up && !down ==> next == throttle
            &&& !jump && up && !down ==> next - throttle == dt || (next == 1_000_000 && next
                - throttle < dt)
            &&& !jump && !up && down ==> throttle - next == dt || (next == 0 && throttle - next
                < dt)
        }),
{
}

/// What two keys push is a push forward for one alone, back for the other alone, and
/// none for both or neither; swapped keys push the other way.
pub proof fn lemma_keys_push_against_each_other(keys: Keyboard, forward: KeyCode, back: KeyCode)
    ensures
        push_of(keys, forward, back) == 1 <==> keys.held(forward) && !keys.held(back),
        push_of(keys, forward, back) == -1 <==> keys.held(back) && !keys.held(forward),
        -1 <= push_of(keys, forward, back) <= 1,
        push_of(keys, back, forward) == -push_of(keys, forward, back),
{
}

/// The player's attitude: `W` and `S` push about the first axis, `Q` and `E` about the
/// second and `A` and `D` about the third, the former of each two forward and the latter
/// back; the two together, or neither, push nothing there.
pub proof fn lemma_player_attitude(keys: Keyboard)
    ensures
        ({
            let a = player_attitude(keys);
            &&& a.0 == 1 <==> keys.held(KeyCode::KeyW) && !keys.held(KeyCode::KeyS)
            &&& a.0 == -1 <==> keys.held(KeyCode::KeyS) && !keys.held(KeyCode::KeyW)
            &&& a.1 == 1 <==> keys.held(KeyCode::KeyQ) && !keys.held(KeyCode::KeyE)
            &&& a.1 == -1 <==> keys.held(KeyCode::KeyE) && !keys.held(KeyCode::KeyQ)
            &&& a.2 == 1 <==> keys.held(KeyCode::KeyA) && !keys.held(KeyCode::KeyD)
            &&& a.2 == -1 <==> keys.held(KeyCode::KeyD) && !keys.held(KeyCode::KeyA)
            &&& -1 <= a.0 <= 1 && -1 <= a.1 <= 1 && -1 <= a.2 <= 1
            &&& attitude_command(a) matches Command::SetAttitude(c) && c.x == a.0 && c.y == a.1
                && c.z == a.2
        }),
{
}

/// The scenario's attitude: `S` and `W` push about the first axis, `A` and `D` about the
/// second and `Q` and `E` about the third, the former of each two forward and the latter
/// back.
pub proof fn lemma_scenario_attitude(keys: Keyboard)
    ensures
        ({
            let a = scenario_attitude(keys);
            &&& a.0 == 1 <==> keys.held(KeyCode::KeyS) && !keys.held(KeyCode::KeyW)
            &&& a.0 == -1 <==> keys.held(KeyCode::KeyW) && !keys.held(KeyCode::KeyS)
            &&& a.1 == 1 <==> keys.held(KeyCode::KeyA) && !keys.held(KeyCode::KeyD)
            &&& a.1 == -1 <==> keys.held(KeyCode::KeyD) && !keys.held(KeyCode::KeyA)
            &&& a.2 == 1 <==> keys.held(KeyCode::KeyQ) && !keys.held(KeyCode::KeyE)
            &&& a.2 == -1 <==> keys.held(KeyCode::KeyE) && !keys.held(KeyCode::KeyQ)
            &&& -1 <= a.0 <= 1 && -1 <= a.1 <= 1 && -1 <= a.2 <= 1
        }),
{
}

/// The scenario turns while one of its keys pushes: such a frame sends that push and no
/// other, whether or not the craft was being turned.
pub proof fn lemma_scenario_turns_while_pushed(keys: Keyboard, active: bool)
    requires
        scenario_attitude(keys) != (0int, 0int, 0int),
    ensures
        ({
            let out = scenario_turn(keys, active);
            let a = scenario_attitude(keys);
            &&& out.len() == 1
            &&& out[0] matches Command::SetAttitude(c) && c.x == a.0 && c.y == a.1 && c.z == a.2
        }),
{
}

/// A single-shot key of the scenario, alone: `Z` opens the throttle, `X` closes it, `T`
/// holds the attitude and `F` lets it go; any other sends nothing.
pub proof fn lemma_scenario_keys(keys: Keyboard, k: KeyCode)
    requires
        keys.lone_tap(k),
    ensures
        ({
            let out = scenario_taps(keys);
            &&& out.len() <= 1
            &&& out.len() == 1 <==> k == KeyCode::KeyZ || k == KeyCode::KeyX || k == KeyCode::KeyT
                || k == KeyCode::KeyF
            &&& k == KeyCode::KeyZ ==> out[0] == Command::SetThrottle(1_000_000)
            &&& k == KeyCode::KeyX ==> out[0] == Command::SetThrottle(0)
            &&& k == KeyCode::KeyT ==> out[0] == Command::SetSas(SasMode::Hold)
            &&& k == KeyCode::KeyF ==> out[0] == Command::SetSas(SasMode::Off)
        }),
{
}

/// A key of the attitude hold, alone: `T` holds, or lets go if it holds already; `R`
/// kills the rotation; `F` lets go; `G` inverts the recapture. Any other sends nothing.
pub proof fn lemma_hold_keys(keys: Keyboard, k: KeyCode, mode: SasMode, recapture: bool)
    requires
        keys.lone_tap(k),
    ensures
        ({
            let out = sas_commands(keys, mode);
            &&& out.len() <= 1
            &&& out.len() == 1 <==> k == KeyCode::KeyT || k == KeyCode::KeyR || k == KeyCode::KeyF
            &&& k == KeyCode::KeyT && mode == SasMode::Hold ==> out[0] == Command::SetSas(
                SasMode::Off,
            )
            &&& k == KeyCode::KeyT && mode != SasMode::Hold ==> out[0] == Command::SetSas(
                SasMode::Hold,
            )
            &&& k == KeyCode::KeyR ==> out[0] == Command::SetSas(SasMode::KillRotation)
            &&& k == KeyCode::KeyF ==> out[0] == Command::SetSas(SasMode::Off)
            &&& recapture_command(keys, recapture) is Some <==> k == KeyCode::KeyG
            &&& recapture_command(keys, recapture) matches Some(c) ==> (
            c matches Command::SetSasRecapture(r) && r != recapture)
        }),
{
}

/// The warp's keys, alone: the period doubles it up to sixteen times, the comma halves
/// it down to real time, and any other key leaves it.
pub proof fn lemma_warp_keys(warp: u32, keys: Keyboard, k: KeyCode)
    requires
        (Controls { throttle: 0, warp }).wf(),
        keys.lone_tap(k),
    ensures
        ({
            let next = next_warp(warp, keys);
            &&& k == KeyCode::Period && warp < 16 ==> next == 2 * warp
            &&& k == KeyCode::Period && warp == 16 ==> next == 16
            &&& k == KeyCode::Comma && warp > 1 ==> 2 * next == warp
            &&& k == KeyCode::Comma && warp == 1 ==> next == 1
            &&& k != KeyCode::Period && k != KeyCode::Comma ==> next == warp
        }),
{
}

/// A gauge is ten cells in brackets: filled cells first, then empty ones. It fills the
/// number of tenths nearest to its ratio, and all ten from a full ratio on.
pub proof fn lemma_gauge_fills_its_tenths(num: int, den: int)
    requires
        num >= 0,
        den > 0,
    ensures
        ({
            let g = gauge_of(num, den);
            let k = filled(num, den);
            &&& g.len() == 12 && g[0] == '[' && g[11] == ']'
            &&& 0 <= k <= 10
            &&& forall|i: int| 1 <= i <= k ==> #[trigger] g[i] == '#'
            &&& forall|i: int| k < i <= 10 ==> #[trigger] g[i] == '-'
            &&& num <= den ==> -den <= 2 * (k * den - 10 * num) <= den
            &&& num >= den ==> k == 10
        }),
{
    let k = filled(num, den);
    let q = (20 * num + den) / (2 * den);
    vstd::arithmetic::div_mod::lemma_fundamental_div_mod(20 * num + den, 2 * den);
    let rest = (20 * num + den) % (2 * den);
    assert((2 * den) * q == 2 * (q * den)) by (nonlinear_arith);
    assert(2 * (q * den) + rest == 20 * num + den);
    assert(q >= 0) by (nonlinear_arith)
        requires
            2 * (q * den) + rest == 20 * num + den,
            rest < 2 * den,
            num >= 0,
            den > 0,
    ;
    if num >= den {
        assert(q >= 10) by (nonlinear_arith)
            requires
                2 * (q * den) + rest == 20 * num + den,
                rest < 2 * den,
                num >= den,
                den > 0,
        ;
    }
    if num <= den {
        assert(q <= 10) by (nonlinear_arith)
            requires
                2 * (q * den) + rest == 20 * num + den,
                rest >= 0,
                num <= den,
                den > 0,
        ;
        assert(k == q);
    }
}

/// Only a craft that is asked for thrust with at most a kilogram of fuel has flamed out.
pub proof fn lemma_flameout_needs_an_open_throttle(r: FlightReadout)
    ensures
        r.throttle == 0 ==> !flamed_out(r),
        r.fuel > 1_000_000 ==> !flamed_out(r),
        r.throttle > 0 && r.fuel <= 1_000_000 ==> flamed_out(r),
{
}

/// Distances below ten kilometres are in metres and the others in kilometres, each
/// rounded to within half a unit, and a negative one has a minus.
pub proof fn lemma_distances_keep_their_size(um: int)
    ensures
        ({
            let size = if um < 0 {
                -um
            } else {
                um
            };
            exists|n: nat|
                #![trigger decimal(n)]
                {
                    &&& distance_of(um) == (if um < 0 {
                        seq!['-']
                    } else {
                        Seq::empty()
                    }) + decimal(n) + (if size >= 10_000_000_000 {
                        " km"@
                    } else {
                        " m"@
                    })
                    &&& size >= 10_000_000_000 ==> -500_000_000 <= n * 1_000_000_000 - size
                        <= 500_000_000
                    &&& size < 10_000_000_000 ==> -500_000 <= n * 1_000_000 - size <= 500_000
                }
        }),
{
    let size = size_of(um);
    crate::readout::lemma_nearest_is_near(size, 1_000_000_000);
    crate::readout::lemma_nearest_is_near(size, 1_000_000);
    let n = if size >= 10_000_000_000 {
        nearest(size, 1_000_000_000)
    } else {
        nearest(size, 1_000_000)
    };
    assert(decimal(n) == decimal(n));
}

/// An orbit is called one exactly when its lowest point is not below the surface; a path
/// without a highest point is an escape.
pub proof fn lemma_orbits_clear_the_surface(apsides: Option<(i64, i64)>)
    ensures
        apsides is None ==> orbit_text(apsides) == "orbit:    escape"@,
        apsides matches Some(a) ==> {
            &&& a.1 >= 0 ==> orbit_text(apsides) == "orbit:    ORBIT  apo "@ + distance_of(
                a.0 as int,
            ) + " / peri "@ + distance_of(a.1 as int)
            &&& a.1 < 0 ==> orbit_text(apsides) == "orbit:    suborbital  apoapsis "@
                + distance_of(a.0 as int)
        },
{
}

/// Each name begins as what it names does.
pub proof fn lemma_names_say_what_they_name(o: Outcome)
    ensures
        phase_name(Phase::Build, o)[0] == 'B',
        phase_name(Phase::Launch, o)[0] == 'L',
        phase_name(Phase::Flight, o)[0] == 'F',
        phase_name(Phase::Recovery, o)[0] == 'R',
        phase_name(Phase::Recovery, Outcome::Landed).contains('l'),
        phase_name(Phase::Recovery, Outcome::Crashed).contains('c'),
        medium_name(MediumKind::Vacuum)[0] == 'v',
        medium_name(MediumKind::Atmosphere)[0] == 'a',
        medium_name(MediumKind::Liquid)[0] == 'o',
        forall|mode: SasMode| #[trigger] sas_name(mode, false)[0] == 'u',
        sas_name(SasMode::Hold, true)[0] == 'h',
        sas_name(SasMode::KillRotation, true)[0] == 'k',
        sas_name(SasMode::Off, true)[0] == 'o',
        sas_name(SasMode::Point, true)[0] == 'p',
        tier_name(ControlTier::Uncontrolled)[0] == 'U',
        tier_name(ControlTier::Direct)[0] == 'd',
        tier_name(ControlTier::Stabilized)[0] == 's',
{
    reveal_strlit("BUILD");
    reveal_strlit("LAUNCH");
    reveal_strlit("FLIGHT");
    reveal_strlit("RECOVERY (landed)");
    reveal_strlit("RECOVERY (crashed)");
    reveal_strlit("RECOVERY");
    reveal_strlit("vacuum");
    reveal_strlit("atmosphere");
    reveal_strlit("ocean");
    reveal_strlit("off");
    reveal_strlit("unavail");
    reveal_strlit("kill-rot");
    reveal_strlit("hold");
    reveal_strlit("point");
    reveal_strlit("UNCONTROLLED");
    reveal_strlit("direct");
    reveal_strlit("stabilized");
    assert("RECOVERY (landed)"@[10] == 'l');
    assert("RECOVERY (crashed)"@[10] == 'c');
}

/// Every measure stands behind its own label in the scheduled flight's readout.
pub proof fn lemma_the_autopilot_readout_labels_its_measures(
    r: FlightReadout,
)
    ensures
        says(
            autopilot_text(r),
            "\nG-force:  "@ + shown(r.g_force as int, (Field { width: 5, digits: 1, plus: false })),
        ),
        says(
            autopilot_text(r),
            " g\naltitude: "@ + shown(r.altitude as int, (Field { width: 8, digits: 0, plus: false })),
        ),
        says(
            autopilot_text(r),
            " m\nspeed:    "@ + shown(r.speed as int, (Field { width: 7, digits: 1, plus: false })),
        ),
        says(
            autopilot_text(r),
            " m/s\ntilt:     "@ + shown(r.tilt as int, (Field { width: 5, digits: 0, plus: false })),
        ),
{
    let text = autopilot_text(r);
    let t0 = flight_head(r);
    let t1 = "\nG-force:  "@;
    let t2 = shown(r.g_force as int, (Field { width: 5, digits: 1, plus: false }));
    let t3 = " g\naltitude: "@;
    let t4 = shown(r.altitude as int, (Field { width: 8, digits: 0, plus: false }));
    let t5 = " m\nspeed:    "@;
    let t6 = shown(r.speed as int, (Field { width: 7, digits: 1, plus: false }));
    let t7 = " m/s\ntilt:     "@;
    let t8 = shown(r.tilt as int, (Field { width: 5, digits: 0, plus: false }));
    let t9 = "°"@;
    let a1 = t0 + t1;
    let a2 = a1 + t2;
    lemma_says_on(a1, t2);
    lemma_says_its_end(t0, t1, t2);
    let a3 = a2 + t3;
    lemma_says_on(a2, t3);
    let a4 = a3 + t4;
    lemma_says_on(a3, t4);
    lemma_says_its_end(a2, t3, t4);
    let a5 = a4 + t5;
    lemma_says_on(a4, t5);
    let a6 = a5 + t6;
    lemma_says_on(a5, t6);
    lemma_says_its_end(a4, t5, t6);
    let a7 = a6 + t7;
    lemma_says_on(a6, t7);
    let a8 = a7 + t8;
    lemma_says_on(a7, t8);
    lemma_says_its_end(a6, t7, t8);
    let a9 = a8 + t9;
    lemma_says_on(a8, t9);
    assert(text == a9);
}

/// Every measure stands behind its own label in the player's readout.
pub proof fn lemma_the_play_readout_labels_its_measures(
    r: FlightReadout,
    apsides: Option<(i64, i64)>,
)
    ensures
        says(
            play_text(r, apsides),
            "\n\u{0394}v:       "@ + shown(r.delta_v as int, (Field { width: 6, digits: 0, plus: false })),
        ),
        says(
            play_text(r, apsides),
            " m/s\nG-force:  "@ + shown(r.g_force as int, (Field { width: 5, digits: 1, plus: false })),
        ),
        says(
            play_text(r, apsides),
            " g\naltitude: "@ + distance_of(r.altitude as int),
        ),
        says(
            play_text(r, apsides),
            "\nv-speed:  "@ + shown(r.vertical_speed as int, (Field { width: 7, digits: 0, plus: true })),
        ),
        says(
            play_text(r, apsides),
            " m/s\nspeed:    "@ + shown(r.speed as int, (Field { width: 7, digits: 1, plus: false })),
        ),
        says(
            play_text(r, apsides),
            " m/s\n"@ + orbit_text(apsides),
        ),
        says(
            play_text(r, apsides),
            "\nenergy:   "@ + shown(r.energy as int, (Field { width: 8, digits: 2, plus: false })),
        ),
        says(
            play_text(r, apsides),
            " MJ/kg\nmedium:   "@ + medium_name(r.medium),
        ),
        says(
            play_text(r, apsides),
            "   tilt "@ + shown(r.tilt as int, (Field { width: 0, digits: 0, plus: false })),
        ),
        says(
            play_text(r, apsides),
            "\u{00b0}   SAS "@ + sas_name(r.sas, r.stabilizes),
        ),
        says(
            play_text(r, apsides),
            " ("@ + (if r.recapture { "recap"@ } else { "return"@ }),
        ),
        says(
            play_text(r, apsides),
            ")\ncontrol:  "@ + tier_name(r.tier),
        ),
{
    let text = play_text(r, apsides);
    let t0 = flight_head(r);
    let t1 = "\n\u{0394}v:       "@;
    let t2 = shown(r.delta_v as int, (Field { width: 6, digits: 0, plus: false }));
    let t3 = " m/s\nG-force:  "@;
    let t4 = shown(r.g_force as int, (Field { width: 5, digits: 1, plus: false }));
    let t5 = " g\naltitude: "@;
    let t6 = distance_of(r.altitude as int);
    let t7 = "\nv-speed:  "@;
    let t8 = shown(r.vertical_speed as int, (Field { width: 7, digits: 0, plus: true }));
    let t9 = " m/s\nspeed:    "@;
    let t10 = shown(r.speed as int, (Field { width: 7, digits: 1, plus: false }));
    let t11 = " m/s\n"@;
    let t12 = orbit_text(apsides);
    let t13 = "\nenergy:   "@;
    let t14 = shown(r.energy as int, (Field { width: 8, digits: 2, plus: false }));
    let t15 = " MJ/kg\nmedium:   "@;
    let t16 = medium_name(r.medium);
    let t17 = "   tilt "@;
    let t18 = shown(r.tilt as int, (Field { width: 0, digits: 0, plus: false }));
    let t19 = "\u{00b0}   SAS "@;
    let t20 = sas_name(r.sas, r.stabilizes);
    let t21 = " ("@;
    let t22 = (if r.recapture { "recap"@ } else { "return"@ });
    let t23 = ")\ncontrol:  "@;
    let t24 = tier_name(r.tier);
    let a1 = t0 + t1;
    let a2 = a1 + t2;
    lemma_says_on(a1, t2);
    lemma_says_its_end(t0, t1, t2);
    let a3 = a2 + t3;
    lemma_says_on(a2, t3);
    let a4 = a3 + t4;
    lemma_says_on(a3, t4);
    lemma_says_its_end(a2, t3, t4);
    let a5 = a4 + t5;
    lemma_says_on(a4, t5);
    let a6 = a5 + t6;
    lemma_says_on(a5, t6);
    lemma_says_its_end(a4, t5, t6);
    let a7 = a6 + t7;
    lemma_says_on(a6, t7);
    let a8 = a7 + t8;
    lemma_says_on(a7, t8);
    lemma_says_its_end(a6, t7, t8);
    let a9 = a8 + t9;
    lemma_says_on(a8, t9);
    let a10 = a9 + t10;
    lemma_says_on(a9, t10);
    lemma_says_its_end(a8, t9, t10);
    let a11 = a10 + t11;
    lemma_says_on(a10, t11);
    let a12 = a11 + t12;
    lemma_says_on(a11, t12);
    lemma_says_its_end(a10, t11, t12);
    let a13 = a12 + t13;
    lemma_says_on(a12, t13);
    let a14 = a13 + t14;
    lemma_says_on(a13, t14);
    lemma_says_its_end(a12, t13, t14);
    let a15 = a14 + t15;
    lemma_says_on(a14, t15);
    let a16 = a15 + t16;
    lemma_says_on(a15, t16);
    lemma_says_its_end(a14, t15, t16);
    let a17 = a16 + t17;
    lemma_says_on(a16, t17);
    let a18 = a17 + t18;
    lemma_says_on(a17, t18);
    lemma_says_its_end(a16, t17, t18);
    let a19 = a18 + t19;
    lemma_says_on(a18, t19);
    let a20 = a19 + t20;
    lemma_says_on(a19, t20);
    lemma_says_its_end(a18, t19, t20);
    let a21 = a20 + t21;
    lemma_says_on(a20, t21);
    let a22 = a21 + t22;
    lemma_says_on(a21, t22);
    lemma_says_its_end(a20, t21, t22);
    let a23 = a22 + t23;
    lemma_says_on(a22, t23);
    let a24 = a23 + t24;
    lemma_says_on(a23, t24);
    lemma_says_its_end(a22, t23, t24);
    assert(text == a24);
}

/// Every measure stands behind its own label in the launch's readout.
pub proof fn lemma_the_launch_readout_labels_its_measures(
    throttle: u32,
    altitude: i64,
    speed: i64,
    released: bool,
)
    ensures
        says(
            launch_text(throttle, altitude, speed, released),
            "throttle: "@ + shown(throttle * 100, (Field { width: 3, digits: 0, plus: false })),
        ),
        says(
            launch_text(throttle, altitude, speed, released),
            "%\naltitude: "@ + shown(altitude as int, (Field { width: 8, digits: 0, plus: false })),
        ),
        says(
            launch_text(throttle, altitude, speed, released),
            " m\nspeed:    "@ + shown(speed as int, (Field { width: 7, digits: 1, plus: false })),
        ),
        says(
            launch_text(throttle, altitude, speed, released),
            " m/s\nstate:    "@ + (if released { "ASCENT"@ } else { "on pad"@ }),
        ),
{
    let text = launch_text(throttle, altitude, speed, released);
    let t0 = "throttle: "@;
    let t1 = shown(throttle * 100, (Field { width: 3, digits: 0, plus: false }));
    let t2 = "%\naltitude: "@;
    let t3 = shown(altitude as int, (Field { width: 8, digits: 0, plus: false }));
    let t4 = " m\nspeed:    "@;
    let t5 = shown(speed as int, (Field { width: 7, digits: 1, plus: false }));
    let t6 = " m/s\nstate:    "@;
    let t7 = (if released { "ASCENT"@ } else { "on pad"@ });
    let a1 = t0 + t1;
    lemma_says_itself(a1);
    let a2 = a1 + t2;
    lemma_says_on(a1, t2);
    let a3 = a2 + t3;
    lemma_says_on(a2, t3);
    lemma_says_its_end(a1, t2, t3);
    let a4 = a3 + t4;
    lemma_says_on(a3, t4);
    let a5 = a4 + t5;
    lemma_says_on(a4, t5);
    lemma_says_its_end(a3, t4, t5);
    let a6 = a5 + t6;
    lemma_says_on(a5, t6);
    let a7 = a6 + t7;
    lemma_says_on(a6, t7);
    lemma_says_its_end(a5, t6, t7);
    assert(text == a7);
}

/// Every measure stands behind its own label in the lines that both flight readouts share.
pub proof fn lemma_both_flight_readouts_begin_alike(
    r: FlightReadout,
)
    ensures
        says(
            flight_head(r),
            "phase:    "@ + phase_name(r.phase, r.outcome),
        ),
        says(
            flight_head(r),
            "\nthrottle: "@ + gauge_of(r.throttle as int, FULL_THROTTLE as int),
        ),
        says(
            flight_head(r),
            " "@ + shown(r.throttle * 100, (Field { width: 3, digits: 0, plus: false })),
        ),
        says(
            flight_head(r),
            "%"@ + (if flamed_out(r) { "  FLAMEOUT"@ } else { ""@ }),
        ),
        says(
            flight_head(r),
            "\nfuel:     "@ + fuel_gauge(r),
        ),
        says(
            flight_head(r),
            " "@ + shown(r.fuel as int, (Field { width: 6, digits: 0, plus: false })),
        ),
{
    let text = flight_head(r);
    let t0 = "phase:    "@;
    let t1 = phase_name(r.phase, r.outcome);
    let t2 = "\nthrottle: "@;
    let t3 = gauge_of(r.throttle as int, FULL_THROTTLE as int);
    let t4 = " "@;
    let t5 = shown(r.throttle * 100, (Field { width: 3, digits: 0, plus: false }));
    let t6 = "%"@;
    let t7 = (if flamed_out(r) { "  FLAMEOUT"@ } else { ""@ });
    let t8 = "\nfuel:     "@;
    let t9 = fuel_gauge(r);
    let t10 = " "@;
    let t11 = shown(r.fuel as int, (Field { width: 6, digits: 0, plus: false }));
    let t12 = " kg"@;
    let a1 = t0 + t1;
    lemma_says_itself(a1);
    let a2 = a1 + t2;
    lemma_says_on(a1, t2);
    let a3 = a2 + t3;
    lemma_says_on(a2, t3);
    lemma_says_its_end(a1, t2, t3);
    let a4 = a3 + t4;
    lemma_says_on(a3, t4);
    let a5 = a4 + t5;
    lemma_says_on(a4, t5);
    lemma_says_its_end(a3, t4, t5);
    let a6 = a5 + t6;
    lemma_says_on(a5, t6);
    let a7 = a6 + t7;
    lemma_says_on(a6, t7);
    lemma_says_its_end(a5, t6, t7);
    let a8 = a7 + t8;
    lemma_says_on(a7, t8);
    let a9 = a8 + t9;
    lemma_says_on(a8, t9);
    lemma_says_its_end(a7, t8, t9);
    let a10 = a9 + t10;
    lemma_says_on(a9, t10);
    let a11 = a10 + t11;
    lemma_says_on(a10, t11);
    lemma_says_its_end(a9, t10, t11);
    let a12 = a11 + t12;
    lemma_says_on(a11, t12);
    assert(text == a12);
}

/// Every measure stands behind its own label in the scenario's first lines.
pub proof fn lemma_the_scenario_readout_labels_its_measures(
    name: Seq<char>,
    released: bool,
    paused: bool,
    altitude: int,
    speed: int,
    throttle: int,
    propellant: int,
)
    ensures
        says(
            scenario_head(name, released, paused, altitude, speed, throttle, propellant),
            "scenario: "@ + name,
        ),
        says(
            scenario_head(name, released, paused, altitude, speed, throttle, propellant),
            " — "@ + (if released { "FLYING"@ } else { "on the pad"@ }),
        ),
        says(
            scenario_head(name, released, paused, altitude, speed, throttle, propellant),
            "\naltitude: "@ + shown(altitude, (Field { width: 8, digits: 1, plus: false })),
        ),
        says(
            scenario_head(name, released, paused, altitude, speed, throttle, propellant),
            " m\nspeed:    "@ + shown(speed, (Field { width: 8, digits: 1, plus: false })),
        ),
        says(
            scenario_head(name, released, paused, altitude, speed, throttle, propellant),
            " m/s\nthrottle: "@ + shown(throttle, (Field { width: 4, digits: 2, plus: false })),
        ),
        says(
            scenario_head(name, released, paused, altitude, speed, throttle, propellant),
            "   propellant: "@ + shown(propellant, (Field { width: 6, digits: 1, plus: false })),
        ),
{
    let text = scenario_head(name, released, paused, altitude, speed, throttle, propellant);
    let t0 = "scenario: "@;
    let t1 = name;
    let t2 = " — "@;
    let t3 = (if released { "FLYING"@ } else { "on the pad"@ });
    let t4 = (if paused { "\n⏸ PAUSED (P · . step)"@ } else { ""@ });
    let t5 = "\naltitude: "@;
    let t6 = shown(altitude, (Field { width: 8, digits: 1, plus: false }));
    let t7 = " m\nspeed:    "@;
    let t8 = shown(speed, (Field { width: 8, digits: 1, plus: false }));
    let t9 = " m/s\nthrottle: "@;
    let t10 = shown(throttle, (Field { width: 4, digits: 2, plus: false }));
    let t11 = "   propellant: "@;
    let t12 = shown(propellant, (Field { width: 6, digits: 1, plus: false }));
    let t13 = " kg\nsettings:"@;
    let a1 = t0 + t1;
    lemma_says_itself(a1);
    let a2 = a1 + t2;
    lemma_says_on(a1, t2);
    let a3 = a2 + t3;
    lemma_says_on(a2, t3);
    lemma_says_its_end(a1, t2, t3);
    let a4 = a3 + t4;
    lemma_says_on(a3, t4);
    let a5 = a4 + t5;
    lemma_says_on(a4, t5);
    let a6 = a5 + t6;
    lemma_says_on(a5, t6);
    lemma_says_its_end(a4, t5, t6);
    let a7 = a6 + t7;
    lemma_says_on(a6, t7);
    let a8 = a7 + t8;
    lemma_says_on(a7, t8);
    lemma_says_its_end(a6, t7, t8);
    let a9 = a8 + t9;
    lemma_says_on(a8, t9);
    let a10 = a9 + t10;
    lemma_says_on(a9, t10);
    lemma_says_its_end(a8, t9, t10);
    let a11 = a10 + t11;
    lemma_says_on(a10, t11);
    let a12 = a11 + t12;
    lemma_says_on(a11, t12);
    lemma_says_its_end(a10, t11, t12);
    let a13 = a12 + t13;
    lemma_says_on(a12, t13);
    assert(text == a13);
}

/// The scenario's readout has a line for each setting and each mission, in order: a further one
/// comes after the others, with its name, and with its factor or its state and progress.
pub proof fn lemma_settings_and_missions_are_listed(
    settings: Seq<Setting>,
    s: Setting,
    missions: Seq<Mission>,
    m: Mission,
)
    ensures
        setting_lines(settings.push(s)) == setting_lines(settings) + setting_line(s),
        setting_lines(Seq::empty()).len() == 0,
        setting_line(s).take(s.name@.len() as int + 3) == "\n  "@ + s.name@,
        says(setting_line(s), " ×"@ + s.factor@),
        mission_lines(missions.push(m)) == mission_lines(missions) + mission_line(m),
        mission_lines(Seq::empty()).len() == 0,
        mission_line(m).take(m.name@.len() as int + 3) == "\n  "@ + m.name@,
        says(mission_line(m), " — "@ + m.state@),
        says(
            mission_line(m),
            " ("@ + shown(m.progress * 100, (Field { width: 0, digits: 0, plus: false })),
        ),
{
    assert(settings.push(s).drop_last() =~= settings);
    assert(missions.push(m).drop_last() =~= missions);
    reveal_strlit("\n  ");
    let a1 = "\n  "@ + s.name@;
    let a3 = a1 + " ×"@ + s.factor@;
    lemma_says_its_end(a1, " ×"@, s.factor@);
    let why: Seq<char> = match s.rationale {
        Some(r) => " — "@ + r@,
        None => Seq::empty(),
    };
    lemma_says_on(a3, why);
    assert(setting_line(s) == a3 + why);
    assert(setting_line(s).take(s.name@.len() as int + 3) =~= a1);
    let b1 = "\n  "@ + m.name@;
    let b2 = b1 + " — "@ + m.state@;
    lemma_says_its_end(b1, " — "@, m.state@);
    let share = shown(m.progress * 100, (Field { width: 0, digits: 0, plus: false }));
    lemma_says_on(b2, " ("@);
    lemma_says_on(b2 + " ("@, share);
    lemma_says_its_end(b2, " ("@, share);
    lemma_says_on(b2 + " ("@ + share, "%)"@);
    assert(mission_line(m) == b2 + " ("@ + share + "%)"@);
    assert(mission_line(m).take(m.name@.len() as int + 3) =~= b1);
}

/// The fuel gauge fills with the fuel's share of the tank, and stays empty without a tank.
pub proof fn lemma_the_fuel_gauge_needs_a_tank(r: FlightReadout)
    ensures
        r.fuel_capacity == 0 ==> fuel_gauge(r) == gauge_of(0, 1),
        r.fuel_capacity > 0 ==> fuel_gauge(r) == gauge_of(r.fuel as int, r.fuel_capacity as int),
        says(flight_head(r), "  FLAMEOUT"@) || !flamed_out(r),
{
    if flamed_out(r) {
        let t0 = "phase:    "@;
        let a = t0 + phase_name(r.phase, r.outcome) + "\nthrottle: "@ + gauge_of(
            r.throttle as int,
            FULL_THROTTLE as int,
        ) + " "@ + shown(r.throttle * 100, (Field { width: 3, digits: 0, plus: false })) + "%"@;
        let b = a + "  FLAMEOUT"@;
        lemma_says_its_end(a, Seq::empty(), "  FLAMEOUT"@);
        assert(a + Seq::<char>::empty() =~= a);
        assert(Seq::<char>::empty() + "  FLAMEOUT"@ =~= "  FLAMEOUT"@);
        lemma_says_on(b, "\nfuel:     "@);
        lemma_says_on(b + "\nfuel:     "@, fuel_gauge(r));
        lemma_says_on(b + "\nfuel:     "@ + fuel_gauge(r), " "@);
        let mass = shown(r.fuel as int, (Field { width: 6, digits: 0, plus: false }));
        lemma_says_on(b + "\nfuel:     "@ + fuel_gauge(r) + " "@, mass);
        lemma_says_on(b + "\nfuel:     "@ + fuel_gauge(r) + " "@ + mass, " kg"@);
        assert(flight_head(r) == b + "\nfuel:     "@ + fuel_gauge(r) + " "@ + mass + " kg"@);
    }
}

} // verus!
