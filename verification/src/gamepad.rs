//! Game controllers: a rebindable mapping of physical inputs to control intents,
//! and the flat sample that scenes read beside the keyboard.
//!
//! Analog values are whole millionths of full deflection. Without a controller
//! the sample is inert, so that callers can merge it unconditionally.

use vstd::prelude::*;

verus! {

/// Full deflection, in millionths.
pub const FULL: i32 = 1_000_000;

/// A stick axis.
#[derive(Clone, Copy, Debug, PartialEq, Eq, Structural)]
pub enum GamepadAxis {
    LeftStickX,
    LeftStickY,
    RightStickX,
    RightStickY,
}

/// A button, a bumper (`LeftTrigger`, `RightTrigger`) or an analog trigger
/// (`LeftTrigger2`, `RightTrigger2`).
#[derive(Clone, Copy, Debug, PartialEq, Eq, Structural)]
pub enum GamepadButton {
    North,
    East,
    South,
    West,
    LeftTrigger,
    RightTrigger,
    LeftTrigger2,
    RightTrigger2,
    Select,
    Start,
}

/// Which physical input serves which intent.
#[derive(Clone, Copy, Debug, PartialEq, Eq, Structural)]
pub struct GamepadMap {
    /// The deadzone, in millionths; below [`FULL`].
    pub deadzone: i32,
    pub steer: GamepadAxis,
    pub pitch: GamepadAxis,
    pub roll: GamepadAxis,
    pub cam_yaw: GamepadAxis,
    pub cam_pitch: GamepadAxis,
    pub throttle_fwd: GamepadButton,
    pub throttle_rev: GamepadButton,
    pub yaw_left: GamepadButton,
    pub yaw_right: GamepadButton,
    pub brake: GamepadButton,
    pub sas_toggle: GamepadButton,
    pub throttle_max: GamepadButton,
    pub throttle_zero: GamepadButton,
    pub cam_zoom_in: GamepadButton,
    pub cam_zoom_out: GamepadButton,
    pub pause: GamepadButton,
    pub back: GamepadButton,
}

impl Default for GamepadMap {
    fn default() -> (m: GamepadMap)
        ensures
            m.deadzone == 120_000,
            m.steer == GamepadAxis::LeftStickX,
            m.pitch == GamepadAxis::LeftStickY,
            m.roll == GamepadAxis::LeftStickX,
            m.cam_yaw == GamepadAxis::RightStickX,
            m.cam_pitch == GamepadAxis::RightStickY,
            m.throttle_fwd == GamepadButton::RightTrigger2,
            m.throttle_rev == GamepadButton::LeftTrigger2,
            m.yaw_left == GamepadButton::LeftTrigger,
            m.yaw_right == GamepadButton::RightTrigger,
            m.brake == GamepadButton::LeftTrigger,
            m.sas_toggle == GamepadButton::North,
            m.throttle_max == GamepadButton::East,
            m.throttle_zero == GamepadButton::West,
            m.cam_zoom_in == GamepadButton::LeftTrigger,
            m.cam_zoom_out == GamepadButton::RightTrigger,
            m.pause == GamepadButton::Start,
            m.back == GamepadButton::Select,
    {
        GamepadMap {
            deadzone: 120_000,
            steer: GamepadAxis::LeftStickX,
            pitch: GamepadAxis::LeftStickY,
            roll: GamepadAxis::LeftStickX,
            cam_yaw: GamepadAxis::RightStickX,
            cam_pitch: GamepadAxis::RightStickY,
            throttle_fwd: GamepadButton::RightTrigger2,
            throttle_rev: GamepadButton::LeftTrigger2,
            yaw_left: GamepadButton::LeftTrigger,
            yaw_right: GamepadButton::RightTrigger,
            brake: GamepadButton::LeftTrigger,
            sas_toggle: GamepadButton::North,
            throttle_max: GamepadButton::East,
            throttle_zero: GamepadButton::West,
            cam_zoom_in: GamepadButton::LeftTrigger,
            cam_zoom_out: GamepadButton::RightTrigger,
            pause: GamepadButton::Start,
            back: GamepadButton::Select,
        }
    }
}

/// The size of a deflection.
pub open spec fn magnitude(v: int) -> int {
    if v < 0 {
        -v
    } else {
        v
    }
}

/// The deadzone that counts: one outside `0..FULL` counts as none.
pub open spec fn effective_deadzone(deadzone: int) -> int {
    if 0 <= deadzone < FULL {
        deadzone
    } else {
        0
    }
}

/// A deflection with the deadzone taken out: zero within it; beyond it rescaled
/// so that the deadzone's edge is zero and full deflection is full, the sign
/// kept and the size capped. Fractions of a millionth are dropped.
pub open spec fn dezoned(value: int, deadzone: int) -> int {
    let dz = effective_deadzone(deadzone);
    let mag = magnitude(value);
    if mag <= dz {
        0
    } else {
        let scaled = (mag - dz) * FULL / (FULL - dz);
        let capped = if scaled > FULL {
            FULL as int
        } else {
            scaled
        };
        if value < 0 {
            -capped
        } else {
            capped
        }
    }
}

/// Applies a deadzone to a signed deflection.
pub fn apply_deadzone(value: i32, deadzone: i32) -> (r: i32)
    ensures
        r == dezoned(value as int, deadzone as int),
        -FULL <= r <= FULL,
{
    let dz: i64 = if 0 <= deadzone && deadzone < FULL {
        deadzone as i64
    } else {
        0
    };
    let mag: i64 = if value < 0 {
        -(value as i64)
    } else {
        value as i64
    };
    if mag <= dz {
        return 0;
    }
    let top: i64 = (mag - dz) * 1_000_000;
    let span: i64 = 1_000_000 - dz;
    let scaled: i64 = top / span;
    assert(scaled == (mag - dz) * FULL / (FULL - dz));
    assert(scaled >= 0) by {
        vstd::arithmetic::div_mod::lemma_div_pos_is_pos(top as int, span as int);
    }
    let capped: i64 = if scaled > 1_000_000 {
        1_000_000
    } else {
        scaled
    };
    if value < 0 {
        (-capped) as i32
    } else {
        capped as i32
    }
}

/// A deflection within the deadzone reads as exactly zero.
pub proof fn lemma_rest_is_zero(value: int, deadzone: int)
    requires
        magnitude(value) <= effective_deadzone(deadzone),
    ensures
        dezoned(value, deadzone) == 0,
{
}

/// Full deflection stays full, whichever way and whatever the deadzone.
pub proof fn lemma_full_stays_full(deadzone: int)
    ensures
        dezoned(FULL as int, deadzone) == FULL,
        dezoned(-(FULL as int), deadzone) == -(FULL as int),
{
    let dz = effective_deadzone(deadzone);
    vstd::arithmetic::div_mod::lemma_div_by_multiple(FULL as int, FULL - dz);
    assert((FULL - dz) * FULL == FULL * (FULL - dz)) by (nonlinear_arith);
}

/// The response never turns around: a larger deflection never reads smaller,
/// and the sign is kept.
pub proof fn lemma_response_is_monotone(a: int, b: int, deadzone: int)
    requires
        0 <= a <= b,
    ensures
        0 <= dezoned(a, deadzone) <= dezoned(b, deadzone),
        dezoned(-a, deadzone) == -dezoned(a, deadzone),
{
    let dz = effective_deadzone(deadzone);
    let span = FULL - dz;
    if a > dz {
        vstd::arithmetic::div_mod::lemma_div_is_ordered(
            (a - dz) * FULL,
            (b - dz) * FULL,
            span,
        );
        vstd::arithmetic::div_mod::lemma_div_pos_is_pos((a - dz) * FULL, span);
    } else if b > dz {
        vstd::arithmetic::div_mod::lemma_div_pos_is_pos((b - dz) * FULL, span);
    }
}

/// Without a deadzone a deflection within range is unchanged, and so it is with
/// one that is out of range.
pub proof fn lemma_no_deadzone_is_identity(value: int, deadzone: int)
    requires
        effective_deadzone(deadzone) == 0,
        magnitude(value) <= FULL,
    ensures
        dezoned(value, deadzone) == value,
{
    vstd::arithmetic::div_mod::lemma_div_by_multiple(magnitude(value), FULL as int);
}

/// One controller in one frame: what each axis and each analog trigger reads,
/// and which buttons are down or went down.
#[derive(Debug, PartialEq, Eq)]
pub struct Pad {
    pub axes: Vec<(GamepadAxis, i32)>,
    pub triggers: Vec<(GamepadButton, i32)>,
    pub pressed: Vec<GamepadButton>,
    pub just_pressed: Vec<GamepadButton>,
}

/// What an axis reads, zero if the controller does not have it.
pub open spec fn axis_reading(axes: Seq<(GamepadAxis, i32)>, a: GamepadAxis) -> i32
    decreases axes.len(),
{
    if axes.len() == 0 {
        0
    } else if axes[0].0 == a {
        axes[0].1
    } else {
        axis_reading(axes.skip(1), a)
    }
}

/// What an analog trigger reads, zero if the controller does not have it.
pub open spec fn trigger_reading(triggers: Seq<(GamepadButton, i32)>, b: GamepadButton) -> i32
    decreases triggers.len(),
{
    if triggers.len() == 0 {
        0
    } else if triggers[0].0 == b {
        triggers[0].1
    } else {
        trigger_reading(triggers.skip(1), b)
    }
}

impl Pad {
    /// An axis with its deadzone taken out.
    fn axis(&self, a: GamepadAxis, deadzone: i32) -> (v: i32)
        ensures
            v == dezoned(axis_reading(self.axes@, a) as int, deadzone as int),
            -FULL <= v <= FULL,
    {
        let mut i: usize = 0;
        assert(self.axes@.skip(0) =~= self.axes@);
        while i < self.axes.len()
            invariant
                i <= self.axes.len(),
                axis_reading(self.axes@, a) == axis_reading(self.axes@.skip(i as int), a),
            decreases self.axes.len() - i,
        {
            assert(self.axes@.skip(i as int)[0] == self.axes@[i as int]);
            assert(self.axes@.skip(i as int).skip(1) =~= self.axes@.skip(i + 1));
            if self.axes[i].0 == a {
                return apply_deadzone(self.axes[i].1, deadzone);
            }
            i += 1;
        }
        apply_deadzone(0, deadzone)
    }

    /// A trigger with its deadzone taken out.
    fn trigger(&self, b: GamepadButton, deadzone: i32) -> (v: i32)
        ensures
            v == dezoned(trigger_reading(self.triggers@, b) as int, deadzone as int),
            -FULL <= v <= FULL,
    {
        let mut i: usize = 0;
        assert(self.triggers@.skip(0) =~= self.triggers@);
        while i < self.triggers.len()
            invariant
                i <= self.triggers.len(),
                trigger_reading(self.triggers@, b) == trigger_reading(
                    self.triggers@.skip(i as int),
                    b,
                ),
            decreases self.triggers.len() - i,
        {
            assert(self.triggers@.skip(i as int)[0] == self.triggers@[i as int]);
            assert(self.triggers@.skip(i as int).skip(1) =~= self.triggers@.skip(i + 1));
            if self.triggers[i].0 == b {
                return apply_deadzone(self.triggers[i].1, deadzone);
            }
            i += 1;
        }
        apply_deadzone(0, deadzone)
    }
}

/// Whether a button is among `buttons`.
fn among(buttons: &Vec<GamepadButton>, b: GamepadButton) -> (r: bool)
    ensures
        r == buttons@.contains(b),
{
    let mut i: usize = 0;
    while i < buttons.len()
        invariant
            i <= buttons.len(),
            forall|j: int| 0 <= j < i ==> buttons@[j] != b,
        decreases buttons.len() - i,
    {
        if buttons[i] == b {
            return true;
        }
        i += 1;
    }
    false
}

/// A flat, deadzoned snapshot of the first controller for one frame.
#[derive(Clone, Copy, Debug, PartialEq, Eq, Structural)]
pub struct PadSample {
    pub connected: bool,
    pub steer: i32,
    pub roll: i32,
    pub pitch: i32,
    pub yaw: i32,
    pub cam_yaw: i32,
    pub cam_pitch: i32,
    pub throttle_fwd: i32,
    pub throttle_rev: i32,
    pub throttle: i32,
    pub brake: bool,
    pub sas_toggle: bool,
    pub throttle_max: bool,
    pub throttle_zero: bool,
    pub zoom_in: bool,
    pub zoom_out: bool,
    pub pause: bool,
    pub back: bool,
}

/// No controller: nothing deflected, nothing pressed.
pub open spec fn inert() -> PadSample {
    PadSample {
        connected: false,
        steer: 0,
        roll: 0,
        pitch: 0,
        yaw: 0,
        cam_yaw: 0,
        cam_pitch: 0,
        throttle_fwd: 0,
        throttle_rev: 0,
        throttle: 0,
        brake: false,
        sas_toggle: false,
        throttle_max: false,
        throttle_zero: false,
        zoom_in: false,
        zoom_out: false,
        pause: false,
        back: false,
    }
}

impl Default for PadSample {
    fn default() -> (s: PadSample)
        ensures
            s == inert(),
    {
        PadSample {
            connected: false,
            steer: 0,
            roll: 0,
            pitch: 0,
            yaw: 0,
            cam_yaw: 0,
            cam_pitch: 0,
            throttle_fwd: 0,
            throttle_rev: 0,
            throttle: 0,
            brake: false,
            sas_toggle: false,
            throttle_max: false,
            throttle_zero: false,
            zoom_in: false,
            zoom_out: false,
            pause: false,
            back: false,
        }
    }
}

impl PadSample {
    /// Whether a deflection is past the deadzone, so that the controller is the
    /// live source for its intent.
    pub fn active(v: i32) -> (b: bool)
        ensures
            b == (v != 0),
    {
        v != 0
    }
}

/// What a digital pair of buttons deflects: right less left.
pub open spec fn digital(right: bool, left: bool) -> int {
    (if right {
        FULL as int
    } else {
        0
    }) - (if left {
        FULL as int
    } else {
        0
    })
}

/// What a controller reads through a mapping.
pub open spec fn sample_of(m: GamepadMap, p: Pad) -> PadSample {
    let dz = m.deadzone as int;
    let fwd = dezoned(trigger_reading(p.triggers@, m.throttle_fwd) as int, dz);
    let rev = dezoned(trigger_reading(p.triggers@, m.throttle_rev) as int, dz);
    PadSample {
        connected: true,
        steer: dezoned(axis_reading(p.axes@, m.steer) as int, dz) as i32,
        roll: dezoned(axis_reading(p.axes@, m.roll) as int, dz) as i32,
        pitch: dezoned(axis_reading(p.axes@, m.pitch) as int, dz) as i32,
        yaw: digital(p.pressed@.contains(m.yaw_right), p.pressed@.contains(m.yaw_left)) as i32,
        cam_yaw: dezoned(axis_reading(p.axes@, m.cam_yaw) as int, dz) as i32,
        cam_pitch: dezoned(axis_reading(p.axes@, m.cam_pitch) as int, dz) as i32,
        throttle_fwd: fwd as i32,
        throttle_rev: rev as i32,
        throttle: (fwd - rev) as i32,
        brake: p.pressed@.contains(m.brake),
        sas_toggle: p.just_pressed@.contains(m.sas_toggle),
        throttle_max: p.just_pressed@.contains(m.throttle_max),
        throttle_zero: p.just_pressed@.contains(m.throttle_zero),
        zoom_in: p.pressed@.contains(m.cam_zoom_in),
        zoom_out: p.pressed@.contains(m.cam_zoom_out),
        pause: p.just_pressed@.contains(m.pause),
        back: p.just_pressed@.contains(m.back),
    }
}

impl GamepadMap {
    /// Samples the first connected controller; only the first is read, so that
    /// conflicting inputs never add up. Without one the sample is inert.
    pub fn sample(&self, pads: &Vec<Pad>) -> (s: PadSample)
        ensures
            s == (if pads@.len() == 0 {
                inert()
            } else {
                sample_of(*self, pads@[0])
            }),
    {
        if pads.len() == 0 {
            return PadSample::default();
        }
        let pad: &Pad = &pads[0];
        let dz: i32 = self.deadzone;
        let fwd: i32 = pad.trigger(self.throttle_fwd, dz);
        let rev: i32 = pad.trigger(self.throttle_rev, dz);
        let right: i32 = if among(&pad.pressed, self.yaw_right) {
            FULL
        } else {
            0
        };
        let left: i32 = if among(&pad.pressed, self.yaw_left) {
            FULL
        } else {
            0
        };
        PadSample {
            connected: true,
            steer: pad.axis(self.steer, dz),
            roll: pad.axis(self.roll, dz),
            pitch: pad.axis(self.pitch, dz),
            yaw: right - left,
            cam_yaw: pad.axis(self.cam_yaw, dz),
            cam_pitch: pad.axis(self.cam_pitch, dz),
            throttle_fwd: fwd,
            throttle_rev: rev,
            throttle: fwd - rev,
            brake: among(&pad.pressed, self.brake),
            sas_toggle: among(&pad.just_pressed, self.sas_toggle),
            throttle_max: among(&pad.just_pressed, self.throttle_max),
            throttle_zero: among(&pad.just_pressed, self.throttle_zero),
            zoom_in: among(&pad.pressed, self.cam_zoom_in),
            zoom_out: among(&pad.pressed, self.cam_zoom_out),
            pause: among(&pad.just_pressed, self.pause),
            back: among(&pad.just_pressed, self.back),
        }
    }
}

/// The free-look offset of a chase camera, in half picoradians, as deltas from
/// the default view.
#[derive(Clone, Copy, Debug, PartialEq, Eq, Structural)]
pub struct ChaseLook {
    /// Wraps freely.
    pub yaw: i128,
    /// Kept within [`PITCH_LIMIT`].
    pub pitch: i128,
}

/// How far the camera tilts at most: one and two tenths of a radian, in half
/// picoradians.
pub const PITCH_LIMIT: i128 = 2_400_000_000_000;

/// The largest yaw that can still be turned.
pub const YAW_ROOM: i128 = 0x4000_0000_0000_0000_0000_0000_0000_0000;

/// The look after a frame of the stick: it turns at two and a half radians a
/// second, against the stick, the tilt kept within its limit. `dt` is in
/// microseconds.
pub open spec fn looked(l: ChaseLook, cam_yaw: int, cam_pitch: int, dt: int) -> (int, int) {
    let p = l.pitch - 5 * (cam_pitch * dt);
    (
        l.yaw - 5 * (cam_yaw * dt),
        if p < -PITCH_LIMIT {
            -PITCH_LIMIT
        } else if p > PITCH_LIMIT {
            PITCH_LIMIT as int
        } else {
            p
        },
    )
}

impl Default for ChaseLook {
    fn default() -> (l: ChaseLook)
        ensures
            l == (ChaseLook { yaw: 0, pitch: 0 }),
    {
        ChaseLook { yaw: 0, pitch: 0 }
    }
}

impl ChaseLook {
    /// The tilt is within its limit.
    pub open spec fn wf(self) -> bool {
        -PITCH_LIMIT <= self.pitch <= PITCH_LIMIT
    }

    /// Adds one frame of stick input that has its deadzone taken out.
    pub fn accumulate(&mut self, cam_yaw: i32, cam_pitch: i32, dt_us: u32)
        requires
            old(self).wf(),
            -YAW_ROOM <= old(self).yaw <= YAW_ROOM,
        ensures
            final(self).wf(),
            (final(self).yaw as int, final(self).pitch as int) == looked(
                *old(self),
                cam_yaw as int,
                cam_pitch as int,
                dt_us as int,
            ),
    {
        let y: i128 = cam_yaw as i128;
        let p: i128 = cam_pitch as i128;
        let t: i128 = dt_us as i128;
        assert(-0x8000_0000_0000_0000 <= y * t <= 0x8000_0000_0000_0000) by (nonlinear_arith)
            requires
                -0x8000_0000 <= y <= 0x7fff_ffff,
                0 <= t <= 0xffff_ffff,
        ;
        assert(-0x8000_0000_0000_0000 <= p * t <= 0x8000_0000_0000_0000) by (nonlinear_arith)
            requires
                -0x8000_0000 <= p <= 0x7fff_ffff,
                0 <= t <= 0xffff_ffff,
        ;
        self.yaw = self.yaw - 5 * (y * t);
        let tilt: i128 = self.pitch - 5 * (p * t);
        self.pitch = if tilt < -PITCH_LIMIT {
            -PITCH_LIMIT
        } else if tilt > PITCH_LIMIT {
            PITCH_LIMIT
        } else {
            tilt
        };
    }

    /// Back to the default view.
    pub fn reset(&mut self)
        ensures
            *final(self) == (ChaseLook { yaw: 0, pitch: 0 }),
    {
        self.yaw = 0;
        self.pitch = 0;
    }
}

/// One frame of free look: the stick turns the view, and a stick at rest leaves
/// it where it is.
pub fn accumulate_chase_look(pad: &PadSample, dt_us: u32, look: &mut ChaseLook)
    requires
        old(look).wf(),
        -YAW_ROOM <= old(look).yaw <= YAW_ROOM,
    ensures
        final(look).wf(),
        (final(look).yaw as int, final(look).pitch as int) == looked(
            *old(look),
            pad.cam_yaw as int,
            pad.cam_pitch as int,
            dt_us as int,
        ),
{
    if pad.cam_yaw != 0 || pad.cam_pitch != 0 {
        look.accumulate(pad.cam_yaw, pad.cam_pitch, dt_us);
    } else {
        assert(0 * dt_us == 0) by (nonlinear_arith);
    }
}

/// Beyond the deadzone a deflection reads as its share of what is left of the way, rounded
/// down, with its own sign.
pub proof fn lemma_deflection_is_its_share(value: int, deadzone: int)
    requires
        0 <= deadzone < 1_000_000,
        -1_000_000 <= value <= 1_000_000,
    ensures
        ({
            let r = dezoned(value, deadzone);
            let span = 1_000_000 - deadzone;
            &&& value > deadzone ==> 0 <= r && r * span <= (value - deadzone) * 1_000_000 < (r + 1)
                * span
            &&& value < -deadzone ==> r <= 0 && -r * span <= (-value - deadzone) * 1_000_000 < (1
                - r) * span
            &&& -deadzone <= value <= deadzone ==> r == 0
        }),
{
    let span = 1_000_000 - deadzone;
    let mag = magnitude(value);
    if mag > deadzone {
        let n = (mag - deadzone) * 1_000_000;
        let q = n / span;
        vstd::arithmetic::div_mod::lemma_fundamental_div_mod(n, span);
        assert(q * span == span * q && (q + 1) * span == span * q + span && (1 + q) * span == span
            * q + span) by (nonlinear_arith);
        assert(0 <= q <= 1_000_000) by (nonlinear_arith)
            requires
                n == span * q + n % span,
                0 <= n % span < span,
                0 <= n <= span * 1_000_000,
                span > 0,
        ;
    }
}

/// An axis reads what the controller reports for it, and zero where it reports nothing; a
/// trigger likewise.
pub proof fn lemma_readings_are_the_controllers(
    axes: Seq<(GamepadAxis, i32)>,
    triggers: Seq<(GamepadButton, i32)>,
    i: int,
    a: GamepadAxis,
    b: GamepadButton,
)
    ensures
        0 <= i < axes.len() && axes[i].0 == a && (forall|j: int|
            0 <= j < i ==> (#[trigger] axes[j]).0 != a) ==> axis_reading(axes, a) == axes[i].1,
        (forall|j: int| 0 <= j < axes.len() ==> (#[trigger] axes[j]).0 != a) ==> axis_reading(
            axes,
            a,
        ) == 0,
        0 <= i < triggers.len() && triggers[i].0 == b && (forall|j: int|
            0 <= j < i ==> (#[trigger] triggers[j]).0 != b) ==> trigger_reading(triggers, b)
            == triggers[i].1,
        (forall|j: int| 0 <= j < triggers.len() ==> (#[trigger] triggers[j]).0 != b)
            ==> trigger_reading(triggers, b) == 0,
{
    lemma_axis_reading(axes, i, a);
    lemma_trigger_reading(triggers, i, b);
}

proof fn lemma_axis_reading(axes: Seq<(GamepadAxis, i32)>, i: int, a: GamepadAxis)
    ensures
        0 <= i < axes.len() && axes[i].0 == a && (forall|j: int|
            0 <= j < i ==> (#[trigger] axes[j]).0 != a) ==> axis_reading(axes, a) == axes[i].1,
        (forall|j: int| 0 <= j < axes.len() ==> (#[trigger] axes[j]).0 != a) ==> axis_reading(
            axes,
            a,
        ) == 0,
    decreases axes.len(),
{
    if axes.len() > 0 {
        let t = axes.skip(1);
        lemma_axis_reading(t, i - 1, a);
        assert(forall|j: int| 0 <= j < t.len() ==> #[trigger] t[j] == axes[j + 1]);
    }
}

proof fn lemma_trigger_reading(triggers: Seq<(GamepadButton, i32)>, i: int, b: GamepadButton)
    ensures
        0 <= i < triggers.len() && triggers[i].0 == b && (forall|j: int|
            0 <= j < i ==> (#[trigger] triggers[j]).0 != b) ==> trigger_reading(triggers, b)
            == triggers[i].1,
        (forall|j: int| 0 <= j < triggers.len() ==> (#[trigger] triggers[j]).0 != b)
            ==> trigger_reading(triggers, b) == 0,
    decreases triggers.len(),
{
    if triggers.len() > 0 {
        let t = triggers.skip(1);
        lemma_trigger_reading(t, i - 1, b);
        assert(forall|j: int| 0 <= j < t.len() ==> #[trigger] t[j] == triggers[j + 1]);
    }
}

/// Each intent reads the input that the map gives it: sticks steer, roll, pitch and turn the
/// camera; triggers drive forward and back, against each other; the two yaw buttons turn
/// against each other; and each button does its own. Presses count once, holds throughout.
pub proof fn lemma_each_intent_reads_its_own_input(m: GamepadMap, p: Pad)
    ensures
        ({
            let s = sample_of(m, p);
            let dz = m.deadzone as int;
            let down = |b: GamepadButton| p.pressed@.contains(b);
            let hit = |b: GamepadButton| p.just_pressed@.contains(b);
            &&& s.connected
            &&& s.steer == dezoned(axis_reading(p.axes@, m.steer) as int, dz)
            &&& s.roll == dezoned(axis_reading(p.axes@, m.roll) as int, dz)
            &&& s.pitch == dezoned(axis_reading(p.axes@, m.pitch) as int, dz)
            &&& s.cam_yaw == dezoned(axis_reading(p.axes@, m.cam_yaw) as int, dz)
            &&& s.cam_pitch == dezoned(axis_reading(p.axes@, m.cam_pitch) as int, dz)
            &&& s.throttle_fwd == dezoned(trigger_reading(p.triggers@, m.throttle_fwd) as int, dz)
            &&& s.throttle_rev == dezoned(trigger_reading(p.triggers@, m.throttle_rev) as int, dz)
            &&& s.throttle == s.throttle_fwd - s.throttle_rev
            &&& s.yaw == 1_000_000 <==> down(m.yaw_right) && !down(m.yaw_left)
            &&& s.yaw == -1_000_000 <==> down(m.yaw_left) && !down(m.yaw_right)
            &&& s.yaw == 0 <==> down(m.yaw_left) == down(m.yaw_right)
            &&& s.brake == down(m.brake) && s.zoom_in == down(m.cam_zoom_in) && s.zoom_out == down(
                m.cam_zoom_out,
            )
            &&& s.sas_toggle == hit(m.sas_toggle) && s.throttle_max == hit(m.throttle_max)
                && s.throttle_zero == hit(m.throttle_zero) && s.pause == hit(m.pause) && s.back
                == hit(m.back)
        }),
{
    lemma_dezoned_in_range(axis_reading(p.axes@, m.steer) as int, m.deadzone as int);
    lemma_dezoned_in_range(axis_reading(p.axes@, m.roll) as int, m.deadzone as int);
    lemma_dezoned_in_range(axis_reading(p.axes@, m.pitch) as int, m.deadzone as int);
    lemma_dezoned_in_range(axis_reading(p.axes@, m.cam_yaw) as int, m.deadzone as int);
    lemma_dezoned_in_range(axis_reading(p.axes@, m.cam_pitch) as int, m.deadzone as int);
    lemma_dezoned_in_range(trigger_reading(p.triggers@, m.throttle_fwd) as int, m.deadzone as int);
    lemma_dezoned_in_range(trigger_reading(p.triggers@, m.throttle_rev) as int, m.deadzone as int);
}

proof fn lemma_dezoned_in_range(value: int, deadzone: int)
    ensures
        -1_000_000 <= dezoned(value, deadzone) <= 1_000_000,
{
    let dz = effective_deadzone(deadzone);
    let mag = magnitude(value);
    if mag > dz {
        vstd::arithmetic::div_mod::lemma_div_pos_is_pos((mag - dz) * FULL, FULL - dz);
    }
}

/// No controller is no input.
pub proof fn lemma_no_controller_is_at_rest()
    ensures
        ({
            let s = inert();
            &&& !s.connected && s.steer == 0 && s.roll == 0 && s.pitch == 0 && s.yaw == 0
                && s.throttle == 0 && s.throttle_fwd == 0 && s.throttle_rev == 0 && s.cam_yaw == 0
                && s.cam_pitch == 0
            &&& !s.brake && !s.sas_toggle && !s.throttle_max && !s.throttle_zero && !s.zoom_in
                && !s.zoom_out && !s.pause && !s.back
        }),
{
}

/// A stick at its end turns the view by two and a half radians in a second, against the
/// stick, and in proportion for less of either. The tilt stops at its limit and the turn
/// goes on; opposite sticks undo one another while the tilt is within its limit.
pub proof fn lemma_free_look_turns_against_the_stick(
    l: ChaseLook,
    cam_yaw: int,
    cam_pitch: int,
    dt: int,
)
    requires
        l.wf(),
    ensures
        ({
            let (yaw, pitch) = looked(l, cam_yaw, cam_pitch, dt);
            &&& 2 * (l.yaw - yaw) == 10 * (cam_yaw * dt)
            &&& -2_400_000_000_000 <= pitch <= 2_400_000_000_000
            &&& -2_400_000_000_000 < pitch < 2_400_000_000_000 ==> l.pitch - pitch == 5 * (cam_pitch
                * dt)
            &&& cam_pitch == 0 ==> pitch == l.pitch
            &&& cam_pitch >= 0 && dt >= 0 ==> pitch <= l.pitch
            &&& cam_pitch <= 0 && dt >= 0 ==> pitch >= l.pitch
        }),
{
    assert(cam_pitch >= 0 && dt >= 0 ==> cam_pitch * dt >= 0) by (nonlinear_arith);
    assert(cam_pitch <= 0 && dt >= 0 ==> cam_pitch * dt <= 0) by (nonlinear_arith);
    assert(cam_pitch == 0 ==> cam_pitch * dt == 0) by (nonlinear_arith);
}

} // verus!
