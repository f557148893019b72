//! The cameras' controls.
//!
//! Angles are millionths of a radian, distances micrometres, mouse motion
//! thousandths of a pixel and scrolling thousandths of a line.

use crate::flight::axis;
use crate::flight::push_of;
use crate::gamepad::PadSample;
use crate::input::KeyCode;
use crate::input::Keyboard;
use crate::input::Mouse;
use crate::input::MouseButton;
use vstd::prelude::*;

verus! {

/// An orbiting camera.
#[derive(Clone, Copy, Debug, PartialEq, Eq, Structural)]
pub struct OrbitFollowCam {
    pub yaw: i64,
    pub pitch: i64,
    pub dist: i64,
}

/// How a camera feels: what a thousandth of a pixel turns and tilts it by, how far
/// it tilts, what a thousandth of a line zooms it by (in hundred-thousandths of its
/// distance), and how near and how far it goes.
#[derive(Clone, Copy, Debug, PartialEq, Eq, Structural)]
pub struct Feel {
    pub turn: i64,
    pub tilt: i64,
    pub pitch_limit: i64,
    pub zoom: i64,
    pub dist_min: i64,
    pub dist_max: i64,
}

impl Feel {
    /// Whether the limits leave room, and the zoom is one that can be worked out.
    pub open spec fn wf(self) -> bool {
        &&& 0 <= self.pitch_limit
        &&& self.dist_min <= self.dist_max
        &&& -0x1_0000_0000 <= self.zoom <= 0x1_0000_0000
    }
}

/// The editor's camera.
pub fn editor_feel() -> (f: Feel)
    ensures
        f.wf(),
        f == (Feel {
            turn: 10,
            tilt: 10,
            pitch_limit: 1_400_000,
            zoom: 10,
            dist_min: 200_000,
            dist_max: 80_000_000,
        }),
{
    Feel {
        turn: 10,
        tilt: 10,
        pitch_limit: 1_400_000,
        zoom: 10,
        dist_min: 200_000,
        dist_max: 80_000_000,
    }
}

/// The dive's camera.
pub fn dive_feel() -> (f: Feel)
    ensures
        f.wf(),
        f == (Feel {
            turn: 10,
            tilt: 10,
            pitch_limit: 1_400_000,
            zoom: 10,
            dist_min: 5_000_000,
            dist_max: 2_000_000_000,
        }),
{
    Feel {
        turn: 10,
        tilt: 10,
        pitch_limit: 1_400_000,
        zoom: 10,
        dist_min: 5_000_000,
        dist_max: 2_000_000_000,
    }
}

/// The harbor's camera: it turns the other way.
pub fn harbor_feel() -> (f: Feel)
    ensures
        f.wf(),
        f == (Feel {
            turn: -10i64,
            tilt: 10,
            pitch_limit: 1_300_000,
            zoom: 10,
            dist_min: 6_000_000,
            dist_max: 600_000_000,
        }),
{
    Feel {
        turn: -10,
        tilt: 10,
        pitch_limit: 1_300_000,
        zoom: 10,
        dist_min: 6_000_000,
        dist_max: 600_000_000,
    }
}

/// The gallery's camera.
pub fn gallery_feel() -> (f: Feel)
    ensures
        f.wf(),
        f == (Feel {
            turn: -6i64,
            tilt: 6,
            pitch_limit: 1_400_000,
            zoom: 12,
            dist_min: 1_500_000,
            dist_max: 40_000_000,
        }),
{
    Feel {
        turn: -6,
        tilt: 6,
        pitch_limit: 1_400_000,
        zoom: 12,
        dist_min: 1_500_000,
        dist_max: 40_000_000,
    }
}

/// The body viewer's camera.
pub fn bodies_feel() -> (f: Feel)
    ensures
        f.wf(),
        f == (Feel {
            turn: -6i64,
            tilt: 6,
            pitch_limit: 1_400_000,
            zoom: 12,
            dist_min: 2_500_000,
            dist_max: 20_000_000,
        }),
{
    Feel {
        turn: -6,
        tilt: 6,
        pitch_limit: 1_400_000,
        zoom: 12,
        dist_min: 2_500_000,
        dist_max: 20_000_000,
    }
}

/// Where the editor's camera starts.
pub fn editor_view() -> (c: OrbitFollowCam)
    ensures
        c == (OrbitFollowCam { yaw: 700_000, pitch: 400_000, dist: 3_000_000 }),
{
    OrbitFollowCam { yaw: 700_000, pitch: 400_000, dist: 3_000_000 }
}

/// Where the dive's camera starts: an eighth of a turn round the craft.
pub fn dive_view() -> (c: OrbitFollowCam)
    ensures
        c == (OrbitFollowCam { yaw: 785_398, pitch: 305_000, dist: 26_683_000 }),
{
    OrbitFollowCam { yaw: 785_398, pitch: 305_000, dist: 26_683_000 }
}

/// Where the harbour's camera starts.
pub fn harbor_view() -> (c: OrbitFollowCam)
    ensures
        c == (OrbitFollowCam { yaw: 785_398, pitch: 300_000, dist: 22_000_000 }),
{
    OrbitFollowCam { yaw: 785_398, pitch: 300_000, dist: 22_000_000 }
}

/// A number held within bounds.
pub open spec fn clamped(v: int, lo: int, hi: int) -> int {
    if v < lo {
        lo
    } else if v > hi {
        hi
    } else {
        v
    }
}

/// A distance after a scroll: it changes by a share of itself.
pub open spec fn zoomed(dist: int, scroll: int, f: Feel) -> int {
    clamped(
        dist * (100_000 - f.zoom * scroll) / 100_000,
        f.dist_min as int,
        f.dist_max as int,
    )
}

/// The camera after a frame: a drag with the middle button orbits, the wheel
/// zooms.
pub open spec fn orbited(
    cam: OrbitFollowCam,
    f: Feel,
    dragging: bool,
    dx: int,
    dy: int,
    scroll: int,
) -> OrbitFollowCam {
    OrbitFollowCam {
        yaw: (if dragging {
            cam.yaw + f.turn * dx
        } else {
            cam.yaw as int
        }) as i64,
        pitch: (if dragging {
            clamped(cam.pitch + f.tilt * dy, -f.pitch_limit, f.pitch_limit as int)
        } else {
            cam.pitch as int
        }) as i64,
        dist: (if scroll != 0 {
            zoomed(cam.dist as int, scroll, f)
        } else {
            cam.dist as int
        }) as i64,
    }
}

/// A number held within bounds that are in order.
fn held_within(v: i128, lo: i64, hi: i64) -> (c: i64)
    requires
        lo <= hi,
    ensures
        c == clamped(v as int, lo as int, hi as int),
{
    if v < lo as i128 {
        lo
    } else if v > hi as i128 {
        hi
    } else {
        v as i64
    }
}

/// Orbits and zooms a camera.
pub fn orbit_follow_input(
    cam: &mut OrbitFollowCam,
    f: &Feel,
    mouse: &Mouse,
    dx: i32,
    dy: i32,
    scroll: i32,
)
    requires
        f.wf(),
        mouse.held(MouseButton::Middle) ==> i64::MIN <= old(cam).yaw + f.turn * dx <= i64::MAX,
    ensures
        *final(cam) == orbited(
            *old(cam),
            *f,
            mouse.held(MouseButton::Middle),
            dx as int,
            dy as int,
            scroll as int,
        ),
{
    if mouse.pressed(MouseButton::Middle) {
        let (turn, tx): (i128, i128) = (f.turn as i128, dx as i128);
        let (tilt, ty): (i128, i128) = (f.tilt as i128, dy as i128);
        proof {
            lemma_product_fits(turn as int, tx as int, 0x8000_0000_0000_0000, 0x8000_0000);
            lemma_product_fits(tilt as int, ty as int, 0x8000_0000_0000_0000, 0x8000_0000);
        }
        cam.yaw = (cam.yaw as i128 + turn * tx) as i64;
        cam.pitch = held_within(cam.pitch as i128 + tilt * ty, -f.pitch_limit, f.pitch_limit);
    }
    if scroll != 0 {
        let (zoom, s): (i128, i128) = (f.zoom as i128, scroll as i128);
        proof {
            lemma_product_fits(zoom as int, s as int, 0x1_0000_0000, 0x8000_0000);
        }
        let rate: i128 = 100_000 - zoom * s;
        let dist: i128 = cam.dist as i128;
        proof {
            lemma_product_fits(
                dist as int,
                rate as int,
                0x8000_0000_0000_0000,
                0x8000_0000_0001_86a0,
            );
        }
        let n: i128 = dist * rate;
        let q: i128 = if n < 0 {
            -((99_999 - n) / 100_000)
        } else {
            n / 100_000
        };
        cam.dist = held_within(q, f.dist_min, f.dist_max);
    }
}

/// The product of two bounded numbers is bounded.
proof fn lemma_product_fits(a: int, b: int, m: int, n: int)
    requires
        -m <= a <= m,
        -n <= b <= n,
    ensures
        -(m * n) <= a * b <= m * n,
{
    assert(-(m * n) <= a * b <= m * n) by (nonlinear_arith)
        requires
            -m <= a <= m,
            -n <= b <= n,
    ;
}

/// A camera stays within its limits, whatever the mouse does.
pub proof fn lemma_camera_stays_in_limits(
    cam: OrbitFollowCam,
    f: Feel,
    dragging: bool,
    dx: int,
    dy: int,
    scroll: int,
)
    requires
        f.wf(),
        -f.pitch_limit <= cam.pitch <= f.pitch_limit,
        f.dist_min <= cam.dist <= f.dist_max,
    ensures
        ({
            let c = orbited(cam, f, dragging, dx, dy, scroll);
            -f.pitch_limit <= c.pitch <= f.pitch_limit && f.dist_min <= c.dist <= f.dist_max
        }),
{
}

/// Without a drag and a scroll a camera rests.
pub proof fn lemma_idle_mouse_leaves_the_camera(cam: OrbitFollowCam, f: Feel, dx: int, dy: int)
    ensures
        orbited(cam, f, false, dx, dy, 0) == cam,
{
}

/// How near the editor's camera comes.
pub const EDITOR_NEAR: i64 = 200_000;

/// How far the editor's camera goes.
pub const EDITOR_FAR: i64 = 80_000_000;

/// How far the editor's camera tilts.
pub const EDITOR_TILT: i64 = 1_400_000;

/// A distance after a zoom in, in which one and a half times the distance goes by
/// in a second, and a zoom out, at twelve metres per second, if they are asked
/// for; the time is in millionths of a second.
pub open spec fn keyed_zoom(dist: int, inward: bool, outward: bool, dt: int) -> int {
    let nearer = if inward {
        clamped(dist - 3 * dist * dt / 2_000_000, EDITOR_NEAR as int, EDITOR_FAR as int)
    } else {
        dist
    };
    if outward {
        clamped(nearer + 12 * dt, EDITOR_NEAR as int, EDITOR_FAR as int)
    } else {
        nearer
    }
}

/// A tilt after a change, within the editor's limits.
pub open spec fn tilted(pitch: int, change: int) -> int {
    clamped(pitch + change, -EDITOR_TILT as int, EDITOR_TILT as int)
}

/// What a stick turns by in a time, at two radians per second when it is at its
/// end.
pub open spec fn stick_turn(stick: int, dt: int) -> int {
    if stick >= 0 {
        2 * stick * dt / 1_000_000
    } else {
        -(2 * (-stick) * dt / 1_000_000)
    }
}

/// The editor's camera after a frame: its keys first, then the gamepad.
pub open spec fn keyed_orbit(
    cam: OrbitFollowCam,
    keys: Keyboard,
    pad: PadSample,
    dt: int,
) -> (int, int, int) {
    let raised = if keys.held(KeyCode::KeyR) {
        tilted(cam.pitch as int, dt)
    } else {
        cam.pitch as int
    };
    let lowered = if keys.held(KeyCode::KeyF) {
        tilted(raised, -dt)
    } else {
        raised
    };
    (
        cam.yaw + dt * push_of(keys, KeyCode::KeyQ, KeyCode::KeyE) - stick_turn(
            pad.cam_yaw as int,
            dt,
        ),
        tilted(lowered, -stick_turn(pad.cam_pitch as int, dt)),
        keyed_zoom(
            keyed_zoom(cam.dist as int, keys.held(KeyCode::KeyZ), keys.held(KeyCode::KeyC), dt),
            pad.zoom_in,
            pad.zoom_out,
            dt,
        ),
    )
}

/// Zooms within the editor's limits.
fn zoom(dist: i64, inward: bool, outward: bool, dt: u32) -> (r: i64)
    requires
        EDITOR_NEAR <= dist <= EDITOR_FAR,
    ensures
        r == keyed_zoom(dist as int, inward, outward, dt as int),
        EDITOR_NEAR <= r <= EDITOR_FAR,
{
    let t: i64 = dt as i64;
    let mut d: i64 = dist;
    if inward {
        assert(0 <= 3 * dist * t <= 3 * 80_000_000 * 0xffff_ffff) by (nonlinear_arith)
            requires
                0 <= dist <= 80_000_000,
                0 <= t <= 0xffff_ffff,
        ;
        assert(3 * dist <= 3 * 80_000_000);
        d = d - 3 * d * t / 2_000_000;
        if d < EDITOR_NEAR {
            d = EDITOR_NEAR;
        }
    }
    if outward {
        d = d + 12 * t;
        if d > EDITOR_FAR {
            d = EDITOR_FAR;
        }
    }
    d
}

/// Tilts within the editor's limits.
fn tilt(pitch: i64, change: i64) -> (r: i64)
    requires
        -EDITOR_TILT <= pitch <= EDITOR_TILT,
        -0x4_0000_0000 <= change <= 0x4_0000_0000,
    ensures
        r == tilted(pitch as int, change as int),
        -EDITOR_TILT <= r <= EDITOR_TILT,
{
    let p: i64 = pitch + change;
    if p < -EDITOR_TILT {
        -EDITOR_TILT
    } else if p > EDITOR_TILT {
        EDITOR_TILT
    } else {
        p
    }
}

/// What a stick turns by.
fn turn_by(stick: i32, dt: u32) -> (r: i64)
    requires
        -1_000_000 <= stick <= 1_000_000,
    ensures
        r == stick_turn(stick as int, dt as int),
        -2 * dt <= r <= 2 * dt,
{
    let t: i64 = dt as i64;
    let size: i64 = if stick >= 0 {
        stick as i64
    } else {
        -(stick as i64)
    };
    assert(0 <= 2 * size * t <= 2_000_000 * t) by (nonlinear_arith)
        requires
            0 <= size <= 1_000_000,
            t >= 0,
    ;
    let r: i64 = 2 * size * t / 1_000_000;
    if stick >= 0 {
        r
    } else {
        -r
    }
}

/// Orbits the editor's camera: `Q` and `E` turn it, `R` and `F` tilt it, `Z` and
/// `C` zoom it, and so does a gamepad; the time is in millionths of a second.
pub fn orbit_camera(cam: &mut OrbitFollowCam, keys: &Keyboard, pad: &PadSample, dt: u32)
    requires
        i64::MIN <= old(cam).yaw - 3 * dt,
        old(cam).yaw + 3 * dt <= i64::MAX,
        -EDITOR_TILT <= old(cam).pitch <= EDITOR_TILT,
        EDITOR_NEAR <= old(cam).dist <= EDITOR_FAR,
        -1_000_000 <= pad.cam_yaw <= 1_000_000,
        -1_000_000 <= pad.cam_pitch <= 1_000_000,
    ensures
        (final(cam).yaw as int, final(cam).pitch as int, final(cam).dist as int) == keyed_orbit(
            *old(cam),
            *keys,
            *pad,
            dt as int,
        ),
        -EDITOR_TILT <= final(cam).pitch <= EDITOR_TILT,
        EDITOR_NEAR <= final(cam).dist <= EDITOR_FAR,
{
    let t: i64 = dt as i64;
    let ghost start = *cam;
    let push: i64 = axis(keys, KeyCode::KeyQ, KeyCode::KeyE) as i64;
    assert(-t <= t * push <= t) by (nonlinear_arith)
        requires
            -1 <= push <= 1,
            t >= 0,
    ;
    cam.yaw = cam.yaw + t * push;
    if keys.pressed(KeyCode::KeyR) {
        cam.pitch = tilt(cam.pitch, t);
    }
    if keys.pressed(KeyCode::KeyF) {
        cam.pitch = tilt(cam.pitch, -t);
    }
    cam.dist = zoom(cam.dist, keys.pressed(KeyCode::KeyZ), keys.pressed(KeyCode::KeyC), dt);
    cam.yaw = cam.yaw - turn_by(pad.cam_yaw, dt);
    cam.pitch = tilt(cam.pitch, -turn_by(pad.cam_pitch, dt));
    cam.dist = zoom(cam.dist, pad.zoom_in, pad.zoom_out, dt);
}

/// A free-flying camera's keys: how it turns and tilts, and how it moves forward,
/// to the right and up; each -1, 0 or 1.
#[derive(Clone, Copy, Debug, PartialEq, Eq, Structural)]
pub struct FlyInput {
    pub yaw: i32,
    pub pitch: i32,
    pub forward: i32,
    pub right: i32,
    pub up: i32,
}

/// What a free-flying camera's keys ask for: its turn, its tilt, and its way forward, to
/// the right and up.
pub open spec fn flown(keys: Keyboard) -> (int, int, int, int, int) {
    (
        push_of(keys, KeyCode::ArrowLeft, KeyCode::ArrowRight),
        push_of(keys, KeyCode::ArrowUp, KeyCode::ArrowDown),
        push_of(keys, KeyCode::KeyW, KeyCode::KeyS),
        push_of(keys, KeyCode::KeyD, KeyCode::KeyA),
        push_of(keys, KeyCode::KeyR, KeyCode::KeyF),
    )
}

/// Reads a free-flying camera's keys.
pub fn fly_camera(keys: &Keyboard) -> (f: FlyInput)
    ensures
        f.yaw == push_of(*keys, KeyCode::ArrowLeft, KeyCode::ArrowRight),
        f.pitch == push_of(*keys, KeyCode::ArrowUp, KeyCode::ArrowDown),
        f.forward == push_of(*keys, KeyCode::KeyW, KeyCode::KeyS),
        f.right == push_of(*keys, KeyCode::KeyD, KeyCode::KeyA),
        f.up == push_of(*keys, KeyCode::KeyR, KeyCode::KeyF),
        (f.yaw as int, f.pitch as int, f.forward as int, f.right as int, f.up as int) == flown(
            *keys,
        ),
{
    FlyInput {
        yaw: axis(keys, KeyCode::ArrowLeft, KeyCode::ArrowRight),
        pitch: axis(keys, KeyCode::ArrowUp, KeyCode::ArrowDown),
        forward: axis(keys, KeyCode::KeyW, KeyCode::KeyS),
        right: axis(keys, KeyCode::KeyD, KeyCode::KeyA),
        up: axis(keys, KeyCode::KeyR, KeyCode::KeyF),
    }
}

/// The speed of a free-flying camera, in millimetres per second: six tenths of its
/// height per second, within bounds.
pub open spec fn fly_speed_of(height: int, top: int) -> int {
    let h = if height < 1_000 {
        1_000
    } else {
        height
    };
    clamped(6 * h / 10, 5_000, top)
}

/// The speed of a free-flying camera at a height, both in millimetres (per
/// second).
pub fn fly_speed(height: i64, top: i64) -> (v: i64)
    requires
        5_000 <= top,
    ensures
        v == fly_speed_of(height as int, top as int),
        5_000 <= v <= top,
{
    let h: i128 = if height < 1_000 {
        1_000
    } else {
        height as i128
    };
    held_within(6 * h / 10, 5_000, top)
}

/// Whether the sun stands still: `P` stops it and lets it go again.
pub fn toggle_sun(keys: &Keyboard, paused: bool) -> (p: bool)
    ensures
        p == (paused != keys.tapped(KeyCode::KeyP)),
{
    paused != keys.just_pressed(KeyCode::KeyP)
}

/// A drag turns a camera by what its feel says for the pixels, and tilts it likewise up to
/// the limit; without a drag neither changes. Scrolling changes the distance alone.
pub proof fn lemma_a_drag_orbits(
    cam: OrbitFollowCam,
    f: Feel,
    dx: int,
    dy: int,
    scroll: int,
)
    requires
        f.wf(),
        -f.pitch_limit <= cam.pitch <= f.pitch_limit,
        f.dist_min <= cam.dist <= f.dist_max,
        i64::MIN <= cam.yaw + f.turn * dx <= i64::MAX,
    ensures
        ({
            let c = orbited(cam, f, true, dx, dy, scroll);
            let still = orbited(cam, f, false, dx, dy, scroll);
            &&& c.yaw - cam.yaw == f.turn * dx
            &&& -f.pitch_limit < c.pitch < f.pitch_limit ==> c.pitch - cam.pitch == f.tilt * dy
            &&& f.tilt * dy >= 0 ==> c.pitch >= cam.pitch
            &&& f.tilt * dy <= 0 ==> c.pitch <= cam.pitch
            &&& still.yaw == cam.yaw && still.pitch == cam.pitch && still.dist == c.dist
            &&& scroll == 0 ==> c.dist == cam.dist
        }),
{
}

/// Scrolling on brings a camera nearer and scrolling back takes it away, by its feel's share
/// of the distance for each line, within its bounds.
pub proof fn lemma_scrolling_zooms(dist: int, scroll: int, f: Feel)
    requires
        f.wf(),
        f.zoom >= 0,
        0 <= f.dist_min <= dist <= f.dist_max,
    ensures
        ({
            let d = zoomed(dist, scroll, f);
            &&& f.dist_min <= d <= f.dist_max
            &&& scroll >= 0 ==> d <= dist
            &&& scroll <= 0 ==> d >= dist
            &&& f.dist_min < d < f.dist_max ==> d * 100_000 <= dist * 100_000 - dist * (f.zoom
                * scroll) < (d + 1) * 100_000
        }),
{
    let z = f.zoom * scroll;
    assert(dist * (100_000 - z) == dist * 100_000 - dist * z) by (nonlinear_arith);
    assert(scroll >= 0 ==> z >= 0) by (nonlinear_arith)
        requires
            z == f.zoom * scroll,
            f.zoom >= 0,
    ;
    assert(scroll <= 0 ==> z <= 0) by (nonlinear_arith)
        requires
            z == f.zoom * scroll,
            f.zoom >= 0,
    ;
    assert(z >= 0 ==> dist * z >= 0) by (nonlinear_arith)
        requires
            dist >= 0,
    ;
    assert(z <= 0 ==> dist * z <= 0) by (nonlinear_arith)
        requires
            dist >= 0,
    ;
}

/// A number held within bounds is within them, and is the number itself if that is.
pub proof fn lemma_held_within(v: int, lo: int, hi: int)
    requires
        lo <= hi,
    ensures
        lo <= clamped(v, lo, hi) <= hi,
        lo <= v <= hi ==> clamped(v, lo, hi) == v,
        v < lo ==> clamped(v, lo, hi) == lo,
        v > hi ==> clamped(v, lo, hi) == hi,
{
}

/// The editor's camera keys. `Q` turns one way and `E` the other, a radian a second; `R`
/// alone raises it and `F` alone lowers it as fast, within the limit; `Z` brings it nearer
/// and `C` takes it away. Without any, and without a pad, it rests.
pub proof fn lemma_camera_keys(cam: OrbitFollowCam, keys: Keyboard, pad: PadSample, dt: int)
    requires
        pad.cam_yaw == 0 && pad.cam_pitch == 0 && !pad.zoom_in && !pad.zoom_out,
        0 <= dt,
        -1_400_000 <= cam.pitch <= 1_400_000,
        200_000 <= cam.dist <= 80_000_000,
    ensures
        ({
            let (yaw, pitch, dist) = keyed_orbit(cam, keys, pad, dt);
            let (q, e) = (keys.held(KeyCode::KeyQ), keys.held(KeyCode::KeyE));
            let (r, f) = (keys.held(KeyCode::KeyR), keys.held(KeyCode::KeyF));
            let (z, c) = (keys.held(KeyCode::KeyZ), keys.held(KeyCode::KeyC));
            &&& q && !e ==> yaw - cam.yaw == dt
            &&& e && !q ==> cam.yaw - yaw == dt
            &&& q == e ==> yaw == cam.yaw
            &&& r && !f ==> pitch - cam.pitch == dt || (pitch == 1_400_000 && pitch - cam.pitch
                < dt)
            &&& f && !r ==> cam.pitch - pitch == dt || (pitch == -1_400_000 && cam.pitch - pitch
                < dt)
            &&& !r && !f ==> pitch == cam.pitch
            &&& !z && !c ==> dist == cam.dist
            &&& c && !z ==> dist - cam.dist == 12 * dt || (dist == 80_000_000 && dist - cam.dist
                < 12 * dt)
            &&& z && !c ==> dist <= cam.dist
            &&& z && !c && dist > 200_000 ==> 2_000_000 * (cam.dist - dist) <= 3 * cam.dist * dt
                < 2_000_000 * (cam.dist - dist + 1)
            &&& -1_400_000 <= pitch <= 1_400_000 && 200_000 <= dist <= 80_000_000
        }),
{
    let d = cam.dist as int;
    assert(2 * 0 * dt == 0) by (nonlinear_arith);
    let push = push_of(keys, KeyCode::KeyQ, KeyCode::KeyE);
    assert(push == 1 ==> dt * push == dt) by (nonlinear_arith);
    assert(push == -1 ==> dt * push == -dt) by (nonlinear_arith);
    assert(push == 0 ==> dt * push == 0) by (nonlinear_arith);
    assert(0 <= 3 * d * dt) by (nonlinear_arith)
        requires
            d >= 0,
            dt >= 0,
    ;
}

/// A stick turns by two radians a second at its end, in proportion for less, and the other
/// way for the other side.
pub proof fn lemma_a_stick_turns_in_proportion(stick: int, dt: int)
    requires
        0 <= stick <= 1_000_000,
        dt >= 0,
    ensures
        stick_turn(stick, dt) * 1_000_000 <= 2 * stick * dt < (stick_turn(stick, dt) + 1)
            * 1_000_000,
        stick_turn(-stick, dt) == -stick_turn(stick, dt),
        stick_turn(0, dt) == 0,
        stick_turn(1_000_000, dt) == 2 * dt,
{
    assert(2 * 0 * dt == 0) by (nonlinear_arith);
    assert(2 * 1_000_000 * dt == 2 * dt * 1_000_000) by (nonlinear_arith);
}

/// A pad's stick turns and tilts the editor's camera against itself, and its two zoom
/// buttons zoom as the keys do.
pub proof fn lemma_camera_pad(cam: OrbitFollowCam, keys: Keyboard, pad: PadSample, dt: int)
    requires
        forall|k: KeyCode| !#[trigger] keys.held(k),
        -1_400_000 <= cam.pitch <= 1_400_000,
    ensures
        ({
            let (yaw, pitch, dist) = keyed_orbit(cam, keys, pad, dt);
            &&& cam.yaw - yaw == stick_turn(pad.cam_yaw as int, dt)
            &&& -1_400_000 < pitch < 1_400_000 ==> cam.pitch - pitch == stick_turn(
                pad.cam_pitch as int,
                dt,
            )
            &&& dist == keyed_zoom(cam.dist as int, pad.zoom_in, pad.zoom_out, dt)
        }),
{
    assert(dt * 0 == 0) by (nonlinear_arith);
}

/// The free-flying camera's keys: the arrows turn to the left and the right and tilt up and
/// down, `W` and `S` go forward and back, `D` and `A` to the right and the left, and `R` and
/// `F` up and down.
pub proof fn lemma_flying_keys(keys: Keyboard)
    ensures
        ({
            let f = flown(keys);
            &&& f.0 == 1 <==> keys.held(KeyCode::ArrowLeft) && !keys.held(KeyCode::ArrowRight)
            &&& f.0 == -1 <==> keys.held(KeyCode::ArrowRight) && !keys.held(KeyCode::ArrowLeft)
            &&& f.1 == 1 <==> keys.held(KeyCode::ArrowUp) && !keys.held(KeyCode::ArrowDown)
            &&& f.1 == -1 <==> keys.held(KeyCode::ArrowDown) && !keys.held(KeyCode::ArrowUp)
            &&& f.2 == 1 <==> keys.held(KeyCode::KeyW) && !keys.held(KeyCode::KeyS)
            &&& f.2 == -1 <==> keys.held(KeyCode::KeyS) && !keys.held(KeyCode::KeyW)
            &&& f.3 == 1 <==> keys.held(KeyCode::KeyD) && !keys.held(KeyCode::KeyA)
            &&& f.3 == -1 <==> keys.held(KeyCode::KeyA) && !keys.held(KeyCode::KeyD)
            &&& f.4 == 1 <==> keys.held(KeyCode::KeyR) && !keys.held(KeyCode::KeyF)
            &&& f.4 == -1 <==> keys.held(KeyCode::KeyF) && !keys.held(KeyCode::KeyR)
        }),
{
}

/// A free-flying camera goes six tenths of its height in a second, never slower than five
/// metres and never faster than its top.
pub proof fn lemma_flying_is_faster_higher_up(height: int, higher: int, top: int)
    requires
        5_000 <= top,
        height <= higher,
    ensures
        5_000 <= fly_speed_of(height, top) <= fly_speed_of(higher, top) <= top,
        5_000 < fly_speed_of(height, top) < top ==> 10 * fly_speed_of(height, top) <= 6 * height
            < 10 * (fly_speed_of(height, top) + 1),
{
}

} // verus!
