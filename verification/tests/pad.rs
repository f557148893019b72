use sounding::gamepad::accumulate_chase_look;
use sounding::gamepad::apply_deadzone;
use sounding::gamepad::ChaseLook;
use sounding::gamepad::GamepadAxis;
use sounding::gamepad::GamepadButton;
use sounding::gamepad::GamepadMap;
use sounding::gamepad::Pad;
use sounding::gamepad::PadSample;
use sounding::gamepad::PITCH_LIMIT;

/// A fraction in millionths.
fn m(v: f64) -> i32 {
    (v * 1e6).round() as i32
}

#[test]
fn deadzone_zeroes_small_inputs() {
    assert_eq!(apply_deadzone(m(0.0), m(0.12)), 0);
    assert_eq!(apply_deadzone(m(0.05), m(0.12)), 0);
    assert_eq!(apply_deadzone(m(-0.12), m(0.12)), 0);
}

#[test]
fn deadzone_is_proportional_and_sign_preserving_outside() {
    let small = apply_deadzone(m(0.13), m(0.12));
    assert!(small > 0 && small < m(0.05), "got {small}");
    let mid = apply_deadzone(m(0.56), m(0.12));
    assert!(mid > 0 && mid < m(1.0), "got {mid}");
    assert!(apply_deadzone(m(-0.56), m(0.12)) < 0);
    assert!(apply_deadzone(m(0.8), m(0.12)) > mid);
}

#[test]
fn deadzone_saturates_at_one() {
    assert_eq!(apply_deadzone(m(1.0), m(0.12)), m(1.0));
    assert_eq!(apply_deadzone(m(-1.0), m(0.12)), m(-1.0));
    assert_eq!(apply_deadzone(m(1.4), m(0.12)), m(1.0));
}

#[test]
fn deadzone_zero_is_identity_clamped() {
    assert_eq!(apply_deadzone(m(0.5), 0), m(0.5));
    assert_eq!(apply_deadzone(m(0.5), m(1.0)), m(0.5));
}

#[test]
fn default_map_is_sane_and_covers_every_intent() {
    let map = GamepadMap::default();
    assert!(map.deadzone > 0 && map.deadzone < m(0.5));
    assert_ne!(map.throttle_fwd, map.throttle_rev);
    assert_ne!(map.throttle_max, map.throttle_zero);
    assert_ne!(map.cam_zoom_in, map.cam_zoom_out);
    assert_ne!(map.yaw_left, map.yaw_right);
    assert_ne!(map.brake, map.sas_toggle);
    assert_ne!(map.steer, map.pitch);
    assert_ne!(map.pause, map.back);
}

#[test]
fn chase_look_accumulates_and_clamps_pitch() {
    let mut look = ChaseLook::default();
    look.accumulate(m(1.0), 0, 100_000);
    assert!(look.yaw < 0 && look.pitch == 0);
    for _ in 0..100 {
        look.accumulate(0, m(1.0), 100_000);
    }
    assert_eq!(look.pitch, -PITCH_LIMIT);
    look.reset();
    assert_eq!(look.yaw, 0);
    assert_eq!(look.pitch, 0);
}

#[test]
fn no_controller_samples_inert() {
    let s = PadSample::default();
    assert!(!s.connected);
    assert_eq!(s.throttle, 0);
    assert!(!s.brake && !s.sas_toggle);
    assert!(!PadSample::active(s.steer));
    assert_eq!(GamepadMap::default().sample(&vec![]), s);
}

#[test]
fn a_controller_is_read_through_its_map() {
    let map = GamepadMap::default();
    let pad = Pad {
        axes: vec![(map.steer, m(1.0)), (GamepadAxis::RightStickY, m(0.01))],
        triggers: vec![(map.throttle_fwd, m(1.0))],
        pressed: vec![map.brake],
        just_pressed: vec![map.pause],
    };
    let s = map.sample(&vec![pad]);
    assert!(s.connected && s.brake && s.pause && !s.sas_toggle);
    assert_eq!(s.throttle, m(1.0));
    assert!(PadSample::active(s.steer));
    assert_ne!(map.brake, GamepadButton::Start);
}

#[test]
fn an_idle_stick_leaves_the_view() {
    let mut look = ChaseLook::default();
    look.accumulate(m(1.0), 0, 100_000);
    let before = look.yaw;
    accumulate_chase_look(&PadSample::default(), 100_000, &mut look);
    assert_eq!(look.yaw, before);
    let pad = PadSample {
        connected: true,
        cam_yaw: m(1.0),
        ..PadSample::default()
    };
    accumulate_chase_look(&pad, 100_000, &mut look);
    assert_eq!(look.yaw, 2 * before);
}
