use sounding::craft_library::CraftLibraryModal;
use sounding::input::KeyCode;
use sounding::input::Keyboard;
use sounding::overlay::telemetry_tick;
use sounding::overlay::update_overlay;
use sounding::overlay::CockpitOverlay;
use sounding::overlay::RoverReading;
use sounding::overlay::RoverSignal;
use sounding::overlay::StreamStats;
use sounding::overlay::SurfStat;
use sounding::overlay::TELEMETRY_SAMPLE_EVERY;
use sounding::pause::frame_step_dt;
use sounding::pause::paused_banner;
use sounding::pause::step_scene;
use sounding::pause::toggle_pause;
use sounding::pause::FrameStep;
use sounding::pause::SimClock;
use sounding::pause::STEP_CHUNK_TICKS;
use sounding::readout::field;
use sounding::readout::show;
use sounding::readout::Field;
use sounding::replay::apply_replay;
use sounding::replay::apply_replay_commands;
use sounding::replay::record_replay;
use sounding::replay::replay_keys;
use sounding::replay::Pose;
use sounding::replay::ReplayCam;
use sounding::replay::ReplayCommand;
use sounding::replay::REPLAY_CAP;
use sounding::sparkline::apply_bars;
use sounding::sparkline::Bar;
use sounding::sparkline::Sparkline;
use sounding::stepping::Substeps;

/// A bar's height as a fraction.
fn height(bar: &Bar) -> f32 {
    match bar {
        Bar::Flat => 0.0,
        Bar::Ratio { value, scale } => f32::from_bits(*value) / f32::from_bits(*scale),
    }
}

fn push(s: &mut Sparkline, v: f32) {
    s.push(v.to_bits());
}

fn tapped(key: KeyCode) -> Keyboard {
    let mut keys = Keyboard::new();
    keys.press(key);
    keys
}

#[test]
fn empty_and_nearzero_bars_are_zero() {
    let mut s = Sparkline::new(4);
    assert!(s.bars().iter().all(|b| height(b) == 0.0));
    for _ in 0..4 {
        push(&mut s, 0.0);
    }
    assert!(s.bars().iter().all(|b| height(b) == 0.0), "flat zero, no bars");
}

#[test]
fn spike_scales_to_one_and_others_shrink() {
    let mut s = Sparkline::new(4);
    push(&mut s, 1.0);
    push(&mut s, 2.0);
    push(&mut s, 1.0);
    push(&mut s, 1000.0);
    let bars: Vec<f32> = s.bars().iter().map(height).collect();
    assert_eq!(bars.len(), 4);
    assert!((bars[3] - 1.0).abs() < 1e-6, "the spike is full height");
    assert!(
        bars[0] < 0.01 && bars[1] < 0.01,
        "earlier samples shrink under the spike"
    );
    assert_eq!(f32::from_bits(s.latest()), 1000.0);
}

#[test]
fn ring_drops_oldest_and_fills_from_the_right() {
    let mut s = Sparkline::new(3);
    push(&mut s, 5.0);
    push(&mut s, 10.0);
    push(&mut s, 20.0);
    push(&mut s, 40.0);
    let bars: Vec<f32> = s.bars().iter().map(height).collect();
    assert!((bars[0] - 0.25).abs() < 1e-6);
    assert!((bars[1] - 0.5).abs() < 1e-6);
    assert!((bars[2] - 1.0).abs() < 1e-6);
}

#[test]
fn partial_fill_pads_leading_slots_with_zero() {
    let mut s = Sparkline::new(4);
    push(&mut s, 10.0);
    push(&mut s, 20.0);
    let bars: Vec<f32> = s.bars().iter().map(height).collect();
    assert_eq!(bars[0], 0.0);
    assert_eq!(bars[1], 0.0);
    assert!((bars[2] - 0.5).abs() < 1e-6);
    assert!((bars[3] - 1.0).abs() < 1e-6);
}

#[test]
fn non_finite_samples_are_ignored_as_zero() {
    let mut s = Sparkline::new(2);
    push(&mut s, f32::NAN);
    push(&mut s, f32::INFINITY);
    assert!(s.bars().iter().all(|b| height(b) == 0.0));
    assert_eq!(f32::from_bits(s.window_max()), 0.0);
}

#[test]
fn negative_samples_count_as_zero() {
    let mut s = Sparkline::new(2);
    push(&mut s, -3.0);
    push(&mut s, 6.0);
    assert_eq!(f32::from_bits(s.window_max()), 6.0);
    let bars: Vec<f32> = s.bars().iter().map(height).collect();
    assert!(bars[0] <= 0.0);
    assert_eq!(bars[1], 1.0);
}

#[test]
fn a_floor_keeps_small_samples_small() {
    let mut s = Sparkline::new(1);
    push(&mut s, 30.0);
    let bars: Vec<f32> = s.bars_from(60.0f32.to_bits()).iter().map(height).collect();
    assert_eq!(bars, vec![0.5]);
    push(&mut s, 120.0);
    let bars: Vec<f32> = s.bars_from(60.0f32.to_bits()).iter().map(height).collect();
    assert_eq!(bars, vec![1.0], "a peak above the floor is the scale");
}

#[test]
fn bars_go_to_the_slots_that_show_them() {
    let full = Bar::Ratio { value: 1, scale: 1 };
    let bars = vec![Bar::Flat, full];
    assert_eq!(apply_bars(&bars, &vec![1, 0, 7]), vec![full, Bar::Flat, Bar::Flat]);
}

/// The length of a vector.
fn length(v: [f64; 3]) -> f32 {
    (v[0] * v[0] + v[1] * v[1] + v[2] * v[2]).sqrt() as f32
}

/// A rover at five metres per second that does not turn.
fn reading() -> RoverReading {
    RoverReading {
        contact_jitter: 12.5f32.to_bits(),
        speed: length([3.0, 0.0, 4.0]).to_bits(),
        angular_speed: length([0.0, 0.0, 0.0]).to_bits(),
        hull_penetration: 0.04f32.to_bits(),
    }
}

#[test]
fn signals_sample_from_a_snapshot() {
    let r = reading();
    let sample = |s: RoverSignal| f32::from_bits(s.sample(&r));
    assert!((sample(RoverSignal::ContactJitter) - 12.5).abs() < 1e-6);
    assert!((sample(RoverSignal::Speed) - 5.0).abs() < 1e-5);
    assert!((sample(RoverSignal::AngularSpeed)).abs() < 1e-6);
    assert!((sample(RoverSignal::HullPenetration) - 0.04).abs() < 1e-6);
}

#[test]
fn a_sparkline_without_capacity_retains_nothing() {
    let mut s = Sparkline::new(0);
    push(&mut s, 1.0);
    push(&mut s, 2.0);
    assert_eq!(f32::from_bits(s.latest()), 0.0);
    assert_eq!(f32::from_bits(s.window_max()), 0.0);
    assert!(s.bars().is_empty());
}

#[test]
fn overlay_has_a_ring_per_signal() {
    let o = CockpitOverlay::default();
    assert_eq!(o.sparks.len(), RoverSignal::all().len());
}

#[test]
fn the_overlay_samples_a_rover_and_hides_on_its_key() {
    let mut o = CockpitOverlay::default();
    let was = o.visible;
    update_overlay(&Keyboard::new(), &Some(reading()), &mut o);
    let shown: Vec<f32> = o.sparks.iter().map(|s| f32::from_bits(s.latest())).collect();
    assert_eq!(shown, vec![12.5, 5.0, 0.0, 0.04]);
    update_overlay(&Keyboard::new(), &None, &mut o);
    assert!(o.sparks.iter().all(|s| s.latest() == 0));
    assert_eq!(o.visible, was);
    o.toggle(&tapped(KeyCode::F3), KeyCode::F3);
    assert_eq!(o.visible, !was);
}

#[test]
fn stream_statistics_are_counted() {
    let stats = StreamStats {
        live: 5,
        meshing: 2,
        ready: 3,
        uploaded: 1,
    };
    assert_eq!(SurfStat::Fps.count(&stats, 100), None);
    assert_eq!(SurfStat::Chunks.count(&stats, 100), Some(5));
    assert_eq!(SurfStat::Pending.count(&stats, 100), Some(5));
    assert_eq!(SurfStat::Uploads.count(&stats, 100), Some(1));
    let mut frame = 0;
    let due: Vec<bool> = (0..12).map(|_| telemetry_tick(&mut frame)).collect();
    assert_eq!(
        due.iter().filter(|d| **d).count(),
        12 / TELEMETRY_SAMPLE_EVERY as usize
    );
}

#[test]
fn p_key_emits_inverted_setpaused_through_the_command_bus() {
    let emit_for = |paused: bool| {
        let clock = SimClock {
            paused,
            ..Default::default()
        };
        toggle_pause(
            &tapped(KeyCode::KeyP),
            false,
            &clock,
            &CraftLibraryModal::Closed,
        )
    };
    assert_eq!(emit_for(false), Some(true));
    assert_eq!(emit_for(true), Some(false));
}

#[test]
fn frame_step_dt_honours_pause_and_budget() {
    let mut running = SimClock::default();
    assert_ne!(frame_step_dt(&mut running), FrameStep::Frozen);

    let mut paused = SimClock {
        paused: true,
        ..Default::default()
    };
    assert_eq!(frame_step_dt(&mut paused), FrameStep::Frozen);

    paused.step_budget = STEP_CHUNK_TICKS * 5 / 2;
    assert_eq!(
        frame_step_dt(&mut paused),
        FrameStep::Chunk(STEP_CHUNK_TICKS),
        "first chunk is capped"
    );
    assert_ne!(frame_step_dt(&mut paused), FrameStep::Frozen);
    assert_eq!(
        frame_step_dt(&mut paused),
        FrameStep::Chunk(STEP_CHUNK_TICKS / 2),
        "last partial chunk"
    );
    assert_eq!(paused.step_budget, 0, "budget fully drained");
    assert_eq!(frame_step_dt(&mut paused), FrameStep::Frozen, "frozen again");
}

#[test]
fn banner_only_shows_when_paused() {
    let mut clock = SimClock::default();
    assert_eq!(paused_banner(&clock), "");
    clock.paused = true;
    assert!(paused_banner(&clock).contains("PAUSED"));
}

#[test]
fn a_name_being_typed_does_not_pause() {
    let naming = CraftLibraryModal::Naming {
        buffer: String::new(),
        rejected: false,
    };
    let clock = SimClock::default();
    assert_eq!(
        toggle_pause(&tapped(KeyCode::KeyP), true, &clock, &naming),
        None
    );
    assert_eq!(
        toggle_pause(&Keyboard::new(), true, &clock, &CraftLibraryModal::Closed),
        Some(true)
    );
    assert!(!step_scene(&tapped(KeyCode::Period), &clock));
    let paused = SimClock {
        paused: true,
        step_budget: 0,
    };
    assert!(step_scene(&tapped(KeyCode::Period), &paused));
}

fn cam_with(n: usize) -> ReplayCam {
    let mut c = ReplayCam::default();
    for _ in 0..n {
        c.record(vec![]);
    }
    c
}

#[test]
fn ring_is_bounded() {
    let c = cam_with(REPLAY_CAP + 50);
    assert_eq!(c.len(), REPLAY_CAP);
}

#[test]
fn enter_seeks_to_latest_then_scrub_clamps() {
    let mut c = cam_with(10);
    c.enter();
    assert!(c.is_playback());
    assert_eq!(c.cursor(), 9);
    c.scrub(-100);
    assert_eq!(c.cursor(), 0, "scrub clamps at the start");
    c.scrub(100);
    assert_eq!(c.cursor(), 9, "scrub clamps at the end");
    c.exit();
    assert!(!c.is_playback());
}

#[test]
fn seek_fraction_maps_to_the_window() {
    let mut c = cam_with(11);
    c.enter();
    c.seek_fraction(0);
    assert_eq!(c.cursor(), 0);
    c.seek_fraction(500_000);
    assert_eq!(c.cursor(), 5);
    c.seek_fraction(1_000_000);
    assert_eq!(c.cursor(), 10);
}

#[test]
fn enter_on_empty_is_a_noop() {
    let mut c = ReplayCam::default();
    c.enter();
    assert!(!c.is_playback(), "nothing to replay, stays live");
}

fn pose(x: f32) -> Pose {
    Pose {
        translation: (x.to_bits(), 0, 0),
        rotation: (0, 0, 0, 1.0f32.to_bits()),
        scale: (0, 0, 0),
    }
}

#[test]
fn playback_shows_the_recorded_poses() {
    let mut c = ReplayCam::default();
    record_replay(&mut c, vec![(7, pose(1.0)), (9, pose(2.0))]);
    record_replay(&mut c, vec![(7, pose(3.0)), (9, pose(4.0))]);
    let pauses = apply_replay_commands(
        &mut c,
        &vec![ReplayCommand::Toggle, ReplayCommand::Scrub(-1)],
    );
    assert_eq!(pauses, vec![true]);
    record_replay(&mut c, vec![(7, pose(5.0))]);
    assert_eq!(c.len(), 2, "nothing is recorded in playback");
    let mut alive = vec![(9, pose(0.0)), (7, pose(0.0)), (1, pose(8.0))];
    apply_replay(&c, &mut alive);
    assert_eq!(alive, vec![(9, pose(2.0)), (7, pose(1.0)), (1, pose(8.0))]);
    assert_eq!(
        apply_replay_commands(&mut c, &vec![ReplayCommand::Exit]),
        vec![false]
    );
    assert!(!c.is_playback());
}

#[test]
fn replay_keys_ask_for_replay() {
    assert_eq!(replay_keys(&Keyboard::new()), vec![]);
    assert_eq!(
        replay_keys(&tapped(KeyCode::BracketLeft)),
        vec![ReplayCommand::Scrub(-1)]
    );
}

#[test]
fn numbers_are_shown_in_their_field() {
    let shown = |v: i64, f: Field| {
        let mut s = String::new();
        show(&mut s, v, f);
        s
    };
    assert_eq!(shown(12_345_678, field(8, 2)), "   12.35");
    assert_eq!(shown(-1_500_000, field(0, 1)), "-1.5");
    assert_eq!(shown(2_500_000, field(0, 0)), "2", "a tie goes to the even");
    assert_eq!(shown(3_500_000, field(0, 0)), "4");
    let plus = Field {
        width: 7,
        digits: 1,
        plus: true,
    };
    assert_eq!(shown(250_000, plus), "   +0.2");
}

#[test]
fn a_frame_is_spent_in_whole_steps() {
    let mut s = Substeps::begin(1_000, 16_000, 1, 4_000, 250);
    let mut taken = 0;
    while s.take(false) {
        taken += 1;
    }
    assert_eq!(taken, 4);
    assert_eq!(s.accumulator, 1_000);
    let mut s = Substeps::begin(0, 16_000, 16, 4_000, 3);
    let mut taken = 0;
    while s.take(false) {
        taken += 1;
    }
    assert_eq!(taken, 3, "the cap binds");
    let mut s = Substeps::begin(0, 16_000, 1, 4_000, 250);
    assert!(!s.take(true), "an ended flight takes no step");
}

#[test]
fn panels_say_what_they_plot() {
    assert_eq!(
        RoverSignal::Speed.panel_label(5_126_000, 12_340_000),
        "speed m/s: 5.13 (max 12.3)"
    );
    assert_eq!(
        SurfStat::Fps.panel_label(57_600_000, 58_000_000),
        "fps: 58 (max 60)",
        "the scale does not fall below its own"
    );
    assert_eq!(
        SurfStat::Chunks.panel_label(412_000_000, 412_000_000),
        "chunks: 412 (max 412)"
    );
}

#[test]
fn a_live_cursor_stays_on_a_frame() {
    let mut cam = ReplayCam::default();
    cam.scrub(5);
    assert_eq!((cam.cursor(), cam.len()), (0, 0));
    for _ in 0..3 {
        cam.record(Default::default());
    }
    cam.scrub(9);
    assert_eq!(cam.cursor(), 2);
    cam.enter();
    cam.record(Default::default());
    assert_eq!(cam.len(), 3, "playback records nothing");
    cam.exit();
    cam.scrub(-1);
    assert!(!cam.is_playback() && cam.cursor() == 1);
}
