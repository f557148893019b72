use sounding::input::KeyCode;
use sounding::input::Keyboard;
use sounding::input::Mouse;
use sounding::input::MouseButton;
use sounding::input_inject::drain_input;
use sounding::input_inject::fold_events;
use sounding::input_inject::parse_button;
use sounding::input_inject::parse_key;
use sounding::input_inject::validate;
use sounding::input_inject::InputCommand;
use sounding::input_inject::InputEvent;
use sounding::input_inject::Key;
use sounding::input_inject::KeyAction;
use sounding::input_inject::KeyEvent;
use sounding::input_inject::PendingReleases;

/// A headless frame loop: the drain, then the fold into the button state.
struct App {
    pending: PendingReleases,
    keys: Keyboard,
    mouse: Mouse,
    queue: Vec<InputCommand>,
    events: Vec<InputEvent>,
    has_window: bool,
}

impl App {
    fn new(has_window: bool) -> App {
        App {
            pending: PendingReleases::default(),
            keys: Keyboard::new(),
            mouse: Mouse::new(),
            queue: Vec::new(),
            events: Vec::new(),
            has_window,
        }
    }

    fn update(&mut self) {
        let queue = std::mem::take(&mut self.queue);
        self.events = drain_input(&mut self.pending, &queue, self.has_window);
        self.keys.clear();
        self.mouse.clear();
        fold_events(&mut self.keys, &mut self.mouse, &self.events);
    }

    fn key(&mut self, key: &str, action: KeyAction) {
        self.queue.push(InputCommand::Key {
            key: key.to_string(),
            action,
        });
    }
}

#[test]
fn key_names_parse_and_unknown_is_an_error() {
    assert_eq!(parse_key("t").unwrap().0, KeyCode::KeyT);
    assert_eq!(parse_key("T").unwrap().0, KeyCode::KeyT, "case-insensitive");
    assert_eq!(parse_key("7").unwrap().0, KeyCode::Digit7);
    assert_eq!(parse_key("enter").unwrap(), (KeyCode::Enter, Key::Enter));
    assert_eq!(parse_key("space").unwrap().0, KeyCode::Space);
    assert_eq!(parse_key("f3").unwrap().0, KeyCode::F3);
    assert!(parse_key("hyperspace").is_err());
    assert!(parse_button("left").is_ok());
    assert!(parse_button("fourth").is_err());
    assert!(validate(&InputCommand::Key {
        key: "enter".into(),
        action: KeyAction::Tap
    })
    .is_ok());
    assert!(validate(&InputCommand::Key {
        key: "hyperspace".into(),
        action: KeyAction::Tap
    })
    .is_err());
    assert!(validate(&InputCommand::Click {
        x: 1.0f32.to_bits(),
        y: 1.0f32.to_bits(),
        button: Some("fourth".into())
    })
    .is_err());
}

#[test]
fn tap_is_just_pressed_then_just_released_across_frames() {
    let mut app = App::new(true);
    app.key("enter", KeyAction::Tap);
    app.update();
    assert!(app.keys.just_pressed(KeyCode::Enter), "pressed on the tap frame");
    app.update();
    assert!(app.keys.just_released(KeyCode::Enter), "auto-released next frame");
    app.update();
    assert!(!app.keys.pressed(KeyCode::Enter));
}

#[test]
fn press_holds_until_release() {
    let mut app = App::new(true);
    app.key("w", KeyAction::Press);
    app.update();
    app.update();
    assert!(app.keys.pressed(KeyCode::KeyW), "held across frames");
    app.key("w", KeyAction::Release);
    app.update();
    assert!(app.keys.just_released(KeyCode::KeyW));
}

#[test]
fn character_keys_carry_logical_text_for_the_name_prompt_path() {
    let mut app = App::new(true);
    app.key("k", KeyAction::Tap);
    app.update();
    let pressed: Vec<&KeyEvent> = app
        .events
        .iter()
        .filter_map(|e| match e {
            InputEvent::Key(k) if k.pressed => Some(k),
            _ => None,
        })
        .collect();
    assert_eq!(pressed.len(), 1);
    assert_eq!(pressed[0].logical_key, Key::Character('k'));
    assert_eq!(pressed[0].text, Some('k'));
    assert!(!pressed[0].repeat);
}

#[test]
fn click_moves_the_cursor_and_taps_the_button() {
    let mut app = App::new(true);
    app.queue.push(InputCommand::Click {
        x: 40.0f32.to_bits(),
        y: 300.0f32.to_bits(),
        button: None,
    });
    app.update();
    assert!(app.events.contains(&InputEvent::Cursor {
        x: 40.0f32.to_bits(),
        y: 300.0f32.to_bits()
    }));
    assert!(app.mouse.just_pressed(MouseButton::Left));
    app.update();
    assert!(app.mouse.just_released(MouseButton::Left));
}

#[test]
fn scroll_accumulates_wheel_lines() {
    let mut app = App::new(true);
    app.queue.push(InputCommand::Scroll {
        lines: (-2.5f32).to_bits(),
    });
    app.update();
    let total: f32 = app
        .events
        .iter()
        .map(|e| match e {
            InputEvent::Wheel { lines } => f32::from_bits(*lines),
            _ => 0.0,
        })
        .sum();
    assert_eq!(total, -2.5);
}

#[test]
fn same_batch_double_tap_does_not_collapse() {
    let mut app = App::new(true);
    app.key("t", KeyAction::Tap);
    app.key("t", KeyAction::Tap);
    app.update();
    let states: Vec<bool> = app
        .events
        .iter()
        .filter_map(|e| match e {
            InputEvent::Key(k) => Some(k.pressed),
            _ => None,
        })
        .collect();
    assert_eq!(states, vec![true, false, true], "press / flushed release / press");
    app.update();
    assert!(app.keys.just_released(KeyCode::KeyT));
}

#[test]
fn no_primary_window_drops_input_safely() {
    let mut app = App::new(false);
    app.key("enter", KeyAction::Tap);
    app.update();
    assert!(!app.keys.pressed(KeyCode::Enter));
}

#[test]
fn a_key_that_is_held_is_not_pressed_again() {
    let mut keys = Keyboard::new();
    keys.press(KeyCode::KeyA);
    assert!(keys.pressed(KeyCode::KeyA) && keys.just_pressed(KeyCode::KeyA));
    keys.clear();
    keys.press(KeyCode::KeyA);
    assert!(keys.pressed(KeyCode::KeyA) && !keys.just_pressed(KeyCode::KeyA));
    assert!(!keys.pressed(KeyCode::KeyB));
    keys.release(KeyCode::KeyA);
    assert!(!keys.pressed(KeyCode::KeyA) && keys.just_released(KeyCode::KeyA));
    keys.clear();
    assert!(!keys.just_released(KeyCode::KeyA));
}

#[test]
fn a_consumed_press_is_seen_once() {
    let mut keys = Keyboard::new();
    keys.press(KeyCode::Enter);
    assert!(keys.clear_just_pressed(KeyCode::Enter));
    assert!(!keys.clear_just_pressed(KeyCode::Enter));
    assert!(!keys.just_pressed(KeyCode::Enter) && keys.pressed(KeyCode::Enter));
}

/// The presses and releases of keys that a frame wrote, in order.
fn key_states(app: &App) -> Vec<bool> {
    app.events
        .iter()
        .filter_map(|e| match e {
            InputEvent::Key(k) => Some(k.pressed),
            _ => None,
        })
        .collect()
}

/// The presses and releases of buttons that a frame wrote, in order.
fn button_states(app: &App) -> Vec<bool> {
    app.events
        .iter()
        .filter_map(|e| match e {
            InputEvent::Button { pressed, .. } => Some(*pressed),
            _ => None,
        })
        .collect()
}

#[test]
fn a_press_after_a_tap_in_one_batch_holds() {
    let mut app = App::new(true);
    app.key("t", KeyAction::Tap);
    app.key("t", KeyAction::Press);
    app.update();
    assert_eq!(key_states(&app), vec![true, false, true]);
    assert!(app.keys.pressed(KeyCode::KeyT));
    app.update();
    assert!(key_states(&app).is_empty(), "the tap's release is gone");
    assert!(app.keys.pressed(KeyCode::KeyT), "held until an explicit release");
    app.key("t", KeyAction::Release);
    app.update();
    assert_eq!(key_states(&app), vec![false]);
    assert!(!app.keys.pressed(KeyCode::KeyT));
}

#[test]
fn a_press_of_another_key_leaves_a_tap_pending() {
    let mut app = App::new(true);
    app.key("t", KeyAction::Tap);
    app.key("w", KeyAction::Press);
    app.update();
    assert_eq!(key_states(&app), vec![true, true]);
    app.update();
    assert_eq!(key_states(&app), vec![false]);
    assert!(!app.keys.pressed(KeyCode::KeyT) && app.keys.pressed(KeyCode::KeyW));
}

#[test]
fn a_button_press_after_a_tap_in_one_batch_holds() {
    let mut app = App::new(true);
    for action in [KeyAction::Tap, KeyAction::Press] {
        app.queue.push(InputCommand::MouseButton {
            button: "left".into(),
            action,
        });
    }
    app.update();
    assert_eq!(button_states(&app), vec![true, false, true]);
    app.update();
    assert!(button_states(&app).is_empty());
    assert!(app.mouse.pressed(MouseButton::Left));
    app.queue.push(InputCommand::MouseButton {
        button: "left".into(),
        action: KeyAction::Release,
    });
    app.update();
    assert!(!app.mouse.pressed(MouseButton::Left));
}
