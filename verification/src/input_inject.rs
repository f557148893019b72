//! Input injection: a script drives the keyboard and the mouse.
//!
//! Injected commands become the same events that a window reports. Nothing
//! writes button state directly, so every consumer sees injected input exactly
//! as it sees real input. A tap presses now and releases at the start of the
//! next drain, so that it yields one full press and release cycle.

use crate::input::Frame;
use crate::input::KeyCode;
use crate::input::Keyboard;
use crate::input::Mouse;
use crate::input::MouseButton;
use crate::text::join2;
use crate::text::lowercase;
use crate::text::lowered;
use crate::text::same_text;
use vstd::prelude::*;

verus! {

/// What to do with a key or mouse button.
#[derive(Clone, Copy, Debug, PartialEq, Eq, Structural)]
pub enum KeyAction {
    /// Press and hold (until an explicit `Release`).
    Press,
    /// Release a held key or button.
    Release,
    /// Press this frame, release the next.
    Tap,
}

impl Default for KeyAction {
    fn default() -> (a: KeyAction)
        ensures
            a == KeyAction::Tap,
    {
        KeyAction::Tap
    }
}

/// The meaning of a key, as the layout reports it.
#[derive(Clone, Copy, Debug, PartialEq, Eq, Structural)]
pub enum Key {
    /// A key that types this character.
    Character(char),
    Enter,
    Tab,
    Escape,
    Space,
    Backspace,
    Shift,
    Control,
    ArrowUp,
    ArrowDown,
    ArrowLeft,
    ArrowRight,
    F1,
    F2,
    F3,
    F4,
    F5,
    F6,
    F7,
    F8,
    F9,
    F10,
    F11,
    F12,
}

/// One injected input action. Coordinates are logical window pixels with the
/// origin at the top left; they and the wheel lines are carried as the bit
/// patterns of their single-precision values.
#[derive(Debug, PartialEq, Eq)]
#[allow(inconsistent_fields)]
pub enum InputCommand {
    /// A named key (see [`parse_key`]).
    Key { key: String, action: KeyAction },
    /// Move the cursor.
    CursorMove { x: u32, y: u32 },
    /// A named mouse button (see [`parse_button`]).
    MouseButton { button: String, action: KeyAction },
    /// Move the cursor and tap a button, by default the left one.
    Click { x: u32, y: u32, button: Option<String> },
    /// Vertical wheel scroll in lines.
    Scroll { lines: u32 },
}

/// A keyboard event.
#[derive(Clone, Copy, Debug, PartialEq, Eq, Structural)]
pub struct KeyEvent {
    pub key_code: KeyCode,
    pub logical_key: Key,
    /// Whether the key went down; otherwise it came up.
    pub pressed: bool,
    /// The character that the press typed.
    pub text: Option<char>,
    pub repeat: bool,
}

/// An event that a window reports.
#[derive(Clone, Copy, Debug, PartialEq, Eq, Structural)]
pub enum InputEvent {
    Key(KeyEvent),
    Button { button: MouseButton, pressed: bool },
    /// The cursor stands at these coordinates.
    Cursor { x: u32, y: u32 },
    /// The wheel turned by this many lines.
    Wheel { lines: u32 },
}

/// The physical key for a letter or digit.
pub open spec fn code_of_char(c: char) -> Option<KeyCode> {
    match c {
        'a' => Some(KeyCode::KeyA),
        'b' => Some(KeyCode::KeyB),
        'c' => Some(KeyCode::KeyC),
        'd' => Some(KeyCode::KeyD),
        'e' => Some(KeyCode::KeyE),
        'f' => Some(KeyCode::KeyF),
        'g' => Some(KeyCode::KeyG),
        'h' => Some(KeyCode::KeyH),
        'i' => Some(KeyCode::KeyI),
        'j' => Some(KeyCode::KeyJ),
        'k' => Some(KeyCode::KeyK),
        'l' => Some(KeyCode::KeyL),
        'm' => Some(KeyCode::KeyM),
        'n' => Some(KeyCode::KeyN),
        'o' => Some(KeyCode::KeyO),
        'p' => Some(KeyCode::KeyP),
        'q' => Some(KeyCode::KeyQ),
        'r' => Some(KeyCode::KeyR),
        's' => Some(KeyCode::KeyS),
        't' => Some(KeyCode::KeyT),
        'u' => Some(KeyCode::KeyU),
        'v' => Some(KeyCode::KeyV),
        'w' => Some(KeyCode::KeyW),
        'x' => Some(KeyCode::KeyX),
        'y' => Some(KeyCode::KeyY),
        'z' => Some(KeyCode::KeyZ),
        '0' => Some(KeyCode::Digit0),
        '1' => Some(KeyCode::Digit1),
        '2' => Some(KeyCode::Digit2),
        '3' => Some(KeyCode::Digit3),
        '4' => Some(KeyCode::Digit4),
        '5' => Some(KeyCode::Digit5),
        '6' => Some(KeyCode::Digit6),
        '7' => Some(KeyCode::Digit7),
        '8' => Some(KeyCode::Digit8),
        '9' => Some(KeyCode::Digit9),
        _ => None,
    }
}

/// The physical key for a letter or digit.
fn char_code(c: char) -> (code: Option<KeyCode>)
    ensures
        code == code_of_char(c),
{
    match c {
        'a' => Some(KeyCode::KeyA),
        'b' => Some(KeyCode::KeyB),
        'c' => Some(KeyCode::KeyC),
        'd' => Some(KeyCode::KeyD),
        'e' => Some(KeyCode::KeyE),
        'f' => Some(KeyCode::KeyF),
        'g' => Some(KeyCode::KeyG),
        'h' => Some(KeyCode::KeyH),
        'i' => Some(KeyCode::KeyI),
        'j' => Some(KeyCode::KeyJ),
        'k' => Some(KeyCode::KeyK),
        'l' => Some(KeyCode::KeyL),
        'm' => Some(KeyCode::KeyM),
        'n' => Some(KeyCode::KeyN),
        'o' => Some(KeyCode::KeyO),
        'p' => Some(KeyCode::KeyP),
        'q' => Some(KeyCode::KeyQ),
        'r' => Some(KeyCode::KeyR),
        's' => Some(KeyCode::KeyS),
        't' => Some(KeyCode::KeyT),
        'u' => Some(KeyCode::KeyU),
        'v' => Some(KeyCode::KeyV),
        'w' => Some(KeyCode::KeyW),
        'x' => Some(KeyCode::KeyX),
        'y' => Some(KeyCode::KeyY),
        'z' => Some(KeyCode::KeyZ),
        '0' => Some(KeyCode::Digit0),
        '1' => Some(KeyCode::Digit1),
        '2' => Some(KeyCode::Digit2),
        '3' => Some(KeyCode::Digit3),
        '4' => Some(KeyCode::Digit4),
        '5' => Some(KeyCode::Digit5),
        '6' => Some(KeyCode::Digit6),
        '7' => Some(KeyCode::Digit7),
        '8' => Some(KeyCode::Digit8),
        '9' => Some(KeyCode::Digit9),
        _ => None,
    }
}

/// The keys that have a name longer than one character.
pub open spec fn named_key(lower: Seq<char>) -> Option<(KeyCode, Key)> {
    if lower == "enter"@ || lower == "return"@ {
        Some((KeyCode::Enter, Key::Enter))
    } else if lower == "tab"@ {
        Some((KeyCode::Tab, Key::Tab))
    } else if lower == "escape"@ || lower == "esc"@ {
        Some((KeyCode::Escape, Key::Escape))
    } else if lower == "space"@ {
        Some((KeyCode::Space, Key::Space))
    } else if lower == "backspace"@ {
        Some((KeyCode::Backspace, Key::Backspace))
    } else if lower == "shift"@ {
        Some((KeyCode::ShiftLeft, Key::Shift))
    } else if lower == "ctrl"@ || lower == "control"@ {
        Some((KeyCode::ControlLeft, Key::Control))
    } else if lower == "up"@ {
        Some((KeyCode::ArrowUp, Key::ArrowUp))
    } else if lower == "down"@ {
        Some((KeyCode::ArrowDown, Key::ArrowDown))
    } else if lower == "left"@ {
        Some((KeyCode::ArrowLeft, Key::ArrowLeft))
    } else if lower == "right"@ {
        Some((KeyCode::ArrowRight, Key::ArrowRight))
    } else if lower == "comma"@ {
        Some((KeyCode::Comma, Key::Character(',')))
    } else if lower == "period"@ {
        Some((KeyCode::Period, Key::Character('.')))
    } else if lower == "minus"@ {
        Some((KeyCode::Minus, Key::Character('-')))
    } else if lower == "f1"@ {
        Some((KeyCode::F1, Key::F1))
    } else if lower == "f2"@ {
        Some((KeyCode::F2, Key::F2))
    } else if lower == "f3"@ {
        Some((KeyCode::F3, Key::F3))
    } else if lower == "f4"@ {
        Some((KeyCode::F4, Key::F4))
    } else if lower == "f5"@ {
        Some((KeyCode::F5, Key::F5))
    } else if lower == "f6"@ {
        Some((KeyCode::F6, Key::F6))
    } else if lower == "f7"@ {
        Some((KeyCode::F7, Key::F7))
    } else if lower == "f8"@ {
        Some((KeyCode::F8, Key::F8))
    } else if lower == "f9"@ {
        Some((KeyCode::F9, Key::F9))
    } else if lower == "f10"@ {
        Some((KeyCode::F10, Key::F10))
    } else if lower == "f11"@ {
        Some((KeyCode::F11, Key::F11))
    } else if lower == "f12"@ {
        Some((KeyCode::F12, Key::F12))
    } else {
        None
    }
}

/// The physical and logical key of a name, read without regard to ASCII case.
pub open spec fn key_of(name: Seq<char>) -> Option<(KeyCode, Key)> {
    let lower = lowered(name);
    if lower.len() == 1 && code_of_char(lower[0]) is Some {
        Some((code_of_char(lower[0])->0, Key::Character(lower[0])))
    } else {
        named_key(lower)
    }
}

/// Looks a longer name up.
#[verifier::rlimit(40)]
fn find_named(lower: &str) -> (key: Option<(KeyCode, Key)>)
    ensures
        key == named_key(lower@),
{
    if same_text(lower, "enter") || same_text(lower, "return") {
        Some((KeyCode::Enter, Key::Enter))
    } else if same_text(lower, "tab") {
        Some((KeyCode::Tab, Key::Tab))
    } else if same_text(lower, "escape") || same_text(lower, "esc") {
        Some((KeyCode::Escape, Key::Escape))
    } else if same_text(lower, "space") {
        Some((KeyCode::Space, Key::Space))
    } else if same_text(lower, "backspace") {
        Some((KeyCode::Backspace, Key::Backspace))
    } else if same_text(lower, "shift") {
        Some((KeyCode::ShiftLeft, Key::Shift))
    } else if same_text(lower, "ctrl") || same_text(lower, "control") {
        Some((KeyCode::ControlLeft, Key::Control))
    } else if same_text(lower, "up") {
        Some((KeyCode::ArrowUp, Key::ArrowUp))
    } else if same_text(lower, "down") {
        Some((KeyCode::ArrowDown, Key::ArrowDown))
    } else if same_text(lower, "left") {
        Some((KeyCode::ArrowLeft, Key::ArrowLeft))
    } else if same_text(lower, "right") {
        Some((KeyCode::ArrowRight, Key::ArrowRight))
    } else if same_text(lower, "comma") {
        Some((KeyCode::Comma, Key::Character(',')))
    } else if same_text(lower, "period") {
        Some((KeyCode::Period, Key::Character('.')))
    } else if same_text(lower, "minus") {
        Some((KeyCode::Minus, Key::Character('-')))
    } else if same_text(lower, "f1") {
        Some((KeyCode::F1, Key::F1))
    } else if same_text(lower, "f2") {
        Some((KeyCode::F2, Key::F2))
    } else if same_text(lower, "f3") {
        Some((KeyCode::F3, Key::F3))
    } else if same_text(lower, "f4") {
        Some((KeyCode::F4, Key::F4))
    } else if same_text(lower, "f5") {
        Some((KeyCode::F5, Key::F5))
    } else if same_text(lower, "f6") {
        Some((KeyCode::F6, Key::F6))
    } else if same_text(lower, "f7") {
        Some((KeyCode::F7, Key::F7))
    } else if same_text(lower, "f8") {
        Some((KeyCode::F8, Key::F8))
    } else if same_text(lower, "f9") {
        Some((KeyCode::F9, Key::F9))
    } else if same_text(lower, "f10") {
        Some((KeyCode::F10, Key::F10))
    } else if same_text(lower, "f11") {
        Some((KeyCode::F11, Key::F11))
    } else if same_text(lower, "f12") {
        Some((KeyCode::F12, Key::F12))
    } else {
        None
    }
}

/// Parses a key name: a letter, a digit, or one of the named keys. An unknown
/// name is an error that names it.
pub fn parse_key(name: &str) -> (key: Result<(KeyCode, Key), String>)
    ensures
        match key {
            Ok(k) => key_of(name@) == Some(k),
            Err(e) => key_of(name@) is None && e@ == "unknown key: "@ + name@,
        },
{
    let lower: String = lowercase(name);
    let low: &str = lower.as_str();
    if low.unicode_len() == 1 {
        let c: char = low.get_char(0);
        if let Some(code) = char_code(c) {
            return Ok((code, Key::Character(c)));
        }
    }
    match find_named(low) {
        Some(k) => Ok(k),
        None => Err(join2("unknown key: ", name)),
    }
}

/// The button of a name, read without regard to ASCII case.
pub open spec fn button_of(name: Seq<char>) -> Option<MouseButton> {
    if lowered(name) == "left"@ {
        Some(MouseButton::Left)
    } else if lowered(name) == "right"@ {
        Some(MouseButton::Right)
    } else if lowered(name) == "middle"@ {
        Some(MouseButton::Middle)
    } else {
        None
    }
}

/// Parses a mouse-button name. An unknown name is an error that names it.
pub fn parse_button(name: &str) -> (button: Result<MouseButton, String>)
    ensures
        match button {
            Ok(b) => button_of(name@) == Some(b),
            Err(e) => button_of(name@) is None && e@ == "unknown mouse button: "@ + name@,
        },
{
    let lower: String = lowercase(name);
    if same_text(lower.as_str(), "left") {
        Ok(MouseButton::Left)
    } else if same_text(lower.as_str(), "right") {
        Ok(MouseButton::Right)
    } else if same_text(lower.as_str(), "middle") {
        Ok(MouseButton::Middle)
    } else {
        Err(join2("unknown mouse button: ", name))
    }
}

/// The message for the name in a command that is not known, if it holds one.
pub open spec fn complaint(cmd: InputCommand) -> Option<Seq<char>> {
    match cmd {
        InputCommand::Key { key, action } => if key_of(key@) is None {
            Some("unknown key: "@ + key@)
        } else {
            None
        },
        InputCommand::MouseButton { button, action } => if button_of(button@) is None {
            Some("unknown mouse button: "@ + button@)
        } else {
            None
        },
        InputCommand::Click { x, y, button: Some(b) } => if button_of(b@) is None {
            Some("unknown mouse button: "@ + b@)
        } else {
            None
        },
        _ => None,
    }
}

/// Checks a command's names, so that an unknown one is refused to the caller
/// and never a silent no-op.
pub fn validate(cmd: &InputCommand) -> (r: Result<(), String>)
    ensures
        match r {
            Ok(_) => complaint(*cmd) is None,
            Err(e) => complaint(*cmd) == Some(e@),
        },
{
    match cmd {
        InputCommand::Key { key, action } => match parse_key(key.as_str()) {
            Ok(_) => Ok(()),
            Err(e) => Err(e),
        },
        InputCommand::MouseButton { button, action } => match parse_button(button.as_str()) {
            Ok(_) => Ok(()),
            Err(e) => Err(e),
        },
        InputCommand::Click { x, y, button } => match button {
            Some(b) => match parse_button(b.as_str()) {
                Ok(_) => Ok(()),
                Err(e) => Err(e),
            },
            None => Ok(()),
        },
        _ => Ok(()),
    }
}

/// What a command asks for, its names looked up.
#[derive(Clone, Copy, Debug, PartialEq, Eq, Structural)]
pub enum Deed {
    Nothing,
    Key(KeyCode, Key, KeyAction),
    Cursor(u32, u32),
    Button(MouseButton, KeyAction),
    Click(u32, u32, MouseButton),
    Wheel(u32),
}

/// What a command asks for. An unknown key or button name asks for nothing,
/// except that a click with one is a click of the left button.
pub open spec fn deed_of(cmd: InputCommand) -> Deed {
    match cmd {
        InputCommand::Key { key, action } => match key_of(key@) {
            Some((code, logical)) => Deed::Key(code, logical, action),
            None => Deed::Nothing,
        },
        InputCommand::CursorMove { x, y } => Deed::Cursor(x, y),
        InputCommand::MouseButton { button, action } => match button_of(button@) {
            Some(b) => Deed::Button(b, action),
            None => Deed::Nothing,
        },
        InputCommand::Click { x, y, button } => Deed::Click(
            x,
            y,
            if button is Some && button_of((button->0)@) is Some {
                button_of((button->0)@)->0
            } else {
                MouseButton::Left
            },
        ),
        InputCommand::Scroll { lines } => Deed::Wheel(lines),
    }
}

/// Looks the names in a command up.
pub fn resolve(cmd: &InputCommand) -> (d: Deed)
    ensures
        d == deed_of(*cmd),
{
    match cmd {
        InputCommand::Key { key, action } => match parse_key(key.as_str()) {
            Ok(pair) => Deed::Key(pair.0, pair.1, *action),
            Err(_) => Deed::Nothing,
        },
        InputCommand::CursorMove { x, y } => Deed::Cursor(*x, *y),
        InputCommand::MouseButton { button, action } => match parse_button(button.as_str()) {
            Ok(b) => Deed::Button(b, *action),
            Err(_) => Deed::Nothing,
        },
        InputCommand::Click { x, y, button } => {
            let b: MouseButton = match button {
                Some(name) => match parse_button(name.as_str()) {
                    Ok(b) => b,
                    Err(_) => MouseButton::Left,
                },
                None => MouseButton::Left,
            };
            Deed::Click(*x, *y, b)
        },
        InputCommand::Scroll { lines } => Deed::Wheel(*lines),
    }
}

/// The event for a key: a press of a character key, or of the space bar,
/// carries the character that it types.
pub open spec fn key_event_of(code: KeyCode, logical: Key, pressed: bool) -> KeyEvent {
    KeyEvent {
        key_code: code,
        logical_key: logical,
        pressed,
        text: if !pressed {
            None
        } else {
            match logical {
                Key::Character(c) => Some(c),
                Key::Space => Some(' '),
                _ => None,
            }
        },
        repeat: false,
    }
}

/// The event for a key.
fn key_event(code: KeyCode, logical: Key, pressed: bool) -> (e: KeyEvent)
    ensures
        e == key_event_of(code, logical, pressed),
{
    let text: Option<char> = if pressed {
        match logical {
            Key::Character(c) => Some(c),
            Key::Space => Some(' '),
            _ => None,
        }
    } else {
        None
    };
    KeyEvent { key_code: code, logical_key: logical, pressed, text, repeat: false }
}

/// Releases that taps have queued for the start of the next drain.
pub struct PendingReleases {
    keys: Vec<(KeyCode, Key)>,
    buttons: Vec<MouseButton>,
}

/// What is queued, in order.
#[verifier::ext_equal]
pub struct Queued {
    pub keys: Seq<(KeyCode, Key)>,
    pub buttons: Seq<MouseButton>,
}

impl View for PendingReleases {
    type V = Queued;

    closed spec fn view(&self) -> Queued {
        Queued { keys: self.keys@, buttons: self.buttons@ }
    }
}

/// Nothing queued.
pub open spec fn nothing_queued() -> Queued {
    Queued { keys: Seq::empty(), buttons: Seq::empty() }
}

impl Default for PendingReleases {
    fn default() -> (p: PendingReleases)
        ensures
            p@ == nothing_queued(),
    {
        let p = PendingReleases { keys: Vec::new(), buttons: Vec::new() };
        assert(p@ =~= nothing_queued());
        p
    }
}

/// Where the first queued release of a key stands; the length if there is none.
pub open spec fn key_slot(keys: Seq<(KeyCode, Key)>, code: KeyCode) -> int
    decreases keys.len(),
{
    if keys.len() == 0 || keys[0].0 == code {
        0
    } else {
        1 + key_slot(keys.skip(1), code)
    }
}

/// Where the first queued release of a button stands; the length if there is
/// none.
pub open spec fn button_slot(buttons: Seq<MouseButton>, button: MouseButton) -> int
    decreases buttons.len(),
{
    if buttons.len() == 0 || buttons[0] == button {
        0
    } else {
        1 + button_slot(buttons.skip(1), button)
    }
}

/// A key action: the queue and the events it yields. A press or a tap of a key
/// whose release is still queued lets it up first, so that taps in one batch do
/// not collapse and a press is not let go of by an earlier tap.
pub open spec fn key_step(q: Queued, code: KeyCode, logical: Key, action: KeyAction) -> (
    Queued,
    Seq<InputEvent>,
) {
    match action {
        KeyAction::Press => {
            let i = key_slot(q.keys, code);
            if i < q.keys.len() {
                (
                    Queued { keys: q.keys.remove(i), ..q },
                    seq![
                        InputEvent::Key(key_event_of(q.keys[i].0, q.keys[i].1, false)),
                        InputEvent::Key(key_event_of(code, logical, true)),
                    ],
                )
            } else {
                (q, seq![InputEvent::Key(key_event_of(code, logical, true))])
            }
        },
        KeyAction::Release => (q, seq![InputEvent::Key(key_event_of(code, logical, false))]),
        KeyAction::Tap => {
            let i = key_slot(q.keys, code);
            if i < q.keys.len() {
                (
                    Queued { keys: q.keys.remove(i).push((code, logical)), ..q },
                    seq![
                        InputEvent::Key(key_event_of(q.keys[i].0, q.keys[i].1, false)),
                        InputEvent::Key(key_event_of(code, logical, true)),
                    ],
                )
            } else {
                (
                    Queued { keys: q.keys.push((code, logical)), ..q },
                    seq![InputEvent::Key(key_event_of(code, logical, true))],
                )
            }
        },
    }
}

/// A mouse-button action, with the same bookkeeping as keys.
pub open spec fn button_step(q: Queued, button: MouseButton, action: KeyAction) -> (
    Queued,
    Seq<InputEvent>,
) {
    match action {
        KeyAction::Press => {
            let i = button_slot(q.buttons, button);
            if i < q.buttons.len() {
                (
                    Queued { buttons: q.buttons.remove(i), ..q },
                    seq![
                        InputEvent::Button { button, pressed: false },
                        InputEvent::Button { button, pressed: true },
                    ],
                )
            } else {
                (q, seq![InputEvent::Button { button, pressed: true }])
            }
        },
        KeyAction::Release => (q, seq![InputEvent::Button { button, pressed: false }]),
        KeyAction::Tap => {
            let i = button_slot(q.buttons, button);
            if i < q.buttons.len() {
                (
                    Queued { buttons: q.buttons.remove(i).push(button), ..q },
                    seq![
                        InputEvent::Button { button, pressed: false },
                        InputEvent::Button { button, pressed: true },
                    ],
                )
            } else {
                (
                    Queued { buttons: q.buttons.push(button), ..q },
                    seq![InputEvent::Button { button, pressed: true }],
                )
            }
        },
    }
}

/// One command: the queue it leaves and the events it yields.
pub open spec fn step(q: Queued, d: Deed) -> (Queued, Seq<InputEvent>) {
    match d {
        Deed::Nothing => (q, Seq::empty()),
        Deed::Key(code, logical, action) => key_step(q, code, logical, action),
        Deed::Cursor(x, y) => (q, seq![InputEvent::Cursor { x, y }]),
        Deed::Button(button, action) => button_step(q, button, action),
        Deed::Click(x, y, button) => {
            let (r, events) = button_step(q, button, KeyAction::Tap);
            (r, seq![InputEvent::Cursor { x, y }] + events)
        },
        Deed::Wheel(lines) => (q, seq![InputEvent::Wheel { lines }]),
    }
}

/// A batch of commands, in order.
pub open spec fn batch(q: Queued, cmds: Seq<InputCommand>) -> (Queued, Seq<InputEvent>)
    decreases cmds.len(),
{
    if cmds.len() == 0 {
        (q, Seq::empty())
    } else {
        let (r, events) = batch(q, cmds.drop_last());
        let (t, more) = step(r, deed_of(cmds.last()));
        (t, events + more)
    }
}

/// The queued releases as events: keys first, then buttons, each in order.
pub open spec fn flushed(q: Queued) -> Seq<InputEvent> {
    Seq::new(q.keys.len(), |i: int| InputEvent::Key(key_event_of(q.keys[i].0, q.keys[i].1, false)))
        + Seq::new(
        q.buttons.len(),
        |i: int| InputEvent::Button { button: q.buttons[i], pressed: false },
    )
}

/// One drain: queued releases first, then the batch.
pub open spec fn drained(q: Queued, cmds: Seq<InputCommand>) -> (Queued, Seq<InputEvent>) {
    let (r, events) = batch(nothing_queued(), cmds);
    (r, flushed(q) + events)
}

impl PendingReleases {
    /// Lets a key up whose release is queued.
    fn let_key_up(&mut self, events: &mut Vec<InputEvent>, code: KeyCode)
        ensures
            ({
                let q = old(self)@;
                let i = key_slot(q.keys, code);
                if i < q.keys.len() {
                    &&& final(self)@ == (Queued { keys: q.keys.remove(i), ..q })
                    &&& final(events)@ == old(events)@.push(
                        InputEvent::Key(key_event_of(q.keys[i].0, q.keys[i].1, false)),
                    )
                } else {
                    final(self)@ == q && final(events)@ == old(events)@
                }
            }),
    {
        let ghost q = self@;
        let n: usize = self.keys.len();
        let mut i: usize = 0;
        assert(q.keys.skip(0) =~= q.keys);
        while i < n && self.keys[i].0 != code
            invariant
                n == self.keys.len(),
                self.keys@ == q.keys,
                i <= n,
                key_slot(q.keys, code) == i + key_slot(q.keys.skip(i as int), code),
            decreases n - i,
        {
            assert(q.keys.skip(i as int).skip(1) =~= q.keys.skip(i + 1));
            i += 1;
        }
        if i < n {
            let (c, l) = self.keys.remove(i);
            events.push(InputEvent::Key(key_event(c, l, false)));
            assert(self@ =~= Queued { keys: q.keys.remove(i as int), ..q });
        }
    }

    /// Lets a button up whose release is queued.
    fn let_button_up(&mut self, events: &mut Vec<InputEvent>, button: MouseButton)
        ensures
            ({
                let q = old(self)@;
                let i = button_slot(q.buttons, button);
                if i < q.buttons.len() {
                    &&& final(self)@ == (Queued { buttons: q.buttons.remove(i), ..q })
                    &&& final(events)@ == old(events)@.push(
                        InputEvent::Button { button, pressed: false },
                    )
                } else {
                    final(self)@ == q && final(events)@ == old(events)@
                }
            }),
    {
        let ghost q = self@;
        let n: usize = self.buttons.len();
        let mut i: usize = 0;
        assert(q.buttons.skip(0) =~= q.buttons);
        while i < n && self.buttons[i] != button
            invariant
                n == self.buttons.len(),
                self.buttons@ == q.buttons,
                i <= n,
                button_slot(q.buttons, button) == i + button_slot(
                    q.buttons.skip(i as int),
                    button,
                ),
            decreases n - i,
        {
            assert(q.buttons.skip(i as int).skip(1) =~= q.buttons.skip(i + 1));
            i += 1;
        }
        if i < n {
            let _ = self.buttons.remove(i);
            events.push(InputEvent::Button { button, pressed: false });
            assert(self@ =~= Queued { buttons: q.buttons.remove(i as int), ..q });
        }
    }

    /// Carries a key action out.
    fn key_action(
        &mut self,
        events: &mut Vec<InputEvent>,
        code: KeyCode,
        logical: Key,
        action: KeyAction,
    )
        ensures
            final(self)@ == key_step(old(self)@, code, logical, action).0,
            final(events)@ == old(events)@ + key_step(old(self)@, code, logical, action).1,
    {
        let ghost q = self@;
        let ghost sofar = events@;
        match action {
            KeyAction::Press => {
                self.let_key_up(events, code);
                events.push(InputEvent::Key(key_event(code, logical, true)));
            },
            KeyAction::Release => {
                events.push(InputEvent::Key(key_event(code, logical, false)));
            },
            KeyAction::Tap => {
                self.let_key_up(events, code);
                events.push(InputEvent::Key(key_event(code, logical, true)));
                self.keys.push((code, logical));
            },
        }
        assert(self@ =~= key_step(q, code, logical, action).0);
        assert(events@ =~= sofar + key_step(q, code, logical, action).1);
    }

    /// Carries a mouse-button action out.
    fn write_button(
        &mut self,
        events: &mut Vec<InputEvent>,
        button: MouseButton,
        action: KeyAction,
    )
        ensures
            final(self)@ == button_step(old(self)@, button, action).0,
            final(events)@ == old(events)@ + button_step(old(self)@, button, action).1,
    {
        let ghost q = self@;
        let ghost sofar = events@;
        match action {
            KeyAction::Press => {
                self.let_button_up(events, button);
                events.push(InputEvent::Button { button, pressed: true });
            },
            KeyAction::Release => {
                events.push(InputEvent::Button { button, pressed: false });
            },
            KeyAction::Tap => {
                self.let_button_up(events, button);
                events.push(InputEvent::Button { button, pressed: true });
                self.buttons.push(button);
            },
        }
        assert(self@ =~= button_step(q, button, action).0);
        assert(events@ =~= sofar + button_step(q, button, action).1);
    }

    /// Turns the queue into release events and empties it.
    fn flush(&mut self) -> (events: Vec<InputEvent>)
        ensures
            final(self)@ == nothing_queued(),
            events@ == flushed(old(self)@),
    {
        let ghost q = self@;
        let mut events: Vec<InputEvent> = Vec::new();
        let mut i: usize = 0;
        while i < self.keys.len()
            invariant
                self@ == q,
                i <= self.keys.len(),
                events@ == flushed(q).take(i as int),
            decreases self.keys.len() - i,
        {
            events.push(InputEvent::Key(key_event(self.keys[i].0, self.keys[i].1, false)));
            i += 1;
            assert(events@ =~= flushed(q).take(i as int));
        }
        let mut j: usize = 0;
        while j < self.buttons.len()
            invariant
                self@ == q,
                j <= self.buttons.len(),
                events@ == flushed(q).take(q.keys.len() + j),
            decreases self.buttons.len() - j,
        {
            events.push(InputEvent::Button { button: self.buttons[j], pressed: false });
            j += 1;
            assert(events@ =~= flushed(q).take(q.keys.len() + j));
        }
        assert(flushed(q).take((q.keys.len() + q.buttons.len()) as int) =~= flushed(q));
        self.keys = Vec::new();
        self.buttons = Vec::new();
        assert(self@ =~= nothing_queued());
        events
    }
}

/// Turns the injected commands into window events. Without a window the
/// commands are dropped, and queued releases wait for one.
pub fn drain_input(
    pending: &mut PendingReleases,
    cmds: &Vec<InputCommand>,
    has_window: bool,
) -> (events: Vec<InputEvent>)
    ensures
        has_window ==> (final(pending)@, events@) == drained(old(pending)@, cmds@),
        !has_window ==> final(pending)@ == old(pending)@ && events@ == Seq::<InputEvent>::empty(),
{
    if !has_window {
        return Vec::new();
    }
    let ghost start = pending@;
    let mut events: Vec<InputEvent> = pending.flush();
    let mut i: usize = 0;
    assert(cmds@.take(0) =~= Seq::<InputCommand>::empty());
    assert(flushed(start) + Seq::<InputEvent>::empty() =~= flushed(start));
    while i < cmds.len()
        invariant
            i <= cmds.len(),
            pending@ == batch(nothing_queued(), cmds@.take(i as int)).0,
            events@ == flushed(start) + batch(nothing_queued(), cmds@.take(i as int)).1,
        decreases cmds.len() - i,
    {
        let ghost q = pending@;
        let ghost sofar = events@;
        let ghost done = cmds@.take(i + 1);
        assert(done.drop_last() =~= cmds@.take(i as int));
        assert(done.last() == cmds@[i as int]);
        let deed: Deed = resolve(&cmds[i]);
        match deed {
            Deed::Nothing => {},
            Deed::Key(code, logical, action) => {
                pending.key_action(&mut events, code, logical, action);
            },
            Deed::Cursor(x, y) => {
                events.push(InputEvent::Cursor { x, y });
            },
            Deed::Button(button, action) => {
                pending.write_button(&mut events, button, action);
            },
            Deed::Click(x, y, button) => {
                events.push(InputEvent::Cursor { x, y });
                pending.write_button(&mut events, button, KeyAction::Tap);
            },
            Deed::Wheel(lines) => {
                events.push(InputEvent::Wheel { lines });
            },
        }
        assert(events@ =~= sofar + step(q, deed).1);
        assert(events@ =~= flushed(start) + batch(nothing_queued(), done).1);
        i += 1;
    }
    assert(cmds@.take(cmds.len() as int) =~= cmds@);
    events
}

/// What one event does to the keyboard.
pub open spec fn key_after(f: Frame<KeyCode>, e: InputEvent) -> Frame<KeyCode> {
    match e {
        InputEvent::Key(k) => if k.pressed {
            f.pressing(k.key_code)
        } else {
            f.releasing(k.key_code)
        },
        _ => f,
    }
}

/// What a run of events does to the keyboard.
pub open spec fn keys_after(f: Frame<KeyCode>, events: Seq<InputEvent>) -> Frame<KeyCode>
    decreases events.len(),
{
    if events.len() == 0 {
        f
    } else {
        key_after(keys_after(f, events.drop_last()), events.last())
    }
}

/// What one event does to the mouse buttons.
pub open spec fn button_after(f: Frame<MouseButton>, e: InputEvent) -> Frame<MouseButton> {
    match e {
        InputEvent::Button { button, pressed } => if pressed {
            f.pressing(button)
        } else {
            f.releasing(button)
        },
        _ => f,
    }
}

/// What a run of events does to the mouse buttons.
pub open spec fn buttons_after(f: Frame<MouseButton>, events: Seq<InputEvent>) -> Frame<MouseButton>
    decreases events.len(),
{
    if events.len() == 0 {
        f
    } else {
        button_after(buttons_after(f, events.drop_last()), events.last())
    }
}

/// Begins a frame and folds its events into the keyboard and the mouse.
pub fn fold_events(keys: &mut Keyboard, mouse: &mut Mouse, events: &Vec<InputEvent>)
    ensures
        final(keys)@ == keys_after(old(keys)@.cleared(), events@),
        final(mouse)@ == buttons_after(old(mouse)@.cleared(), events@),
{
    keys.clear();
    mouse.clear();
    let ghost k0 = keys@;
    let ghost m0 = mouse@;
    let mut i: usize = 0;
    assert(events@.take(0) =~= Seq::<InputEvent>::empty());
    while i < events.len()
        invariant
            i <= events.len(),
            keys@ == keys_after(k0, events@.take(i as int)),
            mouse@ == buttons_after(m0, events@.take(i as int)),
        decreases events.len() - i,
    {
        let ghost done = events@.take(i + 1);
        assert(done.drop_last() =~= events@.take(i as int));
        assert(done.last() == events@[i as int]);
        match events[i] {
            InputEvent::Key(k) => {
                if k.pressed {
                    keys.press(k.key_code);
                } else {
                    keys.release(k.key_code);
                }
            },
            InputEvent::Button { button, pressed } => {
                if pressed {
                    mouse.press(button);
                } else {
                    mouse.release(button);
                }
            },
            _ => {},
        }
        i += 1;
    }
    assert(events@.take(events.len() as int) =~= events@);
}

/// Whether each key and each button is queued at most once.
pub open spec fn queued_once(q: Queued) -> bool {
    &&& forall|i: int, j: int|
        0 <= i < j < q.keys.len() ==> #[trigger] q.keys[i].0 != #[trigger] q.keys[j].0
    &&& forall|i: int, j: int|
        0 <= i < j < q.buttons.len() ==> #[trigger] q.buttons[i] != #[trigger] q.buttons[j]
}

/// A slot points at the first match, or past the end when there is none.
proof fn lemma_key_slot(keys: Seq<(KeyCode, Key)>, code: KeyCode)
    ensures
        0 <= key_slot(keys, code) <= keys.len(),
        key_slot(keys, code) < keys.len() ==> keys[key_slot(keys, code)].0 == code,
        forall|i: int| 0 <= i < key_slot(keys, code) ==> (#[trigger] keys[i]).0 != code,
    decreases keys.len(),
{
    if keys.len() > 0 && keys[0].0 != code {
        lemma_key_slot(keys.skip(1), code);
        assert forall|i: int| 0 <= i < key_slot(keys, code) implies (#[trigger] keys[i]).0
            != code by {
            if i > 0 {
                assert(keys.skip(1)[i - 1] == keys[i]);
            }
        }
    }
}

/// A slot points at the first match, or past the end when there is none.
proof fn lemma_button_slot(buttons: Seq<MouseButton>, button: MouseButton)
    ensures
        0 <= button_slot(buttons, button) <= buttons.len(),
        button_slot(buttons, button) < buttons.len() ==> buttons[button_slot(buttons, button)]
            == button,
        forall|i: int| 0 <= i < button_slot(buttons, button) ==> #[trigger] buttons[i] != button,
    decreases buttons.len(),
{
    if buttons.len() > 0 && buttons[0] != button {
        lemma_button_slot(buttons.skip(1), button);
        assert forall|i: int| 0 <= i < button_slot(buttons, button) implies #[trigger] buttons[i]
            != button by {
            if i > 0 {
                assert(buttons.skip(1)[i - 1] == buttons[i]);
            }
        }
    }
}

/// No drain ever queues two releases of one key or one button.
pub proof fn lemma_releases_are_queued_once(cmds: Seq<InputCommand>)
    ensures
        queued_once(batch(nothing_queued(), cmds).0),
    decreases cmds.len(),
{
    if cmds.len() > 0 {
        lemma_releases_are_queued_once(cmds.drop_last());
        let q = batch(nothing_queued(), cmds.drop_last()).0;
        match deed_of(cmds.last()) {
            Deed::Key(code, logical, action) => {
                lemma_key_slot(q.keys, code);
            },
            Deed::Button(button, action) => {
                lemma_button_slot(q.buttons, button);
            },
            Deed::Click(x, y, button) => {
                lemma_button_slot(q.buttons, button);
            },
            _ => {},
        }
    }
}

/// Events fold one run after the other.
proof fn lemma_keys_after_add(f: Frame<KeyCode>, a: Seq<InputEvent>, b: Seq<InputEvent>)
    ensures
        keys_after(f, a + b) == keys_after(keys_after(f, a), b),
    decreases b.len(),
{
    if b.len() == 0 {
        assert(a + b =~= a);
    } else {
        lemma_keys_after_add(f, a, b.drop_last());
        assert((a + b).drop_last() =~= a + b.drop_last());
        assert((a + b).last() == b.last());
    }
}

/// A lone tap of a key that is up touches no other key: it goes down in its own
/// frame and up in the next, and that is all that happens.
pub proof fn lemma_lone_tap_touches_one_key(f: Frame<KeyCode>, cmd: InputCommand)
    requires
        deed_of(cmd) is Key,
        deed_of(cmd)->Key_2 == KeyAction::Tap,
        !f.held.contains(deed_of(cmd)->Key_0),
    ensures
        ({
            let code = deed_of(cmd)->Key_0;
            let (queue, events) = drained(nothing_queued(), seq![cmd]);
            let first = keys_after(f.cleared(), events);
            let (rest, later) = drained(queue, Seq::empty());
            let second = keys_after(first.cleared(), later);
            &&& first.tapped == set![code]
            &&& first.held == f.held.insert(code)
            &&& second.raised == set![code]
            &&& second.held == f.held
            &&& rest == nothing_queued()
        }),
{
    let code = deed_of(cmd)->Key_0;
    let logical = deed_of(cmd)->Key_1;
    let q0 = nothing_queued();
    let s = seq![cmd];
    assert(s.drop_last() =~= Seq::<InputCommand>::empty());
    assert(batch(q0, s.drop_last()) == (q0, Seq::<InputEvent>::empty()));
    let down = InputEvent::Key(key_event_of(code, logical, true));
    let up = InputEvent::Key(key_event_of(code, logical, false));
    let (queue, events) = drained(q0, s);
    assert(flushed(q0) =~= Seq::<InputEvent>::empty());
    assert(events =~= seq![down]);
    assert(queue.keys =~= seq![(code, logical)]);
    let first = keys_after(f.cleared(), events);
    assert(events.drop_last() =~= Seq::<InputEvent>::empty());
    assert(keys_after(f.cleared(), events.drop_last()) == f.cleared());
    assert(first == key_after(f.cleared(), down));
    assert(first.tapped =~= set![code]);
    let (rest, later) = drained(queue, Seq::empty());
    assert(later =~= seq![up]);
    assert(later.drop_last() =~= Seq::<InputEvent>::empty());
    assert(keys_after(first.cleared(), later.drop_last()) == first.cleared());
    let second = keys_after(first.cleared(), later);
    assert(second == key_after(first.cleared(), up));
    assert(second.raised =~= set![code]);
    assert(second.held =~= f.held);
}

/// Whether every press in a run of events finds its key up, so that each one
/// counts.
pub open spec fn every_press_counts(f: Frame<KeyCode>, events: Seq<InputEvent>) -> bool
    decreases events.len(),
{
    events.len() == 0 || {
        &&& every_press_counts(f, events.drop_last())
        &&& (events.last() matches InputEvent::Key(k) ==> (k.pressed ==> !keys_after(
            f,
            events.drop_last(),
        ).held.contains(k.key_code)))
    }
}

/// Whether every key command is a tap.
pub open spec fn taps_only(cmds: Seq<InputCommand>) -> bool {
    forall|i: int|
        0 <= i < cmds.len() ==> (deed_of(#[trigger] cmds[i]) is Key ==> deed_of(cmds[i])->Key_2
            == KeyAction::Tap)
}

/// The keys that are queued for release.
pub open spec fn queued_keys(q: Queued) -> Set<KeyCode> {
    Set::new(|k: KeyCode| exists|i: int| 0 <= i < q.keys.len() && (#[trigger] q.keys[i]).0 == k)
}

/// Taps in one batch never collapse: however often a key is tapped, each press
/// finds it up, and the keys left down are exactly those queued for release.
pub proof fn lemma_taps_do_not_collapse(cmds: Seq<InputCommand>)
    requires
        taps_only(cmds),
    ensures
        every_press_counts(Frame::idle(), batch(nothing_queued(), cmds).1),
        keys_after(Frame::idle(), batch(nothing_queued(), cmds).1).held == queued_keys(
            batch(nothing_queued(), cmds).0,
        ),
    decreases cmds.len(),
{
    let f = Frame::<KeyCode>::idle();
    if cmds.len() == 0 {
        assert(queued_keys(nothing_queued()) =~= Set::<KeyCode>::empty());
    } else {
        let front = cmds.drop_last();
        assert forall|i: int|
            0 <= i < front.len() && deed_of(#[trigger] front[i]) is Key implies deed_of(
            front[i],
        )->Key_2 == KeyAction::Tap by {
            assert(front[i] == cmds[i]);
        }
        lemma_taps_do_not_collapse(front);
        lemma_releases_are_queued_once(front);
        let (q, events) = batch(nothing_queued(), front);
        let d = deed_of(cmds.last());
        let (r, more) = step(q, d);
        assert(cmds[cmds.len() - 1] == cmds.last());
        lemma_keys_after_add(f, events, more);
        lemma_presses_count_add(f, events, more);
        let g = keys_after(f, events);
        match d {
            Deed::Key(code, logical, action) => {
                lemma_key_slot(q.keys, code);
                let i = key_slot(q.keys, code);
                let down = InputEvent::Key(key_event_of(code, logical, true));
                if i < q.keys.len() {
                    let up = InputEvent::Key(key_event_of(q.keys[i].0, q.keys[i].1, false));
                    assert(more =~= seq![up, down]);
                    assert(more.drop_last() =~= seq![up]);
                    assert(seq![up].drop_last() =~= Seq::<InputEvent>::empty());
                    assert(keys_after(g, seq![up].drop_last()) == g);
                    assert(keys_after(g, seq![up]) == g.releasing(code));
                    assert(keys_after(g, more) == g.releasing(code).pressing(code));
                    assert(every_press_counts(g, seq![up].drop_last()));
                    assert(every_press_counts(g, more.drop_last()));
                } else {
                    assert(more =~= seq![down]);
                    assert(more.drop_last() =~= Seq::<InputEvent>::empty());
                    assert(keys_after(g, more.drop_last()) == g);
                    assert(keys_after(g, more) == g.pressing(code));
                    assert(every_press_counts(g, more.drop_last()));
                    assert(!g.held.contains(code));
                }
                assert forall|k: KeyCode| #[trigger]
                    queued_keys(r).contains(k) == (queued_keys(q).contains(k) || k == code) by {
                    let n = r.keys.len() as int;
                    assert(r.keys[n - 1] == (code, logical));
                    if queued_keys(q).contains(k) && k != code {
                        let j = choose|j: int| 0 <= j < q.keys.len() && (#[trigger] q.keys[j]).0 == k;
                        if i < q.keys.len() && j > i {
                            assert(r.keys[j - 1] == q.keys[j]);
                        } else {
                            assert(r.keys[j] == q.keys[j]);
                        }
                    }
                    if queued_keys(r).contains(k) && k != code {
                        let j = choose|j: int| 0 <= j < r.keys.len() && (#[trigger] r.keys[j]).0 == k;
                        if i < q.keys.len() && j >= i {
                            assert(r.keys[j] == q.keys[j + 1]);
                        } else {
                            assert(r.keys[j] == q.keys[j]);
                        }
                    }
                }
                assert(keys_after(g, more).held =~= queued_keys(r));
            },
            _ => {
                lemma_no_key_events(g, q, d);
                assert(r.keys == q.keys);
                assert(queued_keys(r) =~= queued_keys(q));
            },
        }
    }
}

/// A command that is no key command leaves the keyboard alone.
proof fn lemma_no_key_events(g: Frame<KeyCode>, q: Queued, d: Deed)
    requires
        !(d is Key),
    ensures
        keys_after(g, step(q, d).1) == g,
        every_press_counts(g, step(q, d).1),
        step(q, d).0.keys == q.keys,
{
    let more = step(q, d).1;
    assert forall|i: int| 0 <= i < more.len() implies !(#[trigger] more[i] is Key) by {}
    lemma_foreign_events(g, more);
}

/// Events that are no key events leave the keyboard alone.
proof fn lemma_foreign_events(g: Frame<KeyCode>, events: Seq<InputEvent>)
    requires
        forall|i: int| 0 <= i < events.len() ==> !(#[trigger] events[i] is Key),
    ensures
        keys_after(g, events) == g,
        every_press_counts(g, events),
    decreases events.len(),
{
    if events.len() > 0 {
        lemma_foreign_events(g, events.drop_last());
        assert(!(events[events.len() - 1] is Key));
    }
}

/// Runs of counting presses join.
proof fn lemma_presses_count_add(f: Frame<KeyCode>, a: Seq<InputEvent>, b: Seq<InputEvent>)
    ensures
        every_press_counts(f, a) && every_press_counts(keys_after(f, a), b) ==> every_press_counts(
            f,
            a + b,
        ),
    decreases b.len(),
{
    if b.len() == 0 {
        assert(a + b =~= a);
    } else {
        lemma_presses_count_add(f, a, b.drop_last());
        assert((a + b).drop_last() =~= a + b.drop_last());
        assert((a + b).last() == b.last());
        lemma_keys_after_add(f, a, b.drop_last());
    }
}

/// Batches join: the second goes on with the queue that the first leaves.
proof fn lemma_batch_add(q: Queued, a: Seq<InputCommand>, b: Seq<InputCommand>)
    ensures
        ({
            let (r, events) = batch(q, a);
            let (s, more) = batch(r, b);
            batch(q, a + b) == (s, events + more)
        }),
    decreases b.len(),
{
    let (r, events) = batch(q, a);
    if b.len() == 0 {
        assert(a + b =~= a);
        assert(events + Seq::<InputEvent>::empty() =~= events);
    } else {
        lemma_batch_add(q, a, b.drop_last());
        assert((a + b).drop_last() =~= a + b.drop_last());
        assert((a + b).last() == b.last());
        let (s, more) = batch(r, b.drop_last());
        let (u, last) = step(s, deed_of(b.last()));
        assert((events + more) + last =~= events + (more + last));
    }
}

/// Whether a command is about a key.
pub open spec fn on_key(cmd: InputCommand, code: KeyCode) -> bool {
    deed_of(cmd) matches Deed::Key(c, _, _) && c == code
}

/// Whether a command is about a button.
pub open spec fn on_button(cmd: InputCommand, button: MouseButton) -> bool {
    match deed_of(cmd) {
        Deed::Button(b, _) => b == button,
        Deed::Click(_, _, b) => b == button,
        _ => false,
    }
}

/// Whether a command does that to a key.
pub open spec fn does_to_key(cmd: InputCommand, code: KeyCode, action: KeyAction) -> bool {
    deed_of(cmd) matches Deed::Key(c, _, a) && c == code && a == action
}

/// Whether a command does that to a button; a click taps it.
pub open spec fn does_to_button(cmd: InputCommand, button: MouseButton, action: KeyAction) -> bool {
    match deed_of(cmd) {
        Deed::Button(b, a) => b == button && a == action,
        Deed::Click(_, _, b) => b == button && action == KeyAction::Tap,
        _ => false,
    }
}

/// The buttons that are queued for release.
pub open spec fn queued_buttons(q: Queued) -> Set<MouseButton> {
    Set::new(
        |b: MouseButton| exists|i: int| 0 <= i < q.buttons.len() && #[trigger] q.buttons[i] == b,
    )
}

/// Events fold one run after the other.
proof fn lemma_buttons_after_add(f: Frame<MouseButton>, a: Seq<InputEvent>, b: Seq<InputEvent>)
    ensures
        buttons_after(f, a + b) == buttons_after(buttons_after(f, a), b),
    decreases b.len(),
{
    if b.len() == 0 {
        assert(a + b =~= a);
    } else {
        lemma_buttons_after_add(f, a, b.drop_last());
        assert((a + b).drop_last() =~= a + b.drop_last());
        assert((a + b).last() == b.last());
    }
}

/// Whether none of a batch is about a key.
pub open spec fn no_command_on_key(cmds: Seq<InputCommand>, code: KeyCode) -> bool {
    forall|i: int| 0 <= i < cmds.len() ==> !on_key(#[trigger] cmds[i], code)
}

/// Within a frame, a key that was up when it began counts as having gone down
/// while it is down, and one that has come up keeps counting as having done so.
proof fn lemma_key_marks_stay(f: Frame<KeyCode>, events: Seq<InputEvent>, code: KeyCode)
    ensures
        ({
            let g = keys_after(f, events);
            &&& (f.held.contains(code) ==> f.tapped.contains(code)) ==> (g.held.contains(code)
                ==> g.tapped.contains(code))
            &&& f.raised.contains(code) ==> g.raised.contains(code)
        }),
    decreases events.len(),
{
    if events.len() > 0 {
        lemma_key_marks_stay(f, events.drop_last(), code);
    }
}

/// Whether a key is among the first releases of a flush.
spec fn key_among_first(q: Queued, n: int, code: KeyCode) -> bool {
    exists|i: int| 0 <= i < n && i < q.keys.len() && (#[trigger] q.keys[i]).0 == code
}

/// Whether a button is among the first releases of a flush, which come after those
/// of the keys.
spec fn button_among_first(q: Queued, n: int, button: MouseButton) -> bool {
    exists|i: int|
        q.keys.len() <= i < n && i < q.keys.len() + q.buttons.len()
            && #[trigger] q.buttons[i - q.keys.len()] == button
}

/// A flush lets up the keys that are queued, and no other.
proof fn lemma_flush_of_key(f: Frame<KeyCode>, q: Queued, n: int, code: KeyCode)
    requires
        0 <= n <= flushed(q).len(),
    ensures
        ({
            let g = keys_after(f, flushed(q).take(n));
            let hit = key_among_first(q, n, code);
            &&& g.held.contains(code) == (f.held.contains(code) && !hit)
            &&& g.tapped == f.tapped
            &&& f.held.contains(code) && hit ==> g.raised.contains(code)
        }),
    decreases n,
{
    let events = flushed(q).take(n);
    if n > 0 {
        lemma_flush_of_key(f, q, n - 1, code);
        assert(events.drop_last() =~= flushed(q).take(n - 1));
        assert(events.last() == flushed(q)[n - 1]);
        let i = n - 1;
        if 0 <= i < q.keys.len() {
            assert(q.keys[i].0 == code || q.keys[i].0 != code);
        }
        let before = key_among_first(q, n - 1, code);
        let now = key_among_first(q, n, code);
        if now && !before {
            let k = choose|i: int|
                0 <= i < n && i < q.keys.len() && (#[trigger] q.keys[i]).0 == code;
            assert(k == n - 1);
        }
    }
}

/// What one command does to a key's place in the queue.
proof fn lemma_command_queues_key(q: Queued, cmd: InputCommand, code: KeyCode)
    ensures
        ({
            let r = step(q, deed_of(cmd)).0;
            &&& !on_key(cmd, code) ==> queued_keys(r).contains(code)
                == queued_keys(q).contains(code)
            &&& does_to_key(cmd, code, KeyAction::Tap) ==> queued_keys(r).contains(code)
            &&& does_to_key(cmd, code, KeyAction::Press) && queued_once(q)
                ==> !queued_keys(r).contains(code)
        }),
{
    let r = step(q, deed_of(cmd)).0;
    match deed_of(cmd) {
        Deed::Key(c, logical, action) => {
            lemma_key_slot(q.keys, c);
            let i = key_slot(q.keys, c);
            assert forall|k: KeyCode| k != c implies #[trigger] queued_keys(r).contains(k)
                == queued_keys(q).contains(k) by {
                if queued_keys(q).contains(k) {
                    let j = choose|j: int| 0 <= j < q.keys.len() && (#[trigger] q.keys[j]).0 == k;
                    if action != KeyAction::Release && j > i {
                        assert(r.keys[j - 1] == q.keys[j]);
                    } else {
                        assert(r.keys[j] == q.keys[j]);
                    }
                }
                if queued_keys(r).contains(k) {
                    let j = choose|j: int| 0 <= j < r.keys.len() && (#[trigger] r.keys[j]).0 == k;
                    if action != KeyAction::Release && j >= i && i < q.keys.len() {
                        assert(r.keys[j] == q.keys[j + 1]);
                    } else {
                        assert(r.keys[j] == q.keys[j]);
                    }
                }
            }
            if action == KeyAction::Tap {
                assert(r.keys[r.keys.len() - 1].0 == c);
            }
            if action == KeyAction::Press && queued_once(q) && queued_keys(r).contains(c) {
                let j = choose|j: int| 0 <= j < r.keys.len() && (#[trigger] r.keys[j]).0 == c;
                if i < q.keys.len() {
                    assert(q.keys[i].0 == c);
                    if j >= i {
                        assert(r.keys[j] == q.keys[j + 1]);
                    } else {
                        assert(r.keys[j] == q.keys[j]);
                    }
                }
            }
        },
        _ => {
            assert(r.keys == q.keys);
            assert(queued_keys(r) =~= queued_keys(q));
        },
    }
}

/// One event, two events and three events, one after the other.
proof fn lemma_keys_after_few(f: Frame<KeyCode>, a: InputEvent, b: InputEvent, c: InputEvent)
    ensures
        keys_after(f, seq![a]) == key_after(f, a),
        keys_after(f, seq![a, b]) == key_after(key_after(f, a), b),
        keys_after(f, seq![a, b, c]) == key_after(key_after(key_after(f, a), b), c),
{
    assert(seq![a].drop_last() =~= Seq::<InputEvent>::empty());
    assert(seq![a, b].drop_last() =~= seq![a]);
    assert(seq![a, b, c].drop_last() =~= seq![a, b]);
    assert(keys_after(f, Seq::empty()) == f);
    assert(keys_after(f, seq![a]) == key_after(f, a));
    assert(keys_after(f, seq![a, b]) == key_after(keys_after(f, seq![a]), b));
}

/// What one command does to a key and to its place in the queue.
proof fn lemma_command_and_key(f: Frame<KeyCode>, q: Queued, cmd: InputCommand, code: KeyCode)
    ensures
        ({
            let (r, events) = step(q, deed_of(cmd));
            let g = keys_after(f, events);
            &&& !on_key(cmd, code) ==> {
                &&& queued_keys(r).contains(code) == queued_keys(q).contains(code)
                &&& g.held.contains(code) == f.held.contains(code)
                &&& g.tapped.contains(code) == f.tapped.contains(code)
            }
            &&& does_to_key(cmd, code, KeyAction::Tap) ==> {
                &&& queued_keys(r).contains(code)
                &&& g.held.contains(code)
            }
            &&& does_to_key(cmd, code, KeyAction::Press) && queued_once(q) ==> {
                &&& !queued_keys(r).contains(code)
                &&& g.held.contains(code)
            }
        }),
{
    lemma_command_queues_key(q, cmd, code);
    let events = step(q, deed_of(cmd)).1;
    let n = events.len() as int;
    if n == 0 {
    } else if n == 1 {
        assert(events =~= seq![events[0]]);
        lemma_keys_after_few(f, events[0], events[0], events[0]);
    } else if n == 2 {
        assert(events =~= seq![events[0], events[1]]);
        lemma_keys_after_few(f, events[0], events[1], events[1]);
    } else {
        assert(n == 3);
        assert(events =~= seq![events[0], events[1], events[2]]);
        lemma_keys_after_few(f, events[0], events[1], events[2]);
    }
    if let Deed::Key(c, _, _) = deed_of(cmd) {
        lemma_key_slot(q.keys, c);
    }
}

/// A batch that is not about a key leaves it and its place in the queue alone.
proof fn lemma_batch_off_key(f: Frame<KeyCode>, q: Queued, cmds: Seq<InputCommand>, code: KeyCode)
    requires
        no_command_on_key(cmds, code),
    ensures
        ({
            let (r, events) = batch(q, cmds);
            let g = keys_after(f, events);
            &&& queued_keys(r).contains(code) == queued_keys(q).contains(code)
            &&& g.held.contains(code) == f.held.contains(code)
            &&& g.tapped.contains(code) == f.tapped.contains(code)
        }),
    decreases cmds.len(),
{
    if cmds.len() > 0 {
        let front = cmds.drop_last();
        assert forall|i: int| 0 <= i < front.len() implies !on_key(#[trigger] front[i], code) by {
            assert(front[i] == cmds[i]);
        }
        lemma_batch_off_key(f, q, front, code);
        let (r, events) = batch(q, front);
        let (s, more) = step(r, deed_of(cmds.last()));
        assert(!on_key(cmds[cmds.len() - 1], code));
        lemma_command_and_key(keys_after(f, events), r, cmds.last(), code);
        lemma_keys_after_add(f, events, more);
    }
}

/// What a drain leaves of a key when its last command on it is `cmd`.
proof fn lemma_last_command_on_key(
    f: Frame<KeyCode>,
    q: Queued,
    before: Seq<InputCommand>,
    cmd: InputCommand,
    after: Seq<InputCommand>,
    code: KeyCode,
)
    requires
        no_command_on_key(after, code),
    ensures
        ({
            let (r, events) = drained(q, before + seq![cmd] + after);
            let g = keys_after(f.cleared(), events);
            &&& does_to_key(cmd, code, KeyAction::Tap) ==> {
                &&& queued_keys(r).contains(code)
                &&& g.held.contains(code)
            }
            &&& does_to_key(cmd, code, KeyAction::Press) ==> {
                &&& !queued_keys(r).contains(code)
                &&& g.held.contains(code)
            }
            &&& !f.held.contains(code) || queued_keys(q).contains(code) ==> (g.held.contains(code)
                ==> g.tapped.contains(code))
        }),
{
    let none = nothing_queued();
    let start = keys_after(f.cleared(), flushed(q));
    assert(flushed(q).take(flushed(q).len() as int) =~= flushed(q));
    lemma_flush_of_key(f.cleared(), q, flushed(q).len() as int, code);
    if queued_keys(q).contains(code) {
        let j = choose|j: int| 0 <= j < q.keys.len() && (#[trigger] q.keys[j]).0 == code;
        assert(q.keys[j].0 == code);
    }
    lemma_batch_add(none, before, seq![cmd]);
    lemma_batch_add(none, before + seq![cmd], after);
    lemma_releases_are_queued_once(before);
    let (r, e) = batch(none, before);
    let (s, m) = step(r, deed_of(cmd));
    assert(seq![cmd].drop_last() =~= Seq::<InputCommand>::empty());
    assert(batch(r, seq![cmd].drop_last()) == (r, Seq::<InputEvent>::empty()));
    assert(batch(r, seq![cmd]).1 =~= m);
    let (u, l) = batch(s, after);
    let all = e + m + l;
    assert(batch(none, before + seq![cmd] + after) == (u, all));
    let g1 = keys_after(start, e);
    lemma_keys_after_add(start, e, m);
    lemma_keys_after_add(start, e + m, l);
    lemma_keys_after_add(f.cleared(), flushed(q), all);
    lemma_command_and_key(g1, r, cmd, code);
    lemma_batch_off_key(keys_after(g1, m), s, after, code);
    lemma_key_marks_stay(start, all, code);
}

/// A tap is one full cycle, in any batch: where the last command on a key that
/// is up taps it, it goes down in that frame and comes up in the next, whatever
/// else the two batches hold; it stays up unless the second batch speaks of it.
pub proof fn lemma_tap_is_one_full_cycle(
    f: Frame<KeyCode>,
    q: Queued,
    before: Seq<InputCommand>,
    tap: InputCommand,
    after: Seq<InputCommand>,
    next: Seq<InputCommand>,
    code: KeyCode,
)
    requires
        does_to_key(tap, code, KeyAction::Tap),
        no_command_on_key(after, code),
        !f.held.contains(code) || queued_keys(q).contains(code),
    ensures
        ({
            let (queue, events) = drained(q, before + seq![tap] + after);
            let first = keys_after(f.cleared(), events);
            let second = keys_after(first.cleared(), drained(queue, next).1);
            &&& first.tapped.contains(code)
            &&& first.held.contains(code)
            &&& second.raised.contains(code)
            &&& no_command_on_key(next, code) ==> !second.held.contains(code)
                && !second.tapped.contains(code)
        }),
{
    lemma_last_command_on_key(f, q, before, tap, after, code);
    let (queue, events) = drained(q, before + seq![tap] + after);
    let first = keys_after(f.cleared(), events);
    let n = flushed(queue).len() as int;
    assert(flushed(queue).take(n) =~= flushed(queue));
    lemma_flush_of_key(first.cleared(), queue, n, code);
    let j = choose|j: int| 0 <= j < queue.keys.len() && (#[trigger] queue.keys[j]).0 == code;
    assert(queue.keys[j].0 == code);
    let up = keys_after(first.cleared(), flushed(queue));
    let more = batch(nothing_queued(), next).1;
    lemma_keys_after_add(first.cleared(), flushed(queue), more);
    lemma_key_marks_stay(up, more, code);
    if no_command_on_key(next, code) {
        lemma_batch_off_key(up, nothing_queued(), next, code);
    }
}

/// A press holds until the key is spoken of again: where the last command on
/// it presses it, it is down in that frame and in the next, whatever taps came
/// before.
pub proof fn lemma_press_holds(
    f: Frame<KeyCode>,
    q: Queued,
    before: Seq<InputCommand>,
    press: InputCommand,
    after: Seq<InputCommand>,
    next: Seq<InputCommand>,
    code: KeyCode,
)
    requires
        does_to_key(press, code, KeyAction::Press),
        no_command_on_key(after, code),
        no_command_on_key(next, code),
    ensures
        ({
            let (queue, events) = drained(q, before + seq![press] + after);
            let first = keys_after(f.cleared(), events);
            let (rest, later) = drained(queue, next);
            let second = keys_after(first.cleared(), later);
            &&& first.held.contains(code)
            &&& second.held.contains(code)
            &&& !queued_keys(rest).contains(code)
        }),
{
    lemma_last_command_on_key(f, q, before, press, after, code);
    let (queue, events) = drained(q, before + seq![press] + after);
    let first = keys_after(f.cleared(), events);
    let n = flushed(queue).len() as int;
    assert(flushed(queue).take(n) =~= flushed(queue));
    lemma_flush_of_key(first.cleared(), queue, n, code);
    let up = keys_after(first.cleared(), flushed(queue));
    lemma_keys_after_add(first.cleared(), flushed(queue), batch(nothing_queued(), next).1);
    lemma_batch_off_key(up, nothing_queued(), next, code);
}

/// Whether none of a batch is about a button.
pub open spec fn no_command_on_button(cmds: Seq<InputCommand>, button: MouseButton) -> bool {
    forall|i: int| 0 <= i < cmds.len() ==> !on_button(#[trigger] cmds[i], button)
}

/// Within a frame, a button that was up when it began counts as having gone down
/// while it is down, and one that has come up keeps counting as having done so.
proof fn lemma_button_marks_stay(
    f: Frame<MouseButton>,
    events: Seq<InputEvent>,
    button: MouseButton,
)
    ensures
        ({
            let g = buttons_after(f, events);
            &&& (f.held.contains(button) ==> f.tapped.contains(button)) ==> (g.held.contains(button)
                ==> g.tapped.contains(button))
            &&& f.raised.contains(button) ==> g.raised.contains(button)
        }),
    decreases events.len(),
{
    if events.len() > 0 {
        lemma_button_marks_stay(f, events.drop_last(), button);
    }
}

/// A flush lets up the buttons that are queued, and no other.
proof fn lemma_flush_of_button(f: Frame<MouseButton>, q: Queued, n: int, button: MouseButton)
    requires
        0 <= n <= flushed(q).len(),
    ensures
        ({
            let g = buttons_after(f, flushed(q).take(n));
            let hit = button_among_first(q, n, button);
            &&& g.held.contains(button) == (f.held.contains(button) && !hit)
            &&& g.tapped == f.tapped
            &&& f.held.contains(button) && hit ==> g.raised.contains(button)
        }),
    decreases n,
{
    let events = flushed(q).take(n);
    if n > 0 {
        lemma_flush_of_button(f, q, n - 1, button);
        assert(events.drop_last() =~= flushed(q).take(n - 1));
        assert(events.last() == flushed(q)[n - 1]);
        let i = n - 1;
        if q.keys.len() <= i < q.keys.len() + q.buttons.len() {
            assert(q.buttons[i - q.keys.len()] == button || q.buttons[i - q.keys.len()] != button);
        }
        let before = button_among_first(q, n - 1, button);
        let now = button_among_first(q, n, button);
        if now && !before {
            let k = choose|i: int|
                q.keys.len() <= i < n && i < q.keys.len() + q.buttons.len()
                    && #[trigger] q.buttons[i - q.keys.len()] == button;
            assert(k == n - 1);
        }
    }
}

/// What one command does to a button's place in the queue.
proof fn lemma_command_queues_button(q: Queued, cmd: InputCommand, button: MouseButton)
    ensures
        ({
            let r = step(q, deed_of(cmd)).0;
            &&& !on_button(cmd, button) ==> queued_buttons(r).contains(button)
                == queued_buttons(q).contains(button)
            &&& does_to_button(cmd, button, KeyAction::Tap) ==> queued_buttons(r).contains(button)
            &&& does_to_button(cmd, button, KeyAction::Press) && queued_once(q)
                ==> !queued_buttons(r).contains(button)
        }),
{
    let r = step(q, deed_of(cmd)).0;
    match deed_of(cmd) {
        Deed::Button(b, _) | Deed::Click(_, _, b) => {
            lemma_button_slot(q.buttons, b);
            let i = button_slot(q.buttons, b);
            let action = match deed_of(cmd) {
                Deed::Button(_, a) => a,
                _ => KeyAction::Tap,
            };
            assert forall|k: MouseButton| k != b implies #[trigger] queued_buttons(r).contains(k)
                == queued_buttons(q).contains(k) by {
                if queued_buttons(q).contains(k) {
                    let j = choose|j: int| 0 <= j < q.buttons.len() && #[trigger] q.buttons[j] == k;
                    if action != KeyAction::Release && j > i {
                        assert(r.buttons[j - 1] == q.buttons[j]);
                    } else {
                        assert(r.buttons[j] == q.buttons[j]);
                    }
                }
                if queued_buttons(r).contains(k) {
                    let j = choose|j: int| 0 <= j < r.buttons.len() && #[trigger] r.buttons[j] == k;
                    if action != KeyAction::Release && j >= i && i < q.buttons.len() {
                        assert(r.buttons[j] == q.buttons[j + 1]);
                    } else {
                        assert(r.buttons[j] == q.buttons[j]);
                    }
                }
            }
            if action == KeyAction::Tap {
                assert(r.buttons[r.buttons.len() - 1] == b);
            }
            if action == KeyAction::Press && queued_once(q) && queued_buttons(r).contains(b) {
                let j = choose|j: int| 0 <= j < r.buttons.len() && #[trigger] r.buttons[j] == b;
                if i < q.buttons.len() {
                    assert(q.buttons[i] == b);
                    if j >= i {
                        assert(r.buttons[j] == q.buttons[j + 1]);
                    } else {
                        assert(r.buttons[j] == q.buttons[j]);
                    }
                }
            }
        },
        _ => {
            assert(queued_buttons(r) =~= queued_buttons(q));
        },
    }
}

/// One event, two events and three events, one after the other.
proof fn lemma_buttons_after_few(f: Frame<MouseButton>, a: InputEvent, b: InputEvent, c: InputEvent)
    ensures
        buttons_after(f, seq![a]) == button_after(f, a),
        buttons_after(f, seq![a, b]) == button_after(button_after(f, a), b),
        buttons_after(f, seq![a, b, c]) == button_after(button_after(button_after(f, a), b), c),
{
    assert(seq![a].drop_last() =~= Seq::<InputEvent>::empty());
    assert(seq![a, b].drop_last() =~= seq![a]);
    assert(seq![a, b, c].drop_last() =~= seq![a, b]);
    assert(buttons_after(f, Seq::empty()) == f);
    assert(buttons_after(f, seq![a]) == button_after(f, a));
    assert(buttons_after(f, seq![a, b]) == button_after(buttons_after(f, seq![a]), b));
}

/// What one command does to a button and to its place in the queue.
proof fn lemma_command_and_button(
    f: Frame<MouseButton>,
    q: Queued,
    cmd: InputCommand,
    button: MouseButton,
)
    ensures
        ({
            let (r, events) = step(q, deed_of(cmd));
            let g = buttons_after(f, events);
            &&& !on_button(cmd, button) ==> {
                &&& queued_buttons(r).contains(button) == queued_buttons(q).contains(button)
                &&& g.held.contains(button) == f.held.contains(button)
                &&& g.tapped.contains(button) == f.tapped.contains(button)
            }
            &&& does_to_button(cmd, button, KeyAction::Tap) ==> {
                &&& queued_buttons(r).contains(button)
                &&& g.held.contains(button)
            }
            &&& does_to_button(cmd, button, KeyAction::Press) && queued_once(q) ==> {
                &&& !queued_buttons(r).contains(button)
                &&& g.held.contains(button)
            }
        }),
{
    lemma_command_queues_button(q, cmd, button);
    let events = step(q, deed_of(cmd)).1;
    let n = events.len() as int;
    if n == 0 {
    } else if n == 1 {
        assert(events =~= seq![events[0]]);
        lemma_buttons_after_few(f, events[0], events[0], events[0]);
    } else if n == 2 {
        assert(events =~= seq![events[0], events[1]]);
        lemma_buttons_after_few(f, events[0], events[1], events[1]);
    } else {
        assert(n == 3);
        assert(events =~= seq![events[0], events[1], events[2]]);
        lemma_buttons_after_few(f, events[0], events[1], events[2]);
    }
}

/// A batch that is not about a button leaves it and its place in the queue alone.
proof fn lemma_batch_off_button(
    f: Frame<MouseButton>,
    q: Queued,
    cmds: Seq<InputCommand>,
    button: MouseButton,
)
    requires
        no_command_on_button(cmds, button),
    ensures
        ({
            let (r, events) = batch(q, cmds);
            let g = buttons_after(f, events);
            &&& queued_buttons(r).contains(button) == queued_buttons(q).contains(button)
            &&& g.held.contains(button) == f.held.contains(button)
            &&& g.tapped.contains(button) == f.tapped.contains(button)
        }),
    decreases cmds.len(),
{
    if cmds.len() > 0 {
        let front = cmds.drop_last();
        assert forall|i: int| 0 <= i < front.len() implies !on_button(
            #[trigger] front[i],
            button,
        ) by {
            assert(front[i] == cmds[i]);
        }
        lemma_batch_off_button(f, q, front, button);
        let (r, events) = batch(q, front);
        let (s, more) = step(r, deed_of(cmds.last()));
        assert(!on_button(cmds[cmds.len() - 1], button));
        lemma_command_and_button(buttons_after(f, events), r, cmds.last(), button);
        lemma_buttons_after_add(f, events, more);
    }
}

/// What a drain leaves of a button when its last command on it is `cmd`.
proof fn lemma_last_command_on_button(
    f: Frame<MouseButton>,
    q: Queued,
    before: Seq<InputCommand>,
    cmd: InputCommand,
    after: Seq<InputCommand>,
    button: MouseButton,
)
    requires
        no_command_on_button(after, button),
    ensures
        ({
            let (r, events) = drained(q, before + seq![cmd] + after);
            let g = buttons_after(f.cleared(), events);
            &&& does_to_button(cmd, button, KeyAction::Tap) ==> {
                &&& queued_buttons(r).contains(button)
                &&& g.held.contains(button)
            }
            &&& does_to_button(cmd, button, KeyAction::Press) ==> {
                &&& !queued_buttons(r).contains(button)
                &&& g.held.contains(button)
            }
            &&& !f.held.contains(button) || queued_buttons(q).contains(button) ==> (g.held.contains(button)
                ==> g.tapped.contains(button))
        }),
{
    let none = nothing_queued();
    let start = buttons_after(f.cleared(), flushed(q));
    assert(flushed(q).take(flushed(q).len() as int) =~= flushed(q));
    lemma_flush_of_button(f.cleared(), q, flushed(q).len() as int, button);
    if queued_buttons(q).contains(button) {
        let j = choose|j: int| 0 <= j < q.buttons.len() && #[trigger] q.buttons[j] == button;
        let i = j + q.keys.len();
        assert(q.buttons[i - q.keys.len()] == button);
    }
    lemma_batch_add(none, before, seq![cmd]);
    lemma_batch_add(none, before + seq![cmd], after);
    lemma_releases_are_queued_once(before);
    let (r, e) = batch(none, before);
    let (s, m) = step(r, deed_of(cmd));
    assert(seq![cmd].drop_last() =~= Seq::<InputCommand>::empty());
    assert(batch(r, seq![cmd].drop_last()) == (r, Seq::<InputEvent>::empty()));
    assert(batch(r, seq![cmd]).1 =~= m);
    let (u, l) = batch(s, after);
    let all = e + m + l;
    assert(batch(none, before + seq![cmd] + after) == (u, all));
    let g1 = buttons_after(start, e);
    lemma_buttons_after_add(start, e, m);
    lemma_buttons_after_add(start, e + m, l);
    lemma_buttons_after_add(f.cleared(), flushed(q), all);
    lemma_command_and_button(g1, r, cmd, button);
    lemma_batch_off_button(buttons_after(g1, m), s, after, button);
    lemma_button_marks_stay(start, all, button);
}

/// A tap is one full cycle, in any batch: where the last command on a button that
/// is up taps it, it goes down in that frame and comes up in the next, whatever
/// else the two batches hold; it stays up unless the second batch speaks of it.
pub proof fn lemma_button_tap_is_one_full_cycle(
    f: Frame<MouseButton>,
    q: Queued,
    before: Seq<InputCommand>,
    tap: InputCommand,
    after: Seq<InputCommand>,
    next: Seq<InputCommand>,
    button: MouseButton,
)
    requires
        does_to_button(tap, button, KeyAction::Tap),
        no_command_on_button(after, button),
        !f.held.contains(button) || queued_buttons(q).contains(button),
    ensures
        ({
            let (queue, events) = drained(q, before + seq![tap] + after);
            let first = buttons_after(f.cleared(), events);
            let second = buttons_after(first.cleared(), drained(queue, next).1);
            &&& first.tapped.contains(button)
            &&& first.held.contains(button)
            &&& second.raised.contains(button)
            &&& no_command_on_button(next, button) ==> !second.held.contains(button)
                && !second.tapped.contains(button)
        }),
{
    lemma_last_command_on_button(f, q, before, tap, after, button);
    let (queue, events) = drained(q, before + seq![tap] + after);
    let first = buttons_after(f.cleared(), events);
    let n = flushed(queue).len() as int;
    assert(flushed(queue).take(n) =~= flushed(queue));
    lemma_flush_of_button(first.cleared(), queue, n, button);
    let j = choose|j: int| 0 <= j < queue.buttons.len() && #[trigger] queue.buttons[j] == button;
    let i = j + queue.keys.len();
    assert(queue.buttons[i - queue.keys.len()] == button);
    let up = buttons_after(first.cleared(), flushed(queue));
    let more = batch(nothing_queued(), next).1;
    lemma_buttons_after_add(first.cleared(), flushed(queue), more);
    lemma_button_marks_stay(up, more, button);
    if no_command_on_button(next, button) {
        lemma_batch_off_button(up, nothing_queued(), next, button);
    }
}

/// A press holds until the button is spoken of again: where the last command on
/// it presses it, it is down in that frame and in the next, whatever taps came
/// before.
pub proof fn lemma_button_press_holds(
    f: Frame<MouseButton>,
    q: Queued,
    before: Seq<InputCommand>,
    press: InputCommand,
    after: Seq<InputCommand>,
    next: Seq<InputCommand>,
    button: MouseButton,
)
    requires
        does_to_button(press, button, KeyAction::Press),
        no_command_on_button(after, button),
        no_command_on_button(next, button),
    ensures
        ({
            let (queue, events) = drained(q, before + seq![press] + after);
            let first = buttons_after(f.cleared(), events);
            let (rest, later) = drained(queue, next);
            let second = buttons_after(first.cleared(), later);
            &&& first.held.contains(button)
            &&& second.held.contains(button)
            &&& !queued_buttons(rest).contains(button)
        }),
{
    lemma_last_command_on_button(f, q, before, press, after, button);
    let (queue, events) = drained(q, before + seq![press] + after);
    let first = buttons_after(f.cleared(), events);
    let n = flushed(queue).len() as int;
    assert(flushed(queue).take(n) =~= flushed(queue));
    lemma_flush_of_button(first.cleared(), queue, n, button);
    let up = buttons_after(first.cleared(), flushed(queue));
    lemma_buttons_after_add(first.cleared(), flushed(queue), batch(nothing_queued(), next).1);
    lemma_batch_off_button(up, nothing_queued(), next, button);
}

/// Each letter and digit stands for the key that bears it.
pub proof fn lemma_characters_name_their_own_keys(c: char)
    ensures
        code_of_char(c) == Some(KeyCode::KeyA) <==> c == 'a',
        code_of_char(c) == Some(KeyCode::KeyB) <==> c == 'b',
        code_of_char(c) == Some(KeyCode::KeyC) <==> c == 'c',
        code_of_char(c) == Some(KeyCode::KeyD) <==> c == 'd',
        code_of_char(c) == Some(KeyCode::KeyE) <==> c == 'e',
        code_of_char(c) == Some(KeyCode::KeyF) <==> c == 'f',
        code_of_char(c) == Some(KeyCode::KeyG) <==> c == 'g',
        code_of_char(c) == Some(KeyCode::KeyH) <==> c == 'h',
        code_of_char(c) == Some(KeyCode::KeyI) <==> c == 'i',
        code_of_char(c) == Some(KeyCode::KeyJ) <==> c == 'j',
        code_of_char(c) == Some(KeyCode::KeyK) <==> c == 'k',
        code_of_char(c) == Some(KeyCode::KeyL) <==> c == 'l',
        code_of_char(c) == Some(KeyCode::KeyM) <==> c == 'm',
        code_of_char(c) == Some(KeyCode::KeyN) <==> c == 'n',
        code_of_char(c) == Some(KeyCode::KeyO) <==> c == 'o',
        code_of_char(c) == Some(KeyCode::KeyP) <==> c == 'p',
        code_of_char(c) == Some(KeyCode::KeyQ) <==> c == 'q',
        code_of_char(c) == Some(KeyCode::KeyR) <==> c == 'r',
        code_of_char(c) == Some(KeyCode::KeyS) <==> c == 's',
        code_of_char(c) == Some(KeyCode::KeyT) <==> c == 't',
        code_of_char(c) == Some(KeyCode::KeyU) <==> c == 'u',
        code_of_char(c) == Some(KeyCode::KeyV) <==> c == 'v',
        code_of_char(c) == Some(KeyCode::KeyW) <==> c == 'w',
        code_of_char(c) == Some(KeyCode::KeyX) <==> c == 'x',
        code_of_char(c) == Some(KeyCode::KeyY) <==> c == 'y',
        code_of_char(c) == Some(KeyCode::KeyZ) <==> c == 'z',
        code_of_char(c) == Some(KeyCode::Digit0) <==> c == '0',
        code_of_char(c) == Some(KeyCode::Digit1) <==> c == '1',
        code_of_char(c) == Some(KeyCode::Digit2) <==> c == '2',
        code_of_char(c) == Some(KeyCode::Digit3) <==> c == '3',
        code_of_char(c) == Some(KeyCode::Digit4) <==> c == '4',
        code_of_char(c) == Some(KeyCode::Digit5) <==> c == '5',
        code_of_char(c) == Some(KeyCode::Digit6) <==> c == '6',
        code_of_char(c) == Some(KeyCode::Digit7) <==> c == '7',
        code_of_char(c) == Some(KeyCode::Digit8) <==> c == '8',
        code_of_char(c) == Some(KeyCode::Digit9) <==> c == '9',
{
}

/// A name of one letter or digit is that key, typing that character, in either case; the case
/// of a name never matters.
pub proof fn lemma_names_are_read_without_case(name: Seq<char>)
    ensures
        key_of(lowered(name)) == key_of(name),
        button_of(lowered(name)) == button_of(name),
        name.len() == 1 && code_of_char(lowered(name)[0]) is Some ==> key_of(name) == Some(
            (code_of_char(lowered(name)[0])->0, Key::Character(lowered(name)[0])),
        ),
{
    assert(lowered(lowered(name)) =~= lowered(name));
}

/// A longer name stands for the key that it names and for no other, and every such name is
/// known.
#[verifier::rlimit(60)]
pub proof fn lemma_names_name_their_own_keys(name: Seq<char>)
    ensures
        key_of(name) is Some && ((key_of(name)->0).0 == KeyCode::Tab || (key_of(name)->0).1
            == Key::Tab) ==> lowered(name) == "tab"@ && key_of(name)->0 == (KeyCode::Tab, Key::Tab),
        key_of(name) is Some && ((key_of(name)->0).0 == KeyCode::Space || (key_of(name)->0).1
            == Key::Space) ==> lowered(name) == "space"@ && key_of(name)->0 == (KeyCode::Space, Key::Space),
        key_of(name) is Some && ((key_of(name)->0).0 == KeyCode::Backspace || (key_of(name)->0).1
            == Key::Backspace) ==> lowered(name) == "backspace"@ && key_of(name)->0 == (KeyCode::Backspace, Key::Backspace),
        key_of(name) is Some && ((key_of(name)->0).0 == KeyCode::ArrowUp || (key_of(name)->0).1
            == Key::ArrowUp) ==> lowered(name) == "up"@ && key_of(name)->0 == (KeyCode::ArrowUp, Key::ArrowUp),
        key_of(name) is Some && ((key_of(name)->0).0 == KeyCode::ArrowDown || (key_of(name)->0).1
            == Key::ArrowDown) ==> lowered(name) == "down"@ && key_of(name)->0 == (KeyCode::ArrowDown, Key::ArrowDown),
        key_of(name) is Some && ((key_of(name)->0).0 == KeyCode::ArrowLeft || (key_of(name)->0).1
            == Key::ArrowLeft) ==> lowered(name) == "left"@ && key_of(name)->0 == (KeyCode::ArrowLeft, Key::ArrowLeft),
        key_of(name) is Some && ((key_of(name)->0).0 == KeyCode::ArrowRight || (key_of(name)->0).1
            == Key::ArrowRight) ==> lowered(name) == "right"@ && key_of(name)->0 == (KeyCode::ArrowRight, Key::ArrowRight),
        key_of(name) is Some && ((key_of(name)->0).0 == KeyCode::F1 || (key_of(name)->0).1
            == Key::F1) ==> lowered(name) == "f1"@ && key_of(name)->0 == (KeyCode::F1, Key::F1),
        key_of(name) is Some && ((key_of(name)->0).0 == KeyCode::F2 || (key_of(name)->0).1
            == Key::F2) ==> lowered(name) == "f2"@ && key_of(name)->0 == (KeyCode::F2, Key::F2),
        key_of(name) is Some && ((key_of(name)->0).0 == KeyCode::F3 || (key_of(name)->0).1
            == Key::F3) ==> lowered(name) == "f3"@ && key_of(name)->0 == (KeyCode::F3, Key::F3),
        key_of(name) is Some && ((key_of(name)->0).0 == KeyCode::F4 || (key_of(name)->0).1
            == Key::F4) ==> lowered(name) == "f4"@ && key_of(name)->0 == (KeyCode::F4, Key::F4),
        key_of(name) is Some && ((key_of(name)->0).0 == KeyCode::F5 || (key_of(name)->0).1
            == Key::F5) ==> lowered(name) == "f5"@ && key_of(name)->0 == (KeyCode::F5, Key::F5),
        key_of(name) is Some && ((key_of(name)->0).0 == KeyCode::F6 || (key_of(name)->0).1
            == Key::F6) ==> lowered(name) == "f6"@ && key_of(name)->0 == (KeyCode::F6, Key::F6),
        key_of(name) is Some && ((key_of(name)->0).0 == KeyCode::F7 || (key_of(name)->0).1
            == Key::F7) ==> lowered(name) == "f7"@ && key_of(name)->0 == (KeyCode::F7, Key::F7),
        key_of(name) is Some && ((key_of(name)->0).0 == KeyCode::F8 || (key_of(name)->0).1
            == Key::F8) ==> lowered(name) == "f8"@ && key_of(name)->0 == (KeyCode::F8, Key::F8),
        key_of(name) is Some && ((key_of(name)->0).0 == KeyCode::F9 || (key_of(name)->0).1
            == Key::F9) ==> lowered(name) == "f9"@ && key_of(name)->0 == (KeyCode::F9, Key::F9),
        key_of(name) is Some && ((key_of(name)->0).0 == KeyCode::F10 || (key_of(name)->0).1
            == Key::F10) ==> lowered(name) == "f10"@ && key_of(name)->0 == (KeyCode::F10, Key::F10),
        key_of(name) is Some && ((key_of(name)->0).0 == KeyCode::F11 || (key_of(name)->0).1
            == Key::F11) ==> lowered(name) == "f11"@ && key_of(name)->0 == (KeyCode::F11, Key::F11),
        key_of(name) is Some && ((key_of(name)->0).0 == KeyCode::F12 || (key_of(name)->0).1
            == Key::F12) ==> lowered(name) == "f12"@ && key_of(name)->0 == (KeyCode::F12, Key::F12),
        key_of(name) is Some && ((key_of(name)->0).0 == KeyCode::Enter || (key_of(name)->0).1
            == Key::Enter) ==> (lowered(name) == "enter"@ || lowered(name) == "return"@) && key_of(name)->0 == (KeyCode::Enter, Key::Enter),
        key_of(name) is Some && ((key_of(name)->0).0 == KeyCode::Escape || (key_of(name)->0).1
            == Key::Escape) ==> (lowered(name) == "escape"@ || lowered(name) == "esc"@) && key_of(name)->0 == (KeyCode::Escape, Key::Escape),
        key_of(name) is Some && ((key_of(name)->0).0 == KeyCode::ShiftLeft || (key_of(name)->0).1
            == Key::Shift) ==> (lowered(name) == "shift"@) && key_of(name)->0 == (KeyCode::ShiftLeft, Key::Shift),
        key_of(name) is Some && ((key_of(name)->0).0 == KeyCode::ControlLeft || (key_of(name)->0).1
            == Key::Control) ==> (lowered(name) == "ctrl"@ || lowered(name) == "control"@) && key_of(name)->0 == (KeyCode::ControlLeft, Key::Control),
        key_of(name) is Some && ((key_of(name)->0).0 == KeyCode::Comma || (key_of(name)->0).1
            == Key::Character(',')) ==> lowered(name) == "comma"@ && key_of(name)->0 == (KeyCode::Comma, Key::Character(',')),
        key_of(name) is Some && ((key_of(name)->0).0 == KeyCode::Period || (key_of(name)->0).1
            == Key::Character('.')) ==> lowered(name) == "period"@ && key_of(name)->0 == (KeyCode::Period, Key::Character('.')),
        key_of(name) is Some && ((key_of(name)->0).0 == KeyCode::Minus || (key_of(name)->0).1
            == Key::Character('-')) ==> lowered(name) == "minus"@ && key_of(name)->0 == (KeyCode::Minus, Key::Character('-')),
        lowered(name) == "enter"@ ==> key_of(name) is Some,
        lowered(name) == "return"@ ==> key_of(name) is Some,
        lowered(name) == "tab"@ ==> key_of(name) is Some,
        lowered(name) == "escape"@ ==> key_of(name) is Some,
        lowered(name) == "esc"@ ==> key_of(name) is Some,
        lowered(name) == "space"@ ==> key_of(name) is Some,
        lowered(name) == "backspace"@ ==> key_of(name) is Some,
        lowered(name) == "shift"@ ==> key_of(name) is Some,
        lowered(name) == "ctrl"@ ==> key_of(name) is Some,
        lowered(name) == "control"@ ==> key_of(name) is Some,
        lowered(name) == "up"@ ==> key_of(name) is Some,
        lowered(name) == "down"@ ==> key_of(name) is Some,
        lowered(name) == "left"@ ==> key_of(name) is Some,
        lowered(name) == "right"@ ==> key_of(name) is Some,
        lowered(name) == "comma"@ ==> key_of(name) is Some,
        lowered(name) == "period"@ ==> key_of(name) is Some,
        lowered(name) == "minus"@ ==> key_of(name) is Some,
        lowered(name) == "f1"@ ==> key_of(name) is Some,
        lowered(name) == "f2"@ ==> key_of(name) is Some,
        lowered(name) == "f3"@ ==> key_of(name) is Some,
        lowered(name) == "f4"@ ==> key_of(name) is Some,
        lowered(name) == "f5"@ ==> key_of(name) is Some,
        lowered(name) == "f6"@ ==> key_of(name) is Some,
        lowered(name) == "f7"@ ==> key_of(name) is Some,
        lowered(name) == "f8"@ ==> key_of(name) is Some,
        lowered(name) == "f9"@ ==> key_of(name) is Some,
        lowered(name) == "f10"@ ==> key_of(name) is Some,
        lowered(name) == "f11"@ ==> key_of(name) is Some,
        lowered(name) == "f12"@ ==> key_of(name) is Some,
{
}

/// A button goes by its own name, and there are three of them.
pub proof fn lemma_buttons_go_by_their_names(name: Seq<char>)
    ensures
        button_of(name) == Some(MouseButton::Left) ==> lowered(name) == "left"@,
        button_of(name) == Some(MouseButton::Right) ==> lowered(name) == "right"@,
        button_of(name) == Some(MouseButton::Middle) ==> lowered(name) == "middle"@,
        button_of(name) is Some <==> (lowered(name) == "left"@ || lowered(name) == "right"@
            || lowered(name) == "middle"@),
{
}

/// A command is refused exactly if it names a key or a button that is not known, and the
/// message ends in that name.
pub proof fn lemma_only_unknown_names_are_refused(cmd: InputCommand)
    ensures
        match cmd {
            InputCommand::Key { key, action } => (complaint(cmd) is Some <==> key_of(key@) is None)
                && (complaint(cmd) is Some ==> complaint(cmd)->0 == "unknown key: "@ + key@),
            InputCommand::MouseButton { button, action } => (complaint(cmd) is Some <==> button_of(
                button@,
            ) is None) && (complaint(cmd) is Some ==> complaint(cmd)->0
                == "unknown mouse button: "@ + button@),
            InputCommand::Click { x, y, button } => (complaint(cmd) is Some <==> button is Some
                && button_of((button->0)@) is None) && (complaint(cmd) is Some ==> complaint(cmd)->0
                == "unknown mouse button: "@ + (button->0)@),
            _ => complaint(cmd) is None,
        },
        cmd !is Click ==> (complaint(cmd) is Some <==> deed_of(cmd) == Deed::Nothing),
{
}

/// Only a press types, and it types the character of its key or the space of the space bar.
pub proof fn lemma_only_presses_type(code: KeyCode, logical: Key, pressed: bool)
    ensures
        ({
            let e = key_event_of(code, logical, pressed);
            &&& e.key_code == code && e.logical_key == logical && e.pressed == pressed
            &&& !e.repeat
            &&& e.text is Some ==> pressed && (logical == Key::Space || logical is Character)
            &&& pressed && logical == Key::Space ==> e.text == Some(' ')
            &&& pressed && logical is Character ==> e.text == Some(logical->Character_0)
        }),
{
}

/// One command on its own: a move puts the cursor where it says, a scroll turns the wheel by
/// what it says, a click moves first and presses then, and a press or a release does just that.
/// Only a tap and a click leave a release behind, of their own key or button.
pub proof fn lemma_one_command_does_what_it_says(cmd: InputCommand)
    ensures
        ({
            let (queue, events) = drained(nothing_queued(), seq![cmd]);
            match cmd {
                InputCommand::CursorMove { x, y } => queue == nothing_queued() && events == seq![
                    InputEvent::Cursor { x, y },
                ],
                InputCommand::Scroll { lines } => queue == nothing_queued() && events == seq![
                    InputEvent::Wheel { lines },
                ],
                InputCommand::Click { x, y, button } => {
                    let b = if button is Some && button_of((button->0)@) is Some {
                        button_of((button->0)@)->0
                    } else {
                        MouseButton::Left
                    };
                    &&& events == seq![
                        InputEvent::Cursor { x, y },
                        InputEvent::Button { button: b, pressed: true },
                    ]
                    &&& queue.buttons == seq![b] && queue.keys.len() == 0
                },
                InputCommand::MouseButton { button, action } => match button_of(button@) {
                    None => queue == nothing_queued() && events.len() == 0,
                    Some(b) => {
                        &&& events == seq![
                            InputEvent::Button { button: b, pressed: action != KeyAction::Release },
                        ]
                        &&& queue.keys.len() == 0
                        &&& queue.buttons == (if action == KeyAction::Tap {
                            seq![b]
                        } else {
                            Seq::empty()
                        })
                    },
                },
                InputCommand::Key { key, action } => match key_of(key@) {
                    None => queue == nothing_queued() && events.len() == 0,
                    Some((code, logical)) => {
                        &&& events.len() == 1
                        &&& (events[0] matches InputEvent::Key(e) && e.key_code == code
                            && e.logical_key == logical && e.pressed == (action
                            != KeyAction::Release))
                        &&& queue.buttons.len() == 0
                        &&& queue.keys == (if action == KeyAction::Tap {
                            seq![(code, logical)]
                        } else {
                            Seq::empty()
                        })
                    },
                },
            }
        }),
{
    let s = seq![cmd];
    let q0 = nothing_queued();
    assert(s.drop_last() =~= Seq::<InputCommand>::empty());
    assert(batch(q0, s.drop_last()) == (q0, Seq::<InputEvent>::empty()));
    assert(flushed(q0) =~= Seq::<InputEvent>::empty());
    let (queue, events) = drained(q0, s);
    assert(events =~= step(q0, deed_of(cmd)).1);
    assert(queue == step(q0, deed_of(cmd)).0);
}

/// A drain first lets up what the one before left down, each key and then each button, and
/// does nothing else to them; what the batch does comes after.
pub proof fn lemma_queued_releases_come_first(q: Queued, cmds: Seq<InputCommand>, i: int)
    ensures
        ({
            let (left, events) = drained(q, cmds);
            let (k, b) = (q.keys.len() as int, q.buttons.len() as int);
            &&& events.len() >= k + b
            &&& 0 <= i < k ==> (events[i] matches InputEvent::Key(e) && e.key_code == q.keys[i].0
                && e.logical_key == q.keys[i].1 && !e.pressed)
            &&& 0 <= i < b ==> (events[k + i] matches InputEvent::Button { button, pressed }
                && button == q.buttons[i] && !pressed)
            &&& events.skip(k + b) == drained(nothing_queued(), cmds).1
            &&& left == drained(nothing_queued(), cmds).0
        }),
{
    let (left, events) = drained(q, cmds);
    let (k, b) = (q.keys.len() as int, q.buttons.len() as int);
    assert(flushed(nothing_queued()) =~= Seq::<InputEvent>::empty());
    assert(events.skip(k + b) =~= drained(nothing_queued(), cmds).1);
}

} // verus!
