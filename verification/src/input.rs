//! Keyboard and mouse button state, frame by frame.
//!
//! The state itself is kept by Bevy's `ButtonInput`, which holds each button as
//! a small integer code; [`Keyboard`] and [`Mouse`] give it its meaning.

use bevy::input::ButtonInput;
use vstd::prelude::*;

verus! {

/// A physical key of a US layout.
#[derive(Clone, Copy, Debug, PartialEq, Eq, Structural)]
pub enum KeyCode {
    KeyA,
    KeyB,
    KeyC,
    KeyD,
    KeyE,
    KeyF,
    KeyG,
    KeyH,
    KeyI,
    KeyJ,
    KeyK,
    KeyL,
    KeyM,
    KeyN,
    KeyO,
    KeyP,
    KeyQ,
    KeyR,
    KeyS,
    KeyT,
    KeyU,
    KeyV,
    KeyW,
    KeyX,
    KeyY,
    KeyZ,
    Digit0,
    Digit1,
    Digit2,
    Digit3,
    Digit4,
    Digit5,
    Digit6,
    Digit7,
    Digit8,
    Digit9,
    Enter,
    Tab,
    Escape,
    Space,
    Backspace,
    ShiftLeft,
    ShiftRight,
    ControlLeft,
    ControlRight,
    ArrowUp,
    ArrowDown,
    ArrowLeft,
    ArrowRight,
    PageUp,
    PageDown,
    Comma,
    Period,
    Minus,
    BracketLeft,
    BracketRight,
    F1,
    F2,
    F3,
    F4,
    F5,
    F6,
    F7,
    F8,
    F9,
    F10,
    F11,
    F12,
}

/// A mouse button.
#[derive(Clone, Copy, Debug, PartialEq, Eq, Structural)]
pub enum MouseButton {
    Left,
    Right,
    Middle,
}

impl KeyCode {
    /// The code under which the key is kept.
    pub open spec fn code_of(self) -> u32 {
        match self {
            KeyCode::KeyA => 0,
            KeyCode::KeyB => 1,
            KeyCode::KeyC => 2,
            KeyCode::KeyD => 3,
            KeyCode::KeyE => 4,
            KeyCode::KeyF => 5,
            KeyCode::KeyG => 6,
            KeyCode::KeyH => 7,
            KeyCode::KeyI => 8,
            KeyCode::KeyJ => 9,
            KeyCode::KeyK => 10,
            KeyCode::KeyL => 11,
            KeyCode::KeyM => 12,
            KeyCode::KeyN => 13,
            KeyCode::KeyO => 14,
            KeyCode::KeyP => 15,
            KeyCode::KeyQ => 16,
            KeyCode::KeyR => 17,
            KeyCode::KeyS => 18,
            KeyCode::KeyT => 19,
            KeyCode::KeyU => 20,
            KeyCode::KeyV => 21,
            KeyCode::KeyW => 22,
            KeyCode::KeyX => 23,
            KeyCode::KeyY => 24,
            KeyCode::KeyZ => 25,
            KeyCode::Digit0 => 26,
            KeyCode::Digit1 => 27,
            KeyCode::Digit2 => 28,
            KeyCode::Digit3 => 29,
            KeyCode::Digit4 => 30,
            KeyCode::Digit5 => 31,
            KeyCode::Digit6 => 32,
            KeyCode::Digit7 => 33,
            KeyCode::Digit8 => 34,
            KeyCode::Digit9 => 35,
            KeyCode::Enter => 36,
            KeyCode::Tab => 37,
            KeyCode::Escape => 38,
            KeyCode::Space => 39,
            KeyCode::Backspace => 40,
            KeyCode::ShiftLeft => 41,
            KeyCode::ShiftRight => 42,
            KeyCode::ControlLeft => 43,
            KeyCode::ControlRight => 44,
            KeyCode::ArrowUp => 45,
            KeyCode::ArrowDown => 46,
            KeyCode::ArrowLeft => 47,
            KeyCode::ArrowRight => 48,
            KeyCode::PageUp => 49,
            KeyCode::PageDown => 50,
            KeyCode::Comma => 51,
            KeyCode::Period => 52,
            KeyCode::Minus => 53,
            KeyCode::BracketLeft => 54,
            KeyCode::BracketRight => 55,
            KeyCode::F1 => 56,
            KeyCode::F2 => 57,
            KeyCode::F3 => 58,
            KeyCode::F4 => 59,
            KeyCode::F5 => 60,
            KeyCode::F6 => 61,
            KeyCode::F7 => 62,
            KeyCode::F8 => 63,
            KeyCode::F9 => 64,
            KeyCode::F10 => 65,
            KeyCode::F11 => 66,
            KeyCode::F12 => 67,
        }
    }

    /// The code under which the key is kept.
    pub fn code(self) -> (c: u32)
        ensures
            c == self.code_of(),
    {
        match self {
            KeyCode::KeyA => 0,
            KeyCode::KeyB => 1,
            KeyCode::KeyC => 2,
            KeyCode::KeyD => 3,
            KeyCode::KeyE => 4,
            KeyCode::KeyF => 5,
            KeyCode::KeyG => 6,
            KeyCode::KeyH => 7,
            KeyCode::KeyI => 8,
            KeyCode::KeyJ => 9,
            KeyCode::KeyK => 10,
            KeyCode::KeyL => 11,
            KeyCode::KeyM => 12,
            KeyCode::KeyN => 13,
            KeyCode::KeyO => 14,
            KeyCode::KeyP => 15,
            KeyCode::KeyQ => 16,
            KeyCode::KeyR => 17,
            KeyCode::KeyS => 18,
            KeyCode::KeyT => 19,
            KeyCode::KeyU => 20,
            KeyCode::KeyV => 21,
            KeyCode::KeyW => 22,
            KeyCode::KeyX => 23,
            KeyCode::KeyY => 24,
            KeyCode::KeyZ => 25,
            KeyCode::Digit0 => 26,
            KeyCode::Digit1 => 27,
            KeyCode::Digit2 => 28,
            KeyCode::Digit3 => 29,
            KeyCode::Digit4 => 30,
            KeyCode::Digit5 => 31,
            KeyCode::Digit6 => 32,
            KeyCode::Digit7 => 33,
            KeyCode::Digit8 => 34,
            KeyCode::Digit9 => 35,
            KeyCode::Enter => 36,
            KeyCode::Tab => 37,
            KeyCode::Escape => 38,
            KeyCode::Space => 39,
            KeyCode::Backspace => 40,
            KeyCode::ShiftLeft => 41,
            KeyCode::ShiftRight => 42,
            KeyCode::ControlLeft => 43,
            KeyCode::ControlRight => 44,
            KeyCode::ArrowUp => 45,
            KeyCode::ArrowDown => 46,
            KeyCode::ArrowLeft => 47,
            KeyCode::ArrowRight => 48,
            KeyCode::PageUp => 49,
            KeyCode::PageDown => 50,
            KeyCode::Comma => 51,
            KeyCode::Period => 52,
            KeyCode::Minus => 53,
            KeyCode::BracketLeft => 54,
            KeyCode::BracketRight => 55,
            KeyCode::F1 => 56,
            KeyCode::F2 => 57,
            KeyCode::F3 => 58,
            KeyCode::F4 => 59,
            KeyCode::F5 => 60,
            KeyCode::F6 => 61,
            KeyCode::F7 => 62,
            KeyCode::F8 => 63,
            KeyCode::F9 => 64,
            KeyCode::F10 => 65,
            KeyCode::F11 => 66,
            KeyCode::F12 => 67,
        }
    }
}

impl MouseButton {
    /// The code under which the button is kept.
    pub open spec fn code_of(self) -> u32 {
        match self {
            MouseButton::Left => 0,
            MouseButton::Right => 1,
            MouseButton::Middle => 2,
        }
    }

    /// The code under which the button is kept.
    pub fn code(self) -> (c: u32)
        ensures
            c == self.code_of(),
    {
        match self {
            MouseButton::Left => 0,
            MouseButton::Right => 1,
            MouseButton::Middle => 2,
        }
    }
}

/// Different keys have different codes.
pub proof fn lemma_key_codes_differ(a: KeyCode, b: KeyCode)
    ensures
        a.code_of() == b.code_of() <==> a == b,
{
}

/// Different buttons have different codes.
pub proof fn lemma_button_codes_differ(a: MouseButton, b: MouseButton)
    ensures
        a.code_of() == b.code_of() <==> a == b,
{
}

/// Bevy's button-state collection.
#[verifier::external_type_specification]
#[verifier::external_body]
#[verifier::reject_recursive_types(T)]
pub struct ExButtonInput<T: Clone + Eq + std::hash::Hash + Send + Sync + 'static>(
    bevy::input::ButtonInput<T>,
);

/// The codes that are down: what `ButtonInput` keeps as `pressed`.
pub uninterp spec fn held_codes(b: ButtonInput<u32>) -> Set<u32>;

/// The codes that went down this frame: what `ButtonInput` keeps as
/// `just_pressed`.
pub uninterp spec fn tapped_codes(b: ButtonInput<u32>) -> Set<u32>;

/// The codes that came up this frame: what `ButtonInput` keeps as
/// `just_released`.
pub uninterp spec fn raised_codes(b: ButtonInput<u32>) -> Set<u32>;

/// `ButtonInput::default`: nothing is down and nothing has changed.
#[verifier::external_body]
fn no_buttons() -> (b: ButtonInput<u32>)
    ensures
        held_codes(b) == Set::<u32>::empty(),
        tapped_codes(b) == Set::<u32>::empty(),
        raised_codes(b) == Set::<u32>::empty(),
{
    ButtonInput::default()
}

/// `ButtonInput::press`: the code is down; it counts as having gone down this
/// frame unless it was down already.
#[verifier::external_body]
fn press_code(b: &mut ButtonInput<u32>, code: u32)
    ensures
        held_codes(*final(b)) == held_codes(*old(b)).insert(code),
        tapped_codes(*final(b)) == (if held_codes(*old(b)).contains(code) {
            tapped_codes(*old(b))
        } else {
            tapped_codes(*old(b)).insert(code)
        }),
        raised_codes(*final(b)) == raised_codes(*old(b)),
{
    b.press(code);
}

/// `ButtonInput::release`: the code is up; it counts as having come up this
/// frame if it was down.
#[verifier::external_body]
fn release_code(b: &mut ButtonInput<u32>, code: u32)
    ensures
        held_codes(*final(b)) == held_codes(*old(b)).remove(code),
        tapped_codes(*final(b)) == tapped_codes(*old(b)),
        raised_codes(*final(b)) == (if held_codes(*old(b)).contains(code) {
            raised_codes(*old(b)).insert(code)
        } else {
            raised_codes(*old(b))
        }),
{
    b.release(code);
}

/// `ButtonInput::clear`: a new frame, in which nothing has changed yet; what is
/// down stays down.
#[verifier::external_body]
fn next_frame(b: &mut ButtonInput<u32>)
    ensures
        held_codes(*final(b)) == held_codes(*old(b)),
        tapped_codes(*final(b)) == Set::<u32>::empty(),
        raised_codes(*final(b)) == Set::<u32>::empty(),
{
    b.clear();
}

/// `ButtonInput::clear_just_pressed`: the code no longer counts as having gone
/// down this frame; whether it did is returned.
#[verifier::external_body]
fn consume_code(b: &mut ButtonInput<u32>, code: u32) -> (r: bool)
    ensures
        r == tapped_codes(*old(b)).contains(code),
        held_codes(*final(b)) == held_codes(*old(b)),
        tapped_codes(*final(b)) == tapped_codes(*old(b)).remove(code),
        raised_codes(*final(b)) == raised_codes(*old(b)),
{
    b.clear_just_pressed(code)
}

/// `ButtonInput::pressed`: whether the code is down.
#[verifier::external_body]
fn code_pressed(b: &ButtonInput<u32>, code: u32) -> (r: bool)
    ensures
        r == held_codes(*b).contains(code),
{
    b.pressed(code)
}

/// `ButtonInput::just_pressed`: whether the code went down this frame.
#[verifier::external_body]
fn code_just_pressed(b: &ButtonInput<u32>, code: u32) -> (r: bool)
    ensures
        r == tapped_codes(*b).contains(code),
{
    b.just_pressed(code)
}

/// `ButtonInput::just_released`: whether the code came up this frame.
#[verifier::external_body]
fn code_just_released(b: &ButtonInput<u32>, code: u32) -> (r: bool)
    ensures
        r == raised_codes(*b).contains(code),
{
    b.just_released(code)
}

/// What a set of buttons is doing: which are down, which went down this frame,
/// which came up this frame.
#[verifier::ext_equal]
#[verifier::reject_recursive_types(B)]
pub struct Frame<B> {
    pub held: Set<B>,
    pub tapped: Set<B>,
    pub raised: Set<B>,
}

impl<B> Frame<B> {
    /// Nothing down, nothing changed.
    pub open spec fn idle() -> Frame<B> {
        Frame { held: Set::empty(), tapped: Set::empty(), raised: Set::empty() }
    }

    /// One button goes down.
    pub open spec fn pressing(self, b: B) -> Frame<B> {
        Frame {
            held: self.held.insert(b),
            tapped: if self.held.contains(b) {
                self.tapped
            } else {
                self.tapped.insert(b)
            },
            raised: self.raised,
        }
    }

    /// One button comes up.
    pub open spec fn releasing(self, b: B) -> Frame<B> {
        Frame {
            held: self.held.remove(b),
            tapped: self.tapped,
            raised: if self.held.contains(b) {
                self.raised.insert(b)
            } else {
                self.raised
            },
        }
    }

    /// One button's press is taken note of, and no longer counts as new.
    pub open spec fn consuming(self, b: B) -> Frame<B> {
        Frame { held: self.held, tapped: self.tapped.remove(b), raised: self.raised }
    }

    /// The next frame begins.
    pub open spec fn cleared(self) -> Frame<B> {
        Frame { held: self.held, tapped: Set::empty(), raised: Set::empty() }
    }
}

/// The keyboard.
pub struct Keyboard {
    buttons: ButtonInput<u32>,
}

impl View for Keyboard {
    type V = Frame<KeyCode>;

    closed spec fn view(&self) -> Frame<KeyCode> {
        Frame {
            held: Set::new(|k: KeyCode| held_codes(self.buttons).contains(k.code_of())),
            tapped: Set::new(|k: KeyCode| tapped_codes(self.buttons).contains(k.code_of())),
            raised: Set::new(|k: KeyCode| raised_codes(self.buttons).contains(k.code_of())),
        }
    }
}

impl Keyboard {
    /// Whether `k` is down.
    pub open spec fn held(self, k: KeyCode) -> bool {
        self@.held.contains(k)
    }

    /// Whether `k` went down this frame.
    pub open spec fn tapped(self, k: KeyCode) -> bool {
        self@.tapped.contains(k)
    }

    /// Whether `k` went down this frame and no other key did.
    pub open spec fn lone_tap(self, k: KeyCode) -> bool {
        &&& self.tapped(k)
        &&& forall|other: KeyCode| #[trigger] self.tapped(other) ==> other == k
    }

    /// A keyboard at rest.
    pub fn new() -> (k: Keyboard)
        ensures
            k@ == Frame::<KeyCode>::idle(),
    {
        let k = Keyboard { buttons: no_buttons() };
        assert(k@ =~= Frame::<KeyCode>::idle());
        k
    }

    /// Puts a key down.
    pub fn press(&mut self, key: KeyCode)
        ensures
            final(self)@ == old(self)@.pressing(key),
    {
        let ghost before = self@;
        press_code(&mut self.buttons, key.code());
        proof {
            assert forall|k: KeyCode| k.code_of() == key.code_of() <==> k == key by {
                lemma_key_codes_differ(k, key);
            }
            assert(self@ =~= before.pressing(key));
        }
    }

    /// Lets a key up.
    pub fn release(&mut self, key: KeyCode)
        ensures
            final(self)@ == old(self)@.releasing(key),
    {
        let ghost before = self@;
        release_code(&mut self.buttons, key.code());
        proof {
            assert forall|k: KeyCode| k.code_of() == key.code_of() <==> k == key by {
                lemma_key_codes_differ(k, key);
            }
            assert(self@ =~= before.releasing(key));
        }
    }

    /// Begins a new frame.
    pub fn clear(&mut self)
        ensures
            final(self)@ == old(self)@.cleared(),
    {
        let ghost before = self@;
        next_frame(&mut self.buttons);
        assert(self@ =~= before.cleared());
    }

    /// Takes note of a key's press, which no longer counts as new; whether it
    /// did is returned.
    pub fn clear_just_pressed(&mut self, key: KeyCode) -> (r: bool)
        ensures
            r == old(self).tapped(key),
            final(self)@ == old(self)@.consuming(key),
    {
        let ghost before = self@;
        let r: bool = consume_code(&mut self.buttons, key.code());
        proof {
            assert forall|k: KeyCode| k.code_of() == key.code_of() <==> k == key by {
                lemma_key_codes_differ(k, key);
            }
            assert(self@ =~= before.consuming(key));
        }
        r
    }

    /// Whether `key` is down.
    pub fn pressed(&self, key: KeyCode) -> (r: bool)
        ensures
            r == self.held(key),
    {
        code_pressed(&self.buttons, key.code())
    }

    /// Whether `key` went down this frame.
    pub fn just_pressed(&self, key: KeyCode) -> (r: bool)
        ensures
            r == self.tapped(key),
    {
        code_just_pressed(&self.buttons, key.code())
    }

    /// Whether `key` came up this frame.
    pub fn just_released(&self, key: KeyCode) -> (r: bool)
        ensures
            r == self@.raised.contains(key),
    {
        code_just_released(&self.buttons, key.code())
    }
}

/// The mouse buttons.
pub struct Mouse {
    buttons: ButtonInput<u32>,
}

impl View for Mouse {
    type V = Frame<MouseButton>;

    closed spec fn view(&self) -> Frame<MouseButton> {
        Frame {
            held: Set::new(|k: MouseButton| held_codes(self.buttons).contains(k.code_of())),
            tapped: Set::new(|k: MouseButton| tapped_codes(self.buttons).contains(k.code_of())),
            raised: Set::new(|k: MouseButton| raised_codes(self.buttons).contains(k.code_of())),
        }
    }
}

impl Mouse {
    /// Whether `b` is down.
    pub open spec fn held(self, b: MouseButton) -> bool {
        self@.held.contains(b)
    }

    /// Whether `b` went down this frame.
    pub open spec fn tapped(self, b: MouseButton) -> bool {
        self@.tapped.contains(b)
    }

    /// A mouse at rest.
    pub fn new() -> (m: Mouse)
        ensures
            m@ == Frame::<MouseButton>::idle(),
    {
        let m = Mouse { buttons: no_buttons() };
        assert(m@ =~= Frame::<MouseButton>::idle());
        m
    }

    /// Puts a button down.
    pub fn press(&mut self, button: MouseButton)
        ensures
            final(self)@ == old(self)@.pressing(button),
    {
        let ghost before = self@;
        press_code(&mut self.buttons, button.code());
        proof {
            assert forall|b: MouseButton| b.code_of() == button.code_of() <==> b == button by {
                lemma_button_codes_differ(b, button);
            }
            assert(self@ =~= before.pressing(button));
        }
    }

    /// Lets a button up.
    pub fn release(&mut self, button: MouseButton)
        ensures
            final(self)@ == old(self)@.releasing(button),
    {
        let ghost before = self@;
        release_code(&mut self.buttons, button.code());
        proof {
            assert forall|b: MouseButton| b.code_of() == button.code_of() <==> b == button by {
                lemma_button_codes_differ(b, button);
            }
            assert(self@ =~= before.releasing(button));
        }
    }

    /// Begins a new frame.
    pub fn clear(&mut self)
        ensures
            final(self)@ == old(self)@.cleared(),
    {
        let ghost before = self@;
        next_frame(&mut self.buttons);
        assert(self@ =~= before.cleared());
    }

    /// Whether `button` is down.
    pub fn pressed(&self, button: MouseButton) -> (r: bool)
        ensures
            r == self.held(button),
    {
        code_pressed(&self.buttons, button.code())
    }

    /// Whether `button` went down this frame.
    pub fn just_pressed(&self, button: MouseButton) -> (r: bool)
        ensures
            r == self.tapped(button),
    {
        code_just_pressed(&self.buttons, button.code())
    }

    /// Whether `button` came up this frame.
    pub fn just_released(&self, button: MouseButton) -> (r: bool)
        ensures
            r == self@.raised.contains(button),
    {
        code_just_released(&self.buttons, button.code())
    }
}

/// A press puts a button down and counts once, for a button that was up; a release lets it up
/// and counts once, for one that was down; neither touches another button. A new frame forgets
/// what changed and keeps what is down.
pub proof fn lemma_presses_and_releases_count_once(f: Frame<KeyCode>, b: KeyCode, other: KeyCode)
    requires
        other != b,
    ensures
        f.pressing(b).held.contains(b),
        !f.held.contains(b) ==> f.pressing(b).tapped.contains(b),
        f.held.contains(b) ==> f.pressing(b) == f,
        f.releasing(b).held.contains(b) == false,
        f.held.contains(b) ==> f.releasing(b).raised.contains(b),
        !f.held.contains(b) ==> f.releasing(b) == f,
        f.pressing(b).held.contains(other) == f.held.contains(other),
        f.pressing(b).tapped.contains(other) == f.tapped.contains(other),
        f.pressing(b).raised == f.raised,
        f.releasing(b).held.contains(other) == f.held.contains(other),
        f.releasing(b).raised.contains(other) == f.raised.contains(other),
        f.releasing(b).tapped == f.tapped,
        f.cleared().held == f.held,
        f.cleared().tapped.is_empty() && f.cleared().raised.is_empty(),
        !f.consuming(b).tapped.contains(b),
        f.consuming(b).tapped.contains(other) == f.tapped.contains(other),
        f.consuming(b).held == f.held && f.consuming(b).raised == f.raised,
        Frame::<KeyCode>::idle().held.is_empty() && Frame::<KeyCode>::idle().tapped.is_empty()
            && Frame::<KeyCode>::idle().raised.is_empty(),
{
    if f.held.contains(b) {
        assert(f.pressing(b).held =~= f.held);
    } else {
        assert(f.releasing(b).held =~= f.held);
    }
}

} // verus!
