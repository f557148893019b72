//! The craft library's modal: a naming prompt before a save, or a browser over
//! the saved vehicles.
//!
//! While the modal is open it owns input, so that typing and selecting never
//! also edit the craft. Listing, saving and loading are asked of the caller,
//! whose answers come back through [`CraftLibraryModal::listed`],
//! [`CraftLibraryModal::saved`] and [`CraftLibraryModal::loaded`].

use crate::input::Frame;
use crate::input::KeyCode;
use crate::input::Keyboard;
use crate::text::blank;
use crate::text::is_blank;
use crate::text::push_char;
use crate::text::trim;
use crate::text::trimmed;
use vstd::prelude::*;

verus! {

/// Directory holding the named craft library (one document per vehicle).
pub const SAVES_DIR: &'static str = "saves/crafts";

/// Name offered the first time a build is saved.
pub const DEFAULT_NAME: &'static str = "rover";

/// Cap on the typed name's length, in characters.
pub const MAX_NAME_LEN: usize = 48;

/// A saved vehicle.
#[derive(Debug, PartialEq, Eq)]
pub struct CraftEntry {
    pub name: String,
    pub path: String,
}

/// The library modal's state.
#[derive(Debug, PartialEq, Eq)]
pub enum CraftLibraryModal {
    /// No modal: normal editing.
    Closed,
    /// Naming prompt before a save: the edited name, and whether the last
    /// confirmation was rejected.
    Naming { buffer: String, rejected: bool },
    /// Load browser: the saved vehicles and the highlighted one.
    Browsing { entries: Vec<CraftEntry>, selected: usize },
}

/// The modal's state over sequences; an entry is its name and its path.
#[verifier::ext_equal]
pub enum Modal {
    Closed,
    Naming { buffer: Seq<char>, rejected: bool },
    Browsing { entries: Seq<(Seq<char>, Seq<char>)>, selected: int },
}

/// What a keyboard event types.
#[derive(Debug, PartialEq, Eq)]
pub enum Typed {
    /// One or more characters.
    Character(String),
    Space,
    Backspace,
    Enter,
    Other,
}

/// A keyboard event, by what it types.
#[derive(Debug, PartialEq, Eq)]
pub struct TypedEvent {
    pub key: Typed,
    /// Whether the key went down; otherwise it came up.
    pub pressed: bool,
}

/// What the modal asks of the caller.
#[derive(Debug, PartialEq, Eq)]
pub enum LibraryRequest {
    Nothing,
    /// List the saved vehicles.
    List,
    /// Save the craft under this name.
    Save(String),
    /// Load the craft at this path.
    Load(String),
}

/// A request over sequences.
#[verifier::ext_equal]
pub enum Request {
    Nothing,
    List,
    Save(Seq<char>),
    Load(Seq<char>),
}

impl View for CraftEntry {
    type V = (Seq<char>, Seq<char>);

    open spec fn view(&self) -> (Seq<char>, Seq<char>) {
        (self.name@, self.path@)
    }
}

/// The entries' names and paths.
pub open spec fn entry_views(entries: Seq<CraftEntry>) -> Seq<(Seq<char>, Seq<char>)> {
    Seq::new(entries.len(), |i: int| entries[i]@)
}

impl View for CraftLibraryModal {
    type V = Modal;

    open spec fn view(&self) -> Modal {
        match self {
            CraftLibraryModal::Closed => Modal::Closed,
            CraftLibraryModal::Naming { buffer, rejected } => Modal::Naming {
                buffer: buffer@,
                rejected: *rejected,
            },
            CraftLibraryModal::Browsing { entries, selected } => Modal::Browsing {
                entries: entry_views(entries@),
                selected: *selected as int,
            },
        }
    }
}

impl View for LibraryRequest {
    type V = Request;

    open spec fn view(&self) -> Request {
        match self {
            LibraryRequest::Nothing => Request::Nothing,
            LibraryRequest::List => Request::List,
            LibraryRequest::Save(name) => Request::Save(name@),
            LibraryRequest::Load(path) => Request::Load(path@),
        }
    }
}

impl Modal {
    /// Whether the highlight is on an entry, when there is one.
    pub open spec fn wf(self) -> bool {
        self matches Modal::Browsing { entries, selected } ==> 0 <= selected && (entries.len() > 0
            ==> selected < entries.len())
    }
}

impl Default for CraftLibraryModal {
    fn default() -> (m: CraftLibraryModal)
        ensures
            m@ == Modal::Closed,
    {
        CraftLibraryModal::Closed
    }
}

/// The name the current build was last saved or loaded under. It seeds the
/// naming prompt, so that saving an existing vehicle again updates it.
#[derive(Debug, PartialEq, Eq)]
pub struct CurrentCraftName(pub String);

impl Default for CurrentCraftName {
    fn default() -> (n: CurrentCraftName)
        ensures
            n.0@ == DEFAULT_NAME@,
            valid_name(n.0@),
    {
        proof {
            reveal_strlit("rover");
            assert(!crate::text::is_space("rover"@[0]));
        }
        CurrentCraftName(DEFAULT_NAME.to_owned())
    }
}

/// A vehicle's name must not be blank.
pub open spec fn valid_name(name: Seq<char>) -> bool {
    !blank(name)
}

/// Whether a vehicle can be saved under `name`.
pub fn is_valid_name(name: &str) -> (b: bool)
    ensures
        b == valid_name(name@),
{
    !is_blank(name)
}

/// Whether `c` is a control character (Unicode category `Cc`).
pub open spec fn is_control(c: char) -> bool {
    c as u32 <= 0x1f || 0x7f <= c as u32 <= 0x9f
}

/// The name with one more character: control characters are ignored, and so is
/// whatever would make it too long.
pub open spec fn with_char(buffer: Seq<char>, c: char) -> Seq<char> {
    if !is_control(c) && buffer.len() < MAX_NAME_LEN {
        buffer.push(c)
    } else {
        buffer
    }
}

/// The name with a run of characters typed after it.
pub open spec fn with_text(buffer: Seq<char>, text: Seq<char>) -> Seq<char>
    decreases text.len(),
{
    if text.len() == 0 {
        buffer
    } else {
        with_char(with_text(buffer, text.drop_last()), text.last())
    }
}

/// The name with its last character taken away.
pub open spec fn without_last(buffer: Seq<char>) -> Seq<char> {
    if buffer.len() == 0 {
        buffer
    } else {
        buffer.drop_last()
    }
}

/// The outcome of a run of events: the name, whether the last confirmation was
/// rejected, whether Enter was met, and the events after it.
pub struct Typing {
    pub buffer: Seq<char>,
    pub rejected: bool,
    pub entered: bool,
    pub rest: Seq<TypedEvent>,
}

/// Types a run of events into the name, up to the first Enter.
pub open spec fn typing(buffer: Seq<char>, rejected: bool, events: Seq<TypedEvent>) -> Typing
    decreases events.len(),
{
    if events.len() == 0 {
        Typing { buffer, rejected, entered: false, rest: events }
    } else if !events[0].pressed {
        typing(buffer, rejected, events.skip(1))
    } else {
        match events[0].key {
            Typed::Character(s) => typing(with_text(buffer, s@), false, events.skip(1)),
            Typed::Space => typing(with_char(buffer, ' '), false, events.skip(1)),
            Typed::Backspace => typing(without_last(buffer), false, events.skip(1)),
            Typed::Enter => Typing { buffer, rejected, entered: true, rest: events.skip(1) },
            Typed::Other => typing(buffer, rejected, events.skip(1)),
        }
    }
}

/// What a frame makes of the modal.
pub struct Outcome {
    pub modal: Modal,
    pub keys: Frame<KeyCode>,
    pub typed: Seq<TypedEvent>,
    pub request: Request,
}

/// A frame with the modal closed: `K` opens the prompt with the current name,
/// `O` asks for the list. What was typed is dropped either way, so that the key
/// that opens the prompt does not land in the name.
pub open spec fn closed_frame(current: Seq<char>, keys: Frame<KeyCode>) -> Outcome {
    Outcome {
        modal: if keys.tapped.contains(KeyCode::KeyK) {
            Modal::Naming { buffer: current, rejected: false }
        } else {
            Modal::Closed
        },
        keys,
        typed: Seq::empty(),
        request: if !keys.tapped.contains(KeyCode::KeyK) && keys.tapped.contains(KeyCode::KeyO) {
            Request::List
        } else {
            Request::Nothing
        },
    }
}

/// A frame of the naming prompt: Escape cancels; otherwise the typed events
/// edit the name, and Enter asks for a save under the trimmed name, or is
/// rejected when the name is blank. Enter is taken note of, so that nothing
/// else acts on it.
pub open spec fn naming_frame(
    buffer: Seq<char>,
    rejected: bool,
    keys: Frame<KeyCode>,
    typed: Seq<TypedEvent>,
) -> Outcome {
    if keys.tapped.contains(KeyCode::Escape) {
        Outcome { modal: Modal::Closed, keys, typed: Seq::empty(), request: Request::Nothing }
    } else {
        let t = typing(buffer, rejected, typed);
        Outcome {
            modal: Modal::Naming {
                buffer: t.buffer,
                rejected: t.rejected || (t.entered && !valid_name(t.buffer)),
            },
            keys: if t.entered {
                keys.consuming(KeyCode::Enter)
            } else {
                keys
            },
            typed: t.rest,
            request: if t.entered && valid_name(t.buffer) {
                Request::Save(trimmed(t.buffer))
            } else {
                Request::Nothing
            },
        }
    }
}

/// The highlight after the arrow keys, wrapping around.
pub open spec fn arrowed(selected: int, len: int, keys: Frame<KeyCode>) -> int {
    let down = if keys.tapped.contains(KeyCode::ArrowDown) {
        (selected + 1) % len
    } else {
        selected
    };
    if keys.tapped.contains(KeyCode::ArrowUp) {
        (down + len - 1) % len
    } else {
        down
    }
}

/// A frame of the load browser: Escape closes it, the arrows move the
/// highlight, Enter asks for a load. With nothing to pick, Enter closes it.
pub open spec fn browsing_frame(
    entries: Seq<(Seq<char>, Seq<char>)>,
    selected: int,
    keys: Frame<KeyCode>,
    typed: Seq<TypedEvent>,
) -> Outcome {
    let enter = keys.tapped.contains(KeyCode::Enter);
    if keys.tapped.contains(KeyCode::Escape) {
        Outcome { modal: Modal::Closed, keys, typed, request: Request::Nothing }
    } else if entries.len() == 0 {
        Outcome {
            modal: if enter {
                Modal::Closed
            } else {
                Modal::Browsing { entries, selected }
            },
            keys: if enter {
                keys.consuming(KeyCode::Enter)
            } else {
                keys
            },
            typed,
            request: Request::Nothing,
        }
    } else {
        let to = arrowed(selected, entries.len() as int, keys);
        Outcome {
            modal: Modal::Browsing { entries, selected: to },
            keys: if enter {
                keys.consuming(KeyCode::Enter)
            } else {
                keys
            },
            typed,
            request: if enter {
                Request::Load(entries[to].1)
            } else {
                Request::Nothing
            },
        }
    }
}

/// One frame of the modal.
pub open spec fn modal_frame(
    modal: Modal,
    current: Seq<char>,
    keys: Frame<KeyCode>,
    typed: Seq<TypedEvent>,
) -> Outcome {
    match modal {
        Modal::Closed => closed_frame(current, keys),
        Modal::Naming { buffer, rejected } => naming_frame(buffer, rejected, keys, typed),
        Modal::Browsing { entries, selected } => browsing_frame(entries, selected, keys, typed),
    }
}

/// Adds typed characters to a name.
fn type_text(buffer: &mut String, text: &str)
    ensures
        final(buffer)@ == with_text(old(buffer)@, text@),
{
    let ghost start = buffer@;
    let n: usize = text.unicode_len();
    let mut i: usize = 0;
    assert(text@.take(0) =~= Seq::<char>::empty());
    while i < n
        invariant
            n == text@.len(),
            i <= n,
            buffer@ == with_text(start, text@.take(i as int)),
        decreases n - i,
    {
        assert(text@.take(i + 1).drop_last() =~= text@.take(i as int));
        assert(text@.take(i + 1).last() == text@[i as int]);
        type_char(buffer, text.get_char(i));
        i += 1;
    }
    assert(text@.take(n as int) =~= text@);
}

/// Adds one typed character to a name.
fn type_char(buffer: &mut String, c: char)
    ensures
        final(buffer)@ == with_char(old(buffer)@, c),
{
    let u: u32 = c as u32;
    let control: bool = u <= 0x1f || (0x7f <= u && u <= 0x9f);
    if !control && buffer.as_str().unicode_len() < MAX_NAME_LEN {
        push_char(buffer, c);
    }
}

/// Takes the last character off a name.
fn erase_last(buffer: &mut String)
    ensures
        final(buffer)@ == without_last(old(buffer)@),
{
    let n: usize = buffer.as_str().unicode_len();
    if n > 0 {
        let shorter: String = buffer.as_str().substring_char(0, n - 1).to_owned();
        *buffer = shorter;
    }
    assert(final(buffer)@ =~= without_last(old(buffer)@));
}

/// Types the events into a name up to the first Enter, which is reported; what
/// was read is removed from the queue.
fn type_events(buffer: &mut String, rejected: &mut bool, typed: &mut Vec<TypedEvent>) -> (entered:
    bool)
    ensures
        ({
            let t = typing(old(buffer)@, *old(rejected), old(typed)@);
            &&& final(buffer)@ == t.buffer
            &&& *final(rejected) == t.rejected
            &&& entered == t.entered
            &&& final(typed)@ == t.rest
        }),
{
    let ghost b0 = buffer@;
    let ghost r0 = *rejected;
    let ghost q0 = typed@;
    while typed.len() > 0
        invariant
            b0 == old(buffer)@,
            r0 == *old(rejected),
            q0 == old(typed)@,
            typing(buffer@, *rejected, typed@) == typing(b0, r0, q0),
        decreases typed.len(),
    {
        let ghost q = typed@;
        let ev: TypedEvent = typed.remove(0);
        assert(typed@ =~= q.skip(1));
        if ev.pressed {
            match ev.key {
                Typed::Character(s) => {
                    type_text(buffer, s.as_str());
                    *rejected = false;
                },
                Typed::Space => {
                    type_char(buffer, ' ');
                    *rejected = false;
                },
                Typed::Backspace => {
                    erase_last(buffer);
                    *rejected = false;
                },
                Typed::Enter => {
                    return true;
                },
                Typed::Other => {},
            }
        }
    }
    false
}

/// Drives the modal for one frame; what it asks of the caller.
#[verifier::rlimit(30)]
pub fn craft_library_input(
    modal: &mut CraftLibraryModal,
    current: &CurrentCraftName,
    keys: &mut Keyboard,
    typed: &mut Vec<TypedEvent>,
) -> (request: LibraryRequest)
    requires
        old(modal)@.wf(),
    ensures
        final(modal)@.wf(),
        ({
            let o = modal_frame(old(modal)@, current.0@, old(keys)@, old(typed)@);
            &&& final(modal)@ == o.modal
            &&& final(keys)@ == o.keys
            &&& final(typed)@ == o.typed
            &&& request@ == o.request
        }),
{
    match modal {
        CraftLibraryModal::Closed => {
            *typed = Vec::new();
            assert(typed@ =~= Seq::<TypedEvent>::empty());
            if keys.just_pressed(KeyCode::KeyK) {
                *modal = CraftLibraryModal::Naming {
                    buffer: current.0.as_str().to_owned(),
                    rejected: false,
                };
                LibraryRequest::Nothing
            } else if keys.just_pressed(KeyCode::KeyO) {
                LibraryRequest::List
            } else {
                LibraryRequest::Nothing
            }
        },
        CraftLibraryModal::Naming { buffer, rejected } => {
            if keys.just_pressed(KeyCode::Escape) {
                *typed = Vec::new();
                assert(typed@ =~= Seq::<TypedEvent>::empty());
                *modal = CraftLibraryModal::Closed;
                return LibraryRequest::Nothing;
            }
            if type_events(buffer, rejected, typed) {
                keys.clear_just_pressed(KeyCode::Enter);
                if is_valid_name(buffer.as_str()) {
                    return LibraryRequest::Save(trim(buffer.as_str()));
                }
                *rejected = true;
            }
            LibraryRequest::Nothing
        },
        CraftLibraryModal::Browsing { entries, selected } => {
            if keys.just_pressed(KeyCode::Escape) {
                *modal = CraftLibraryModal::Closed;
                return LibraryRequest::Nothing;
            }
            let n: usize = entries.len();
            if n == 0 {
                if keys.just_pressed(KeyCode::Enter) {
                    keys.clear_just_pressed(KeyCode::Enter);
                    *modal = CraftLibraryModal::Closed;
                }
                return LibraryRequest::Nothing;
            }
            let mut to: usize = *selected;
            if keys.just_pressed(KeyCode::ArrowDown) {
                proof {
                    lemma_wrap_down(to as int, n as int);
                }
                to = if to + 1 == n {
                    0
                } else {
                    to + 1
                };
            }
            if keys.just_pressed(KeyCode::ArrowUp) {
                proof {
                    lemma_wrap_up(to as int, n as int);
                }
                to = if to == 0 {
                    n - 1
                } else {
                    to - 1
                };
            }
            *selected = to;
            if keys.just_pressed(KeyCode::Enter) {
                keys.clear_just_pressed(KeyCode::Enter);
                assert(entry_views(entries@)[to as int] == entries@[to as int]@);
                LibraryRequest::Load(entries[to].path.as_str().to_owned())
            } else {
                LibraryRequest::Nothing
            }
        },
    }
}

/// One down from the bottom wraps to the top.
proof fn lemma_wrap_down(i: int, n: int)
    requires
        0 <= i < n,
    ensures
        (i + 1) % n == (if i + 1 == n {
            0
        } else {
            i + 1
        }),
{
    if i + 1 == n {
        vstd::arithmetic::div_mod::lemma_mod_self_0(n);
    } else {
        vstd::arithmetic::div_mod::lemma_small_mod((i + 1) as nat, n as nat);
    }
}

/// One up from the top wraps to the bottom.
proof fn lemma_wrap_up(i: int, n: int)
    requires
        0 <= i < n,
    ensures
        (i + n - 1) % n == (if i == 0 {
            n - 1
        } else {
            i - 1
        }),
{
    if i == 0 {
        vstd::arithmetic::div_mod::lemma_small_mod((n - 1) as nat, n as nat);
    } else {
        vstd::arithmetic::div_mod::lemma_mod_add_multiples_vanish(i - 1, n);
        assert((i + n - 1) % n == (n + (i - 1)) % n);
        vstd::arithmetic::div_mod::lemma_small_mod((i - 1) as nat, n as nat);
    }
}

impl CraftLibraryModal {
    /// Whether a modal screen is up, and build input must stand down.
    pub fn is_open(&self) -> (b: bool)
        ensures
            b == !(self@ is Closed),
    {
        !matches!(self, CraftLibraryModal::Closed)
    }

    /// The answer to [`LibraryRequest::List`]: the browser opens on the first
    /// entry.
    pub fn listed(&mut self, entries: Vec<CraftEntry>)
        ensures
            final(self)@ == (Modal::Browsing { entries: entry_views(entries@), selected: 0 }),
            final(self)@.wf(),
    {
        *self = CraftLibraryModal::Browsing { entries, selected: 0 };
    }

    /// The answer to [`LibraryRequest::Save`]: a save closes the prompt and
    /// names the build; a failure is shown as a rejection.
    pub fn saved(&mut self, current: &mut CurrentCraftName, name: &str, ok: bool)
        requires
            old(self)@ is Naming,
        ensures
            final(self)@ == after_save(old(self)@, ok),
            final(current).0@ == (if ok {
                name@
            } else {
                old(current).0@
            }),
    {
        if ok {
            current.0 = name.to_owned();
            *self = CraftLibraryModal::Closed;
        } else {
            match self {
                CraftLibraryModal::Naming { buffer, rejected } => {
                    *rejected = true;
                },
                _ => {},
            }
        }
    }

    /// The answer to [`LibraryRequest::Load`]: the browser closes, and a loaded
    /// build takes the highlighted entry's name.
    pub fn loaded(&mut self, current: &mut CurrentCraftName, ok: bool)
        requires
            old(self)@.wf(),
            old(self)@ matches Modal::Browsing { entries, selected } && entries.len() > 0,
        ensures
            final(self)@ is Closed,
            final(current).0@ == (if ok {
                highlighted(old(self)@).0
            } else {
                old(current).0@
            }),
    {
        if ok {
            match self {
                CraftLibraryModal::Browsing { entries, selected } => {
                    assert(entry_views(entries@)[*selected as int] == entries@[*selected as int]@);
                    current.0 = entries[*selected].name.as_str().to_owned();
                },
                _ => {},
            }
        }
        *self = CraftLibraryModal::Closed;
    }
}

/// The modal after a save was tried.
pub open spec fn after_save(modal: Modal, ok: bool) -> Modal {
    if ok {
        Modal::Closed
    } else {
        match modal {
            Modal::Naming { buffer, rejected } => Modal::Naming { buffer, rejected: true },
            _ => modal,
        }
    }
}

/// The entry under the highlight.
pub open spec fn highlighted(modal: Modal) -> (Seq<char>, Seq<char>) {
    match modal {
        Modal::Browsing { entries, selected } => entries[selected],
        _ => (Seq::empty(), Seq::empty()),
    }
}

/// The browser's lines for the first `k` entries, the highlighted one marked.
pub open spec fn entry_lines(
    entries: Seq<(Seq<char>, Seq<char>)>,
    selected: int,
    k: int,
) -> Seq<char>
    decreases k,
{
    if k <= 0 {
        Seq::empty()
    } else {
        entry_lines(entries, selected, k - 1) + (if k - 1 == selected {
            ">"@
        } else {
            " "@
        }) + " "@ + entries[k - 1].0 + "\n"@
    }
}

/// What the overlay shows; nothing while the modal is closed.
pub open spec fn overlay_of(modal: Modal) -> Option<Seq<char>> {
    match modal {
        Modal::Closed => None,
        Modal::Naming { buffer, rejected } => Some(
            "SAVE VEHICLE\n\n"@ + "name: "@ + buffer + "_\n\n"@ + (if rejected {
                "! enter a non-blank name\n\n"@
            } else {
                Seq::empty()
            }) + "[Enter] save   [Esc] cancel"@,
        ),
        Modal::Browsing { entries, selected } => Some(
            if entries.len() == 0 {
                "LOAD VEHICLE\n\n"@ + "(no saved vehicles)\n\n[Esc] close"@
            } else {
                "LOAD VEHICLE\n\n"@ + entry_lines(entries, selected, entries.len() as int)
                    + "\n[\u{2191}/\u{2193}] select   [Enter] load   [Esc] cancel"@
            },
        ),
    }
}

/// The modal as text; nothing while it is closed.
pub fn draw_craft_library_overlay(modal: &CraftLibraryModal) -> (text: Option<String>)
    ensures
        match text {
            Some(s) => overlay_of(modal@) == Some(s@),
            None => overlay_of(modal@) is None,
        },
{
    match modal {
        CraftLibraryModal::Closed => None,
        CraftLibraryModal::Naming { buffer, rejected } => {
            let mut s: String = "SAVE VEHICLE\n\n".to_owned();
            s.append("name: ");
            s.append(buffer.as_str());
            s.append("_\n\n");
            if *rejected {
                s.append("! enter a non-blank name\n\n");
            }
            s.append("[Enter] save   [Esc] cancel");
            assert(s@ =~= overlay_of(modal@)->0);
            Some(s)
        },
        CraftLibraryModal::Browsing { entries, selected } => {
            let mut s: String = "LOAD VEHICLE\n\n".to_owned();
            let ghost views = entry_views(entries@);
            if entries.len() == 0 {
                s.append("(no saved vehicles)\n\n[Esc] close");
            } else {
                let ghost head = s@;
                let mut i: usize = 0;
                assert(s@ =~= head + entry_lines(views, *selected as int, 0));
                while i < entries.len()
                    invariant
                        i <= entries.len(),
                        views == entry_views(entries@),
                        s@ == head + entry_lines(views, *selected as int, i as int),
                    decreases entries.len() - i,
                {
                    if i == *selected {
                        s.append(">");
                    } else {
                        s.append(" ");
                    }
                    s.append(" ");
                    s.append(entries[i].name.as_str());
                    s.append("\n");
                    assert(views[i as int].0 == entries@[i as int].name@);
                    assert(s@ =~= head + entry_lines(views, *selected as int, i + 1));
                    i += 1;
                }
                s.append("\n[\u{2191}/\u{2193}] select   [Enter] load   [Esc] cancel");
            }
            assert(s@ =~= overlay_of(modal@)->0);
            Some(s)
        },
    }
}

/// Typing never makes a name longer than the cap, or than it was if it was longer,
/// and brings no control character into it.
pub proof fn lemma_name_stays_within_the_cap(
    buffer: Seq<char>,
    rejected: bool,
    events: Seq<TypedEvent>,
)
    ensures
        ({
            let name = typing(buffer, rejected, events).buffer;
            &&& name.len() <= buffer.len() || name.len() <= MAX_NAME_LEN
            &&& forall|i: int|
                0 <= i < name.len() && is_control(#[trigger] name[i]) ==> i < buffer.len()
                    && buffer[i] == name[i]
        }),
    decreases events.len(),
{
    if events.len() > 0 {
        let rest = events.skip(1);
        if !events[0].pressed {
            lemma_name_stays_within_the_cap(buffer, rejected, rest);
        } else {
            match events[0].key {
                Typed::Character(s) => {
                    lemma_text_stays_within_the_cap(buffer, s@);
                    lemma_name_stays_within_the_cap(with_text(buffer, s@), false, rest);
                },
                Typed::Space => {
                    lemma_name_stays_within_the_cap(with_char(buffer, ' '), false, rest);
                },
                Typed::Backspace => {
                    lemma_name_stays_within_the_cap(without_last(buffer), false, rest);
                },
                Typed::Enter => {},
                Typed::Other => {
                    lemma_name_stays_within_the_cap(buffer, rejected, rest);
                },
            }
        }
    }
}

proof fn lemma_text_stays_within_the_cap(buffer: Seq<char>, text: Seq<char>)
    ensures
        ({
            let name = with_text(buffer, text);
            &&& name.len() <= buffer.len() || name.len() <= MAX_NAME_LEN
            &&& forall|i: int|
                0 <= i < name.len() && is_control(#[trigger] name[i]) ==> i < buffer.len()
                    && buffer[i] == name[i]
        }),
    decreases text.len(),
{
    if text.len() > 0 {
        lemma_text_stays_within_the_cap(buffer, text.drop_last());
    }
}

/// Whatever the modal answers to Enter, nothing else sees that Enter: a frame
/// that asks for a save or a load has taken note of it.
pub proof fn lemma_enter_is_consumed(
    modal: Modal,
    current: Seq<char>,
    keys: Frame<KeyCode>,
    typed: Seq<TypedEvent>,
)
    ensures
        ({
            let o = modal_frame(modal, current, keys, typed);
            o.request is Save || o.request is Load ==> !o.keys.tapped.contains(KeyCode::Enter)
        }),
{
}

/// The key that opens the prompt never lands in the name: the prompt opens on
/// the current name, and nothing typed in that frame is left to be read.
pub proof fn lemma_opening_key_does_not_leak(
    current: Seq<char>,
    keys: Frame<KeyCode>,
    typed: Seq<TypedEvent>,
)
    requires
        keys.tapped.contains(KeyCode::KeyK),
    ensures
        ({
            let o = modal_frame(Modal::Closed, current, keys, typed);
            &&& o.modal == (Modal::Naming { buffer: current, rejected: false })
            &&& o.typed.len() == 0
        }),
{
}

/// A save is only ever asked for under a name that is not empty.
pub proof fn lemma_saved_names_are_not_blank(
    modal: Modal,
    current: Seq<char>,
    keys: Frame<KeyCode>,
    typed: Seq<TypedEvent>,
)
    ensures
        modal_frame(modal, current, keys, typed).request matches Request::Save(name)
            ==> name.len() > 0,
{
    if let Modal::Naming { buffer, rejected } = modal {
        crate::text::lemma_trimmed_empty_iff_blank(typing(buffer, rejected, typed).buffer);
    }
}

/// The highlight wraps: down and then up comes back to where it was.
pub proof fn lemma_down_then_up_is_home(selected: int, len: int)
    requires
        0 <= selected < len,
    ensures
        ((selected + 1) % len + len - 1) % len == selected,
{
    lemma_wrap_down(selected, len);
    lemma_wrap_up((selected + 1) % len, len);
}

/// In the browser, one arrow alone moves the highlight to the neighbouring entry, down to
/// the next and up to the one before, from either end to the other; without an arrow it
/// stays. The list itself never changes.
pub proof fn lemma_arrows_move_the_highlight(
    entries: Seq<(Seq<char>, Seq<char>)>,
    selected: int,
    current: Seq<char>,
    keys: Frame<KeyCode>,
    typed: Seq<TypedEvent>,
)
    requires
        0 <= selected < entries.len(),
        !keys.tapped.contains(KeyCode::Escape),
    ensures
        ({
            let o = modal_frame(Modal::Browsing { entries, selected }, current, keys, typed);
            let up = keys.tapped.contains(KeyCode::ArrowUp);
            let down = keys.tapped.contains(KeyCode::ArrowDown);
            let n = entries.len() as int;
            &&& o.modal matches Modal::Browsing { entries: kept, selected: to } && {
                &&& kept == entries
                &&& 0 <= to < n
                &&& down && !up && selected < n - 1 ==> to == selected + 1
                &&& down && !up && selected == n - 1 ==> to == 0
                &&& up && !down && selected > 0 ==> to == selected - 1
                &&& up && !down && selected == 0 ==> to == n - 1
                &&& !up && !down ==> to == selected
                &&& up && down ==> to == selected
            }
        }),
{
    let n = entries.len() as int;
    lemma_wrap_down(selected, n);
    lemma_wrap_up(selected, n);
    lemma_down_then_up_is_home(selected, n);
}

/// Enter in the browser asks for the highlighted vehicle, by its own path, and is the only
/// key that asks for anything; in an empty browser it only closes it. Escape closes the
/// browser and asks for nothing.
pub proof fn lemma_enter_loads_the_highlighted_vehicle(
    entries: Seq<(Seq<char>, Seq<char>)>,
    selected: int,
    current: Seq<char>,
    keys: Frame<KeyCode>,
    typed: Seq<TypedEvent>,
)
    requires
        0 <= selected,
        entries.len() > 0 ==> selected < entries.len(),
    ensures
        ({
            let o = modal_frame(Modal::Browsing { entries, selected }, current, keys, typed);
            let enter = keys.tapped.contains(KeyCode::Enter);
            let escape = keys.tapped.contains(KeyCode::Escape);
            &&& escape ==> o.modal is Closed && o.request is Nothing
            &&& !enter ==> o.request is Nothing
            &&& entries.len() == 0 ==> o.request is Nothing
            &&& entries.len() == 0 && !escape ==> (o.modal is Closed <==> enter)
            &&& enter && !escape && entries.len() > 0 ==> (
            o.modal matches Modal::Browsing { entries: kept, selected: to } && o.request
                == Request::Load(entries[to].1))
            &&& !(o.request is Save) && !(o.request is List)
        }),
{
}

/// In the prompt, a key that goes up, or one that types nothing, changes nothing; a
/// printable character below the cap is added at the end, a space likewise, and Backspace
/// takes the last character. Each of these takes back a rejection. Enter ends the typing
/// and leaves the name.
pub proof fn lemma_one_key_types_one_character(
    buffer: Seq<char>,
    rejected: bool,
    event: TypedEvent,
)
    ensures
        ({
            let t = typing(buffer, rejected, seq![event]);
            &&& !event.pressed || event.key is Other ==> t.buffer == buffer && t.rejected
                == rejected && !t.entered
            &&& event.pressed && event.key is Space ==> !t.rejected && !t.entered && (
            if buffer.len() < 48 {
                t.buffer == buffer.push(' ')
            } else {
                t.buffer == buffer
            })
            &&& event.pressed && event.key is Backspace ==> !t.rejected && !t.entered && (
            if buffer.len() > 0 {
                t.buffer == buffer.take(buffer.len() - 1)
            } else {
                t.buffer == buffer
            })
            &&& event.pressed && event.key is Enter ==> t.entered && t.buffer == buffer
                && t.rejected == rejected
            &&& event.pressed && (event.key matches Typed::Character(s) && s@.len() == 1) ==> {
                let c = event.key->Character_0@[0];
                &&& !t.rejected && !t.entered
                &&& t.buffer == (if buffer.len() < 48 && c as u32 >= 0x20 && !(0x7f <= c as u32
                    <= 0x9f) {
                    buffer.push(c)
                } else {
                    buffer
                })
            }
        }),
{
    reveal_with_fuel(typing, 2);
    let rest = seq![event].skip(1);
    assert(rest =~= Seq::<TypedEvent>::empty());
    if let Typed::Character(s) = event.key {
        if s@.len() == 1 {
            assert(s@.drop_last() =~= Seq::<char>::empty());
            assert(with_text(buffer, s@.drop_last()) == buffer);
        }
    }
    assert(buffer.len() > 0 ==> without_last(buffer) =~= buffer.take(buffer.len() - 1));
}

/// Typing goes on where it was left: a run of events without Enter types as its two halves
/// do one after the other.
pub proof fn lemma_typing_goes_on(
    buffer: Seq<char>,
    rejected: bool,
    first: Seq<TypedEvent>,
    second: Seq<TypedEvent>,
)
    requires
        !typing(buffer, rejected, first).entered,
    ensures
        ({
            let half = typing(buffer, rejected, first);
            typing(buffer, rejected, first + second) == typing(half.buffer, half.rejected, second)
        }),
    decreases first.len(),
{
    let all = first + second;
    if first.len() == 0 {
        assert(all =~= second);
    } else {
        assert(all[0] == first[0]);
        assert(all.skip(1) =~= first.skip(1) + second);
        let rest = first.skip(1);
        if !first[0].pressed {
            lemma_typing_goes_on(buffer, rejected, rest, second);
        } else {
            match first[0].key {
                Typed::Character(s) => {
                    lemma_typing_goes_on(with_text(buffer, s@), false, rest, second);
                },
                Typed::Space => {
                    lemma_typing_goes_on(with_char(buffer, ' '), false, rest, second);
                },
                Typed::Backspace => {
                    lemma_typing_goes_on(without_last(buffer), false, rest, second);
                },
                Typed::Enter => {},
                Typed::Other => {
                    lemma_typing_goes_on(buffer, rejected, rest, second);
                },
            }
        }
    }
}

/// The prompt: Escape closes it and asks for nothing. Otherwise it stays open with what was
/// typed, and asks for a save, under that name without the blanks around it, exactly when
/// Enter was typed on a name that is not blank; on a blank one Enter is rejected.
pub proof fn lemma_enter_saves_under_the_typed_name(
    buffer: Seq<char>,
    rejected: bool,
    current: Seq<char>,
    keys: Frame<KeyCode>,
    typed: Seq<TypedEvent>,
)
    ensures
        ({
            let o = modal_frame(Modal::Naming { buffer, rejected }, current, keys, typed);
            let t = typing(buffer, rejected, typed);
            let escape = keys.tapped.contains(KeyCode::Escape);
            let named = exists|i: int| 0 <= i < t.buffer.len() && !crate::text::is_space(
                #[trigger] t.buffer[i],
            );
            &&& escape ==> o.modal is Closed && o.request is Nothing
            &&& !escape ==> (o.modal matches Modal::Naming { buffer: name, rejected: no } && name
                == t.buffer && (t.entered && !named ==> no) && (!t.entered ==> no == t.rejected))
            &&& !escape && t.entered && named ==> o.request == Request::Save(trimmed(t.buffer))
            &&& escape || !t.entered || !named ==> o.request is Nothing
        }),
{
}

/// With the library closed, `K` opens the prompt and `O` asks for the list, and no other
/// key does either; nothing typed then is kept.
pub proof fn lemma_library_keys(
    current: Seq<char>,
    keys: Frame<KeyCode>,
    typed: Seq<TypedEvent>,
)
    ensures
        ({
            let o = modal_frame(Modal::Closed, current, keys, typed);
            let k = keys.tapped.contains(KeyCode::KeyK);
            let list = keys.tapped.contains(KeyCode::KeyO);
            &&& o.modal is Naming <==> k
            &&& o.modal is Closed <==> !k
            &&& o.request is List <==> list && !k
            &&& o.request is Nothing <==> !list || k
            &&& o.typed.len() == 0
            &&& o.keys == keys
        }),
{
}

/// A save that went through closes the prompt; one that failed leaves the name in it and
/// shows the rejection.
pub proof fn lemma_a_failed_save_stays_open(buffer: Seq<char>, rejected: bool)
    ensures
        after_save(Modal::Naming { buffer, rejected }, true) is Closed,
        after_save(Modal::Naming { buffer, rejected }, false) == (Modal::Naming {
            buffer,
            rejected: true,
        }),
{
}

/// The overlay is up exactly while the library is open. The prompt shows the name as it is
/// being typed, and the browser has one line for each vehicle, of which the highlighted one
/// alone is marked.
pub proof fn lemma_overlay_shows_the_library(modal: Modal)
    ensures
        overlay_of(modal) is None <==> modal is Closed,
        modal matches Modal::Naming { buffer, rejected } ==> {
            let head = "SAVE VEHICLE\n\n"@ + "name: "@ + buffer;
            (overlay_of(modal)->0).take(head.len() as int) == head
        },
{
    if let Modal::Naming { buffer, rejected } = modal {
        let head = "SAVE VEHICLE\n\n"@ + "name: "@ + buffer;
        assert((overlay_of(modal)->0).take(head.len() as int) =~= head);
    }
}

/// One more vehicle is one more line at the end, which begins with the mark if the vehicle
/// is highlighted and with a blank if not, and goes on with its name.
pub proof fn lemma_each_vehicle_has_its_line(
    entries: Seq<(Seq<char>, Seq<char>)>,
    selected: int,
    k: int,
)
    requires
        0 <= k < entries.len(),
    ensures
        ({
            let before = entry_lines(entries, selected, k);
            let after = entry_lines(entries, selected, k + 1);
            let line = after.skip(before.len() as int);
            &&& after.take(before.len() as int) == before
            &&& line.len() == entries[k].0.len() + 3
            &&& line[0] == '>' <==> k == selected
            &&& line[0] == ' ' <==> k != selected
            &&& line.subrange(2, line.len() - 1) == entries[k].0
            &&& line.last() == '\n'
        }),
{
    reveal_strlit(">");
    reveal_strlit(" ");
    reveal_strlit("\n");
    let before = entry_lines(entries, selected, k);
    let after = entry_lines(entries, selected, k + 1);
    let line = after.skip(before.len() as int);
    assert(after.take(before.len() as int) =~= before);
    assert(line.subrange(2, line.len() - 1) =~= entries[k].0);
}

/// What Enter loads is what is highlighted: the path that is asked for is the highlighted
/// entry's, and so is the name that the build takes once it is loaded.
pub proof fn lemma_the_highlighted_entry_is_loaded(
    entries: Seq<(Seq<char>, Seq<char>)>,
    selected: int,
    current: Seq<char>,
    keys: Frame<KeyCode>,
    typed: Seq<TypedEvent>,
)
    requires
        0 <= selected < entries.len(),
        keys.tapped.contains(KeyCode::Enter),
        !keys.tapped.contains(KeyCode::Escape),
    ensures
        ({
            let o = modal_frame(Modal::Browsing { entries, selected }, current, keys, typed);
            &&& o.modal is Browsing
            &&& o.request == Request::Load(highlighted(o.modal).1)
            &&& exists|i: int| 0 <= i < entries.len() && highlighted(o.modal) == #[trigger] entries[i]
        }),
        !keys.tapped.contains(KeyCode::ArrowUp) && !keys.tapped.contains(KeyCode::ArrowDown)
            ==> highlighted(
            modal_frame(Modal::Browsing { entries, selected }, current, keys, typed).modal,
        ) == entries[selected],
{
    let to = arrowed(selected, entries.len() as int, keys);
    assert(0 <= to < entries.len());
    assert(highlighted(Modal::Browsing { entries, selected: to }) == entries[to]);
}

} // verus!
