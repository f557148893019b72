//! The build mode's palette: when the pointer is on it, what a click on it picks,
//! and which entry is lit. An open library keeps the keys and the clicks from the
//! build.

use crate::craft_library::CraftLibraryModal;
use crate::editor::click_aim;
use crate::editor::clicked;
use crate::editor::edited;
use crate::editor::editor_input;
use crate::editor::material_at;
use crate::editor::mouse_build;
use crate::editor::numbers_suffice;
use crate::editor::palette_material;
use crate::editor::picked;
use crate::editor::requests;
use crate::editor::shows_active;
use crate::editor::station_found;
use crate::editor::Brush;
use crate::editor::EditorRequest;
use crate::editor::EditorSpec;
use crate::editor::EditorState;
use crate::editor::Hovered;
use crate::editor::PaletteEntry;
use crate::editor::WheelPreset;
use crate::editor::PALETTE_LEN;
use crate::input::Keyboard;
use crate::input::Mouse;
use crate::input::MouseButton;
use crate::voxel::Material;
use vstd::prelude::*;

verus! {

/// What the pointer does to a widget.
#[derive(Clone, Copy, Debug, PartialEq, Eq, Structural)]
pub enum Interaction {
    Pressed,
    Hovered,
    Idle,
}

/// Whether the pointer is on any of the widgets.
pub open spec fn touched(widgets: Seq<Interaction>) -> bool {
    exists|i: int| 0 <= i < widgets.len() && #[trigger] widgets[i] != Interaction::Idle
}

/// Whether the pointer is on any of the widgets.
fn any_touched(widgets: &Vec<Interaction>) -> (b: bool)
    ensures
        b == touched(widgets@),
{
    let mut i: usize = 0;
    while i < widgets.len()
        invariant
            i <= widgets@.len(),
            forall|j: int| 0 <= j < i ==> #[trigger] widgets@[j] == Interaction::Idle,
        decreases widgets.len() - i,
    {
        if widgets[i] != Interaction::Idle {
            assert(widgets@[i as int] != Interaction::Idle);
            return true;
        }
        i += 1;
    }
    false
}

/// Whether the pointer is on the palette: on its root or on a button.
pub fn track_pointer_over_palette(
    roots: &Vec<Interaction>,
    buttons: &Vec<Interaction>,
) -> (over: bool)
    ensures
        over == (touched(roots@) || touched(buttons@)),
{
    any_touched(roots) || any_touched(buttons)
}

/// A button of the palette whose interaction has just changed.
#[derive(Clone, Copy, Debug)]
pub struct PaletteButton {
    pub entry: PaletteEntry,
    pub interaction: Interaction,
}

/// The editor after the pressed buttons have been picked, one after another.
pub open spec fn after_clicks(e: EditorSpec, buttons: Seq<PaletteButton>) -> EditorSpec
    decreases buttons.len(),
{
    if buttons.len() == 0 {
        e
    } else {
        let before = after_clicks(e, buttons.drop_last());
        if buttons.last().interaction == Interaction::Pressed {
            picked(buttons.last().entry, before)
        } else {
            before
        }
    }
}

/// Picks what was clicked, unless the craft library is open and owns the input.
pub fn palette_click(
    state: &mut EditorState,
    buttons: &Vec<PaletteButton>,
    modal: &CraftLibraryModal,
)
    requires
        old(state)@.wf(),
    ensures
        final(state)@.wf(),
        final(state).subassembly == old(state).subassembly,
        final(state)@ == (if modal@ is Closed {
            after_clicks(old(state)@, buttons@)
        } else {
            old(state)@
        }),
{
    if modal.is_open() {
        return;
    }
    let ghost start = state@;
    let mut i: usize = 0;
    assert(buttons@.take(0) =~= Seq::<PaletteButton>::empty());
    while i < buttons.len()
        invariant
            i <= buttons@.len(),
            state@.wf(),
            state.subassembly == old(state).subassembly,
            state@ == after_clicks(start, buttons@.take(i as int)),
        decreases buttons.len() - i,
    {
        assert(buttons@.take(i + 1).drop_last() =~= buttons@.take(i as int));
        assert(buttons@.take(i + 1).last() == buttons@[i as int]);
        if buttons[i].interaction == Interaction::Pressed {
            buttons[i].entry.apply(state);
        }
        i += 1;
    }
    assert(buttons@.take(i as int) =~= buttons@);
}

/// How a button is lit.
#[derive(Clone, Copy, Debug, PartialEq, Eq, Structural)]
pub enum Highlight {
    Active,
    Hovered,
    Idle,
}

/// How a button is lit: the selected entry first, then the one under the pointer.
pub open spec fn lit(entry: PaletteEntry, interaction: Interaction, e: EditorSpec) -> Highlight {
    if shows_active(entry, e) {
        Highlight::Active
    } else if interaction == Interaction::Hovered {
        Highlight::Hovered
    } else {
        Highlight::Idle
    }
}

/// How the palette's buttons are lit.
pub fn update_palette_highlight(
    state: &EditorState,
    buttons: &Vec<PaletteButton>,
) -> (out: Vec<Highlight>)
    ensures
        out@ == Seq::new(
            buttons@.len(),
            |i: int| lit(buttons@[i].entry, buttons@[i].interaction, state@),
        ),
{
    let mut out: Vec<Highlight> = Vec::new();
    let mut i: usize = 0;
    while i < buttons.len()
        invariant
            i <= buttons@.len(),
            out@.len() == i,
            forall|j: int|
                0 <= j < i ==> #[trigger] out@[j] == lit(
                    buttons@[j].entry,
                    buttons@[j].interaction,
                    state@,
                ),
        decreases buttons.len() - i,
    {
        let b: PaletteButton = buttons[i];
        out.push(
            if b.entry.is_active(state) {
                Highlight::Active
            } else if b.interaction == Interaction::Hovered {
                Highlight::Hovered
            } else {
                Highlight::Idle
            },
        );
        i += 1;
    }
    assert(out@ =~= Seq::new(
        buttons@.len(),
        |i: int| lit(buttons@[i].entry, buttons@[i].interaction, state@),
    ));
    out
}

/// The entry that was clicked last is lit.
pub proof fn lemma_clicked_entry_is_lit(e: EditorSpec, entry: PaletteEntry, i: Interaction)
    ensures
        lit(entry, i, picked(entry, e)) == Highlight::Active,
{
}

/// A colour, in hundredths of full strength.
#[derive(Clone, Copy, Debug, PartialEq, Eq, Structural)]
pub struct Rgb {
    pub r: u32,
    pub g: u32,
    pub b: u32,
}

/// What a palette entry's swatch shows: a material as the hull wears it, or a
/// tool's colour.
#[derive(Clone, Copy, Debug, PartialEq, Eq, Structural)]
pub enum Swatch {
    Worn(Material),
    Plain(Rgb),
}

/// A wheel preset's colour.
pub open spec fn preset_rgb(preset: WheelPreset) -> Rgb {
    match preset {
        WheelPreset::OffRoad => Rgb { r: 30, g: 22, b: 12 },
        WheelPreset::Road => Rgb { r: 12, g: 12, b: 14 },
        WheelPreset::Slick => Rgb { r: 5, g: 5, b: 7 },
    }
}

/// A tool's colour. Steered wheels are bluer than the plain ones of their preset.
pub open spec fn tool_rgb(brush: Brush) -> Rgb {
    match brush {
        Brush::Voxel => Rgb { r: 70, g: 72, b: 78 },
        Brush::ControlPoint => Rgb { r: 30, g: 80, b: 90 },
        Brush::Computer => Rgb { r: 30, g: 80, b: 45 },
        Brush::Battery => Rgb { r: 90, g: 80, b: 20 },
        Brush::Engine => Rgb { r: 100, g: 45, b: 10 },
        Brush::Tank => Rgb { r: 55, g: 62, b: 82 },
        Brush::Wheel { preset, steer } => {
            let c = preset_rgb(preset);
            if steer {
                Rgb { r: (c.r + 8) as u32, g: (c.g + 10) as u32, b: (c.b + 22) as u32 }
            } else {
                c
            }
        },
        Brush::Suspension => Rgb { r: 55, g: 45, b: 20 },
        Brush::Seat => Rgb { r: 50, g: 35, b: 20 },
        Brush::Antenna => Rgb { r: 82, g: 82, b: 86 },
        Brush::SolarPanel => Rgb { r: 12, g: 22, b: 62 },
        Brush::Bumper => Rgb { r: 72, g: 16, b: 16 },
    }
}

/// A wheel preset's colour.
fn preset_color(preset: WheelPreset) -> (c: Rgb)
    ensures
        c == preset_rgb(preset),
        c.r <= 100 && c.g <= 100 && c.b <= 100,
{
    match preset {
        WheelPreset::OffRoad => Rgb { r: 30, g: 22, b: 12 },
        WheelPreset::Road => Rgb { r: 12, g: 12, b: 14 },
        WheelPreset::Slick => Rgb { r: 5, g: 5, b: 7 },
    }
}

/// A tool's colour.
fn tool_color(brush: Brush) -> (c: Rgb)
    ensures
        c == tool_rgb(brush),
{
    match brush {
        Brush::Voxel => Rgb { r: 70, g: 72, b: 78 },
        Brush::ControlPoint => Rgb { r: 30, g: 80, b: 90 },
        Brush::Computer => Rgb { r: 30, g: 80, b: 45 },
        Brush::Battery => Rgb { r: 90, g: 80, b: 20 },
        Brush::Engine => Rgb { r: 100, g: 45, b: 10 },
        Brush::Tank => Rgb { r: 55, g: 62, b: 82 },
        Brush::Wheel { preset, steer } => {
            let c: Rgb = preset_color(preset);
            if steer {
                Rgb { r: c.r + 8, g: c.g + 10, b: c.b + 22 }
            } else {
                c
            }
        },
        Brush::Suspension => Rgb { r: 55, g: 45, b: 20 },
        Brush::Seat => Rgb { r: 50, g: 35, b: 20 },
        Brush::Antenna => Rgb { r: 82, g: 82, b: 86 },
        Brush::SolarPanel => Rgb { r: 12, g: 22, b: 62 },
        Brush::Bumper => Rgb { r: 72, g: 16, b: 16 },
    }
}

/// What an entry's swatch shows.
pub fn swatch_color(entry: PaletteEntry) -> (s: Swatch)
    ensures
        s == (match entry {
            PaletteEntry::Material(i) => Swatch::Worn(
                palette_material(i as int % PALETTE_LEN as int),
            ),
            PaletteEntry::Tool(brush) => Swatch::Plain(tool_rgb(brush)),
        }),
{
    match entry {
        PaletteEntry::Material(i) => Swatch::Worn(material_at(i % PALETTE_LEN)),
        PaletteEntry::Tool(brush) => Swatch::Plain(tool_color(brush)),
    }
}

/// No two tools look alike: their swatches tell them apart.
pub proof fn lemma_tools_look_different(a: Brush, b: Brush)
    requires
        a != b,
    ensures
        tool_rgb(a) != tool_rgb(b),
{
}

/// One frame of the keyboard in Build: the editor's bindings, but nothing while the
/// library is open, so that what is typed there edits nothing.
pub fn build_keys(modal: &CraftLibraryModal, keys: &Keyboard, state: &mut EditorState) -> (out:
    Vec<EditorRequest>)
    requires
        old(state)@.wf(),
        modal@ is Closed ==> numbers_suffice(old(state)@, *keys),
    ensures
        final(state)@.wf(),
        final(state).subassembly == old(state).subassembly,
        modal@ is Closed ==> final(state)@ == edited(old(state)@, *keys) && out@ == requests(
            final(state).cursor,
            *keys,
        ),
        !(modal@ is Closed) ==> final(state)@ == old(state)@ && out@.len() == 0,
{
    if modal.is_open() {
        return Vec::new();
    }
    editor_input(keys, state)
}

/// One frame of the mouse in Build: a click builds, but not while the library is
/// open.
pub fn build_clicks(
    modal: &CraftLibraryModal,
    mouse: &Mouse,
    hover: Option<Hovered>,
    on_palette: bool,
    state: &mut EditorState,
)
    requires
        old(state)@.wf(),
        modal@ is Closed && hover is Some && !on_palette && mouse.tapped(MouseButton::Left)
            ==> station_found(
            old(state)@.craft.parts,
            old(state)@.brush,
            click_aim(hover->0, old(state)@.craft.cell_size).wheel_mount,
        ),
    ensures
        final(state)@.wf(),
        final(state).subassembly == old(state).subassembly,
        final(state)@ == (if modal@ is Closed {
            clicked(old(state)@, *mouse, hover, on_palette)
        } else {
            old(state)@
        }),
{
    if !modal.is_open() {
        mouse_build(mouse, hover, on_palette, state);
    }
}

/// The last button pressed decides: its material and the voxel brush, or its tool, is what is
/// selected afterwards. Buttons that are not pressed change nothing, and no click touches the
/// build.
pub proof fn lemma_the_last_pressed_button_counts(e: EditorSpec, buttons: Seq<PaletteButton>)
    ensures
        after_clicks(e, buttons).craft == e.craft && after_clicks(e, buttons).cursor == e.cursor
            && after_clicks(e, buttons).motor == e.motor,
        (forall|i: int|
            0 <= i < buttons.len() ==> (#[trigger] buttons[i]).interaction != Interaction::Pressed)
            ==> after_clicks(e, buttons) == e,
        buttons.len() > 0 && buttons.last().interaction == Interaction::Pressed ==> match buttons.last().entry {
            PaletteEntry::Material(i) => after_clicks(e, buttons).brush == Brush::Voxel && (i < 4
                ==> after_clicks(e, buttons).material == i),
            PaletteEntry::Tool(b) => after_clicks(e, buttons).brush == b,
        },
        buttons.len() > 0 && buttons.last().interaction != Interaction::Pressed ==> after_clicks(
            e,
            buttons,
        ) == after_clicks(e, buttons.drop_last()),
    decreases buttons.len(),
{
    if buttons.len() > 0 {
        let t = buttons.drop_last();
        lemma_the_last_pressed_button_counts(e, t);
        assert(forall|i: int| 0 <= i < t.len() ==> #[trigger] buttons[i] == t[i]);
        assert(buttons.last() == buttons[buttons.len() - 1]);
    }
}

/// The selected entry is lit as active whatever the pointer does; of the others the one under
/// the pointer is lit as hovered, and the rest are not lit.
pub proof fn lemma_the_selected_entry_is_lit(
    entry: PaletteEntry,
    i: Interaction,
    e: EditorSpec,
)
    ensures
        lit(entry, i, e) == Highlight::Active <==> (match entry {
            PaletteEntry::Material(m) => e.brush == Brush::Voxel && e.material % 4 == m as int % 4,
            PaletteEntry::Tool(b) => e.brush == b,
        }),
        lit(entry, i, e) == Highlight::Hovered ==> i == Interaction::Hovered,
        i == Interaction::Hovered ==> lit(entry, i, e) != Highlight::Idle,
{
}

/// The pointer is on the palette exactly when it presses or hovers over some widget of it.
pub proof fn lemma_the_pointer_touches_a_widget(widgets: Seq<Interaction>)
    ensures
        touched(widgets) <==> widgets.contains(Interaction::Pressed) || widgets.contains(
            Interaction::Hovered,
        ),
{
    if widgets.contains(Interaction::Pressed) {
        let i = choose|i: int| 0 <= i < widgets.len() && widgets[i] == Interaction::Pressed;
        assert(widgets[i] != Interaction::Idle);
    }
    if widgets.contains(Interaction::Hovered) {
        let i = choose|i: int| 0 <= i < widgets.len() && widgets[i] == Interaction::Hovered;
        assert(widgets[i] != Interaction::Idle);
    }
}

/// A steered wheel is bluer than the plain one of its preset, and brighter in every channel.
pub proof fn lemma_steered_wheels_are_bluer(preset: WheelPreset)
    ensures
        ({
            let plain = tool_rgb(Brush::Wheel { preset, steer: false });
            let steered = tool_rgb(Brush::Wheel { preset, steer: true });
            &&& steered.r > plain.r && steered.g > plain.g && steered.b > plain.b
            &&& steered.b - plain.b > steered.r - plain.r && steered.b - plain.b > steered.g
                - plain.g
        }),
{
}

} // verus!
