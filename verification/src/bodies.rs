//! The body viewer: generate some, keep some.

use crate::input::KeyCode;
use crate::input::Keyboard;
use crate::readout::field;
use crate::readout::show;
use crate::readout::shown;
use crate::readout::Field;
use crate::text::decimal;
use crate::text::push_decimal;
use vstd::prelude::*;

verus! {

/// Where kept bodies are saved.
pub const SAVES_DIR: &'static str = "saves/bodies";

/// The first status line.
pub const FIRST_STATUS: &'static str = "generate: Space (next seed) \u{b7} Tab (archetype) \u{b7} K (keep)";

/// What is being viewed. `dirty` says that the view must be rebuilt.
#[derive(Debug, PartialEq, Eq)]
pub struct BodyView {
    pub seed: u64,
    pub archetype_idx: usize,
    pub status: String,
    pub dirty: bool,
}

impl Default for BodyView {
    fn default() -> (v: BodyView)
        ensures
            v.seed == 1,
            v.archetype_idx == 0,
            v.status@ == FIRST_STATUS@,
            !v.dirty,
    {
        BodyView { seed: 1, archetype_idx: 0, status: FIRST_STATUS.to_owned(), dirty: false }
    }
}

/// What the keys ask for, in this order: a body from the view's seed and
/// archetype, and a save of the body that is then shown.
#[derive(Clone, Copy, Debug, PartialEq, Eq, Structural)]
pub struct BodiesRequest {
    pub regenerate: bool,
    pub keep: bool,
}

/// The next seed; after the last one comes the first.
pub open spec fn next_body_seed(seed: u64) -> u64 {
    if seed == u64::MAX {
        0
    } else {
        (seed + 1) as u64
    }
}

/// Reads the keys: space takes the next seed, tab the next of `archetypes`
/// archetypes, and `K` keeps the body.
pub fn bodies_input(view: &mut BodyView, keys: &Keyboard, archetypes: usize) -> (r: BodiesRequest)
    requires
        old(view).archetype_idx < archetypes,
    ensures
        final(view).archetype_idx < archetypes,
        final(view).status@ == old(view).status@,
        final(view).seed == (if keys.tapped(KeyCode::Space) {
            next_body_seed(old(view).seed)
        } else {
            old(view).seed
        }),
        final(view).archetype_idx == (if keys.tapped(KeyCode::Tab) {
            (old(view).archetype_idx + 1) % archetypes as int
        } else {
            old(view).archetype_idx as int
        }),
        r.regenerate == (keys.tapped(KeyCode::Space) || keys.tapped(KeyCode::Tab)),
        r.keep == keys.tapped(KeyCode::KeyK),
        final(view).dirty == (old(view).dirty || r.regenerate),
{
    let mut regenerate: bool = false;
    if keys.just_pressed(KeyCode::Space) {
        view.seed = if view.seed == u64::MAX {
            0
        } else {
            view.seed + 1
        };
        regenerate = true;
    }
    if keys.just_pressed(KeyCode::Tab) {
        let next: usize = view.archetype_idx + 1;
        proof {
            if next < archetypes {
                vstd::arithmetic::div_mod::lemma_small_mod(next as nat, archetypes as nat);
            } else {
                vstd::arithmetic::div_mod::lemma_mod_self_0(archetypes as int);
            }
        }
        view.archetype_idx = if next < archetypes {
            next
        } else {
            0
        };
        regenerate = true;
    }
    if regenerate {
        view.dirty = true;
    }
    BodiesRequest { regenerate, keep: keys.just_pressed(KeyCode::KeyK) }
}

/// The archetype after `k` tabs.
pub open spec fn tabbed(idx: int, k: nat, archetypes: int) -> int
    decreases k,
{
    if k == 0 {
        idx
    } else {
        (tabbed(idx, (k - 1) as nat, archetypes) + 1) % archetypes
    }
}

/// Tabbing through all archetypes leads back.
pub proof fn lemma_tabs_cycle(idx: int, archetypes: nat)
    requires
        0 <= idx < archetypes,
    ensures
        tabbed(idx, archetypes, archetypes as int) == idx,
{
    lemma_tabbed(idx, archetypes, archetypes as int);
    vstd::arithmetic::div_mod::lemma_mod_add_multiples_vanish(idx, archetypes as int);
    vstd::arithmetic::div_mod::lemma_small_mod(idx as nat, archetypes);
}

proof fn lemma_tabbed(idx: int, k: nat, n: int)
    requires
        0 <= idx < n,
    ensures
        tabbed(idx, k, n) == (idx + k) % n,
    decreases k,
{
    if k == 0 {
        vstd::arithmetic::div_mod::lemma_small_mod(idx as nat, n as nat);
    } else {
        lemma_tabbed(idx, (k - 1) as nat, n);
        vstd::arithmetic::div_mod::lemma_add_mod_noop(idx + k - 1, 1, n);
        vstd::arithmetic::div_mod::lemma_add_mod_noop((idx + k - 1) % n, 1, n);
        vstd::arithmetic::div_mod::lemma_mod_twice(idx + k - 1, n);
    }
}

/// Takes the outcome of a save: where the body was kept, or why it was not.
pub fn kept(view: &mut BodyView, outcome: &Result<String, String>)
    ensures
        final(view).seed == old(view).seed,
        final(view).archetype_idx == old(view).archetype_idx,
        final(view).dirty == old(view).dirty,
        final(view).status@ == (match *outcome {
            Ok(path) => "kept: "@ + path@,
            Err(e) => "keep failed: "@ + e@,
        }),
{
    match outcome {
        Ok(path) => {
            let mut s: String = "kept: ".to_owned();
            s.append(path.as_str());
            view.status = s;
        },
        Err(e) => {
            let mut s: String = "keep failed: ".to_owned();
            s.append(e.as_str());
            view.status = s;
        },
    }
}

/// Whether the view is to be rebuilt in this frame; it is then clean.
pub fn apply_body(view: &mut BodyView) -> (rebuild: bool)
    ensures
        rebuild == old(view).dirty,
        !final(view).dirty,
        final(view).seed == old(view).seed,
        final(view).archetype_idx == old(view).archetype_idx,
        final(view).status@ == old(view).status@,
{
    let rebuild: bool = view.dirty;
    view.dirty = false;
    rebuild
}

/// What surrounds a body.
#[derive(Clone, Copy, Debug, PartialEq, Eq, Structural)]
pub struct Surroundings {
    pub air: bool,
    pub sea: bool,
}

/// A colour whose channels run from 0 to 51000.
#[derive(Clone, Copy, Debug, PartialEq, Eq, Structural)]
pub struct Tint {
    pub r: u32,
    pub g: u32,
    pub b: u32,
}

/// The base colour of a body, in hundredths: blue with a sea, tan with air alone,
/// grey without either.
pub open spec fn base_tint(m: Surroundings) -> (int, int, int) {
    if m.sea {
        (10, 32, 72)
    } else if m.air {
        (62, 50, 36)
    } else {
        (52, 52, 55)
    }
}

/// A channel, jittered by a seed's lowest byte by six hundredths at most.
pub open spec fn jittered(base: int, byte: int) -> int {
    let v = 510 * base + 12 * (2 * byte - 255);
    if v < 0 {
        0
    } else if v > 51_000 {
        51_000
    } else {
        v
    }
}

/// A channel, jittered.
fn jitter(base: i32, byte: i32) -> (r: u32)
    requires
        0 <= base <= 100,
        0 <= byte <= 255,
    ensures
        r == jittered(base as int, byte as int),
{
    let v: i32 = 510 * base + 12 * (2 * byte - 255);
    if v < 0 {
        0
    } else if v > 51_000 {
        51_000
    } else {
        v as u32
    }
}

/// The colour of a body, from its surroundings and its surface's seed.
pub fn body_tint(m: Surroundings, surface_seed: u64) -> (t: Tint)
    ensures
        t.r == jittered(base_tint(m).0, surface_seed as int % 256),
        t.g == jittered(base_tint(m).1, surface_seed as int % 256),
        t.b == jittered(base_tint(m).2, surface_seed as int % 256),
{
    let byte: i32 = (surface_seed % 256) as i32;
    let (r, g, b): (i32, i32, i32) = if m.sea {
        (10, 32, 72)
    } else if m.air {
        (62, 50, 36)
    } else {
        (52, 52, 55)
    };
    Tint { r: jitter(r, byte), g: jitter(g, byte), b: jitter(b, byte) }
}

/// The shell that stands for an atmosphere.
#[derive(Clone, Copy, Debug, PartialEq, Eq, Structural)]
pub enum Shell {
    Blue,
    Tan,
}

/// The shell of a body: airless bodies have none.
pub fn atmo_tint(m: Surroundings) -> (s: Option<Shell>)
    ensures
        s == (if !m.air {
            None
        } else if m.sea {
            Some(Shell::Blue)
        } else {
            Some(Shell::Tan)
        }),
        s == shell_of(m),
{
    if !m.air {
        None
    } else if m.sea {
        Some(Shell::Blue)
    } else {
        Some(Shell::Tan)
    }
}

/// What the readout calls a body's surroundings.
pub open spec fn surroundings_name(m: Surroundings) -> Seq<char> {
    if !m.air {
        "airless"@
    } else if !m.sea {
        "atmosphere"@
    } else {
        "atmosphere + ocean"@
    }
}

/// The viewer's readout: the radius in metres, the gravity in micrometres per
/// second squared.
pub fn hud_text(
    view: &BodyView,
    name: &str,
    archetype: &str,
    radius_m: u32,
    gravity: i64,
    m: Surroundings,
) -> (s: String)
    ensures
        s@ == "BODY GENERATOR (-- bodies)\nname: "@ + name@ + "\narchetype: "@ + archetype@
            + "\nseed: "@ + decimal(view.seed as nat) + "\nradius: "@ + shown(
            radius_m * 1_000,
            (Field { width: 0, digits: 0, plus: false }),
        ) + " km\nsurface gravity: "@ + shown(
            gravity as int,
            (Field { width: 0, digits: 2, plus: false }),
        ) + " m/s^2\nmedium: "@ + surroundings_name(m)
            + "\n\nSpace next seed \u{b7} Tab archetype \u{b7} K keep \u{b7} middle-drag orbit \u{b7} scroll zoom\n"@
            + view.status@,
{
    let mut s: String = "BODY GENERATOR (-- bodies)\nname: ".to_owned();
    s.append(name);
    s.append("\narchetype: ");
    s.append(archetype);
    s.append("\nseed: ");
    push_decimal(&mut s, view.seed);
    s.append("\nradius: ");
    show(&mut s, radius_m as i64 * 1_000, field(0, 0));
    s.append(" km\nsurface gravity: ");
    show(&mut s, gravity, field(0, 2));
    s.append(" m/s^2\nmedium: ");
    s.append(
        if !m.air {
            "airless"
        } else if !m.sea {
            "atmosphere"
        } else {
            "atmosphere + ocean"
        },
    );
    s.append(
        "\n\nSpace next seed \u{b7} Tab archetype \u{b7} K keep \u{b7} middle-drag orbit \u{b7} scroll zoom\n",
    );
    s.append(view.status.as_str());
    s
}

/// Seeds follow one another, and the first comes after the last; no two have the same next.
pub proof fn lemma_seeds_follow_one_another(a: u64, b: u64)
    ensures
        a < u64::MAX ==> next_body_seed(a) == a + 1,
        next_body_seed(u64::MAX) == 0,
        a != b ==> next_body_seed(a) != next_body_seed(b),
{
}

/// Each tab goes to the next archetype, and from the last to the first.
pub proof fn lemma_a_tab_is_one_step(idx: int, archetypes: int)
    requires
        0 <= idx < archetypes,
    ensures
        idx < archetypes - 1 ==> tabbed(idx, 1, archetypes) == idx + 1,
        idx == archetypes - 1 ==> tabbed(idx, 1, archetypes) == 0,
{
    assert(tabbed(idx, 0, archetypes) == idx);
    assert(tabbed(idx, 1, archetypes) == (tabbed(idx, 0, archetypes) + 1) % archetypes);
    if idx < archetypes - 1 {
        vstd::arithmetic::div_mod::lemma_small_mod((idx + 1) as nat, archetypes as nat);
    } else {
        vstd::arithmetic::div_mod::lemma_mod_self_0(archetypes);
    }
}

/// A body with a sea is bluest in its base colour; one with air alone is reddest; a bare one
/// is grey, with its channels close together.
pub proof fn lemma_base_colours(air: bool)
    ensures
        ({
            let sea = base_tint(Surroundings { air, sea: true });
            let tan = base_tint(Surroundings { air: true, sea: false });
            let bare = base_tint(Surroundings { air: false, sea: false });
            &&& sea.2 > sea.1 > sea.0
            &&& tan.0 > tan.1 > tan.2
            &&& bare.0 == bare.1 && bare.1 <= bare.2 <= bare.1 + 3
            &&& sea == (10int, 32int, 72int) && tan == (62int, 50int, 36int)
        }),
{
}

/// The jitter stays within six hundredths of the base, up for the high bytes and down for the
/// low ones, and grows with the byte.
pub proof fn lemma_jitter_is_small(base: int, byte: int, more: int)
    requires
        6 <= base <= 94,
        0 <= byte <= more <= 255,
    ensures
        -6 * 510 <= jittered(base, byte) - 510 * base <= 6 * 510,
        jittered(base, byte) <= jittered(base, more),
        byte >= 128 ==> jittered(base, byte) > 510 * base,
        byte < 128 ==> jittered(base, byte) < 510 * base,
        jittered(base, more) - jittered(base, byte) == 24 * (more - byte),
{
}

/// Bodies are told apart by what surrounds them.
pub proof fn lemma_surroundings_are_told_apart(m: Surroundings)
    ensures
        !m.air ==> surroundings_name(m) == "airless"@,
        m.air && !m.sea ==> surroundings_name(m) == "atmosphere"@,
        m.air && m.sea ==> surroundings_name(m) == "atmosphere + ocean"@,
{
}

/// The shell of a body.
pub open spec fn shell_of(m: Surroundings) -> Option<Shell> {
    if !m.air {
        None
    } else if m.sea {
        Some(Shell::Blue)
    } else {
        Some(Shell::Tan)
    }
}

/// A body has a shell exactly if it has air, a blue one exactly if it has a sea as well.
pub proof fn lemma_air_makes_the_shell(m: Surroundings)
    ensures
        shell_of(m) is Some <==> m.air,
        shell_of(m) == Some(Shell::Blue) <==> m.air && m.sea,
        shell_of(m) == Some(Shell::Tan) <==> m.air && !m.sea,
{
}

} // verus!
