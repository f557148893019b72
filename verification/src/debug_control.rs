//! Debug camera and overlay control: an agent drives a scene's debug camera and
//! its overlays over the bus.
//!
//! Commands are sorted out here: overlay commands change the overlay state, and
//! camera commands become moves for the scene's camera, if it has one that can
//! be driven. The moves themselves are geometry and are carried out by the
//! caller; real numbers pass through as the bit patterns of their
//! double-precision values.

use crate::text::same_text;
use vstd::prelude::*;

verus! {

/// How a placed camera should aim.
#[derive(Clone, Copy, Debug, PartialEq, Eq, Structural)]
pub enum LookMode {
    /// Straight down at the surface under the camera.
    Nadir,
    /// Along the local horizon.
    Horizon,
    /// Along a fixed body-relative direction.
    Direction(u64, u64, u64),
}

impl Default for LookMode {
    fn default() -> (l: LookMode)
        ensures
            l == LookMode::Nadir,
    {
        LookMode::Nadir
    }
}

/// Which quantity the surface is coloured by.
#[derive(Clone, Copy, Debug, PartialEq, Eq, Structural)]
pub enum SurfaceView {
    /// The shipping tint.
    Biome,
    DominantBiome,
    Temperature,
    Moisture,
}

impl Default for SurfaceView {
    fn default() -> (v: SurfaceView)
        ensures
            v == SurfaceView::Biome,
    {
        SurfaceView::Biome
    }
}

impl SurfaceView {
    /// The view of a name.
    pub open spec fn named(name: Seq<char>) -> Option<SurfaceView> {
        if name == "biome"@ {
            Some(SurfaceView::Biome)
        } else if name == "dominant"@ {
            Some(SurfaceView::DominantBiome)
        } else if name == "temperature"@ {
            Some(SurfaceView::Temperature)
        } else if name == "moisture"@ {
            Some(SurfaceView::Moisture)
        } else {
            None
        }
    }

    /// The view of a name, if there is one.
    pub fn parse(name: &str) -> (v: Option<SurfaceView>)
        ensures
            v == SurfaceView::named(name@),
    {
        if same_text(name, "biome") {
            Some(SurfaceView::Biome)
        } else if same_text(name, "dominant") {
            Some(SurfaceView::DominantBiome)
        } else if same_text(name, "temperature") {
            Some(SurfaceView::Temperature)
        } else if same_text(name, "moisture") {
            Some(SurfaceView::Moisture)
        } else {
            None
        }
    }
}

/// A debug camera or overlay control action.
#[derive(Debug, PartialEq, Eq)]
pub enum DebugCommand {
    /// Place the camera at a body-relative orbit position and aim it.
    SetOrbit { altitude_m: u64, lat_deg: u64, lon_deg: u64, look: LookMode },
    /// Place it at a body-relative position, looking at a body-relative target.
    SetPose { position: (u64, u64, u64), look_at: (u64, u64, u64) },
    /// Move it in its own frame and turn it.
    Nudge { forward_m: u64, right_m: u64, up_m: u64, yaw_deg: u64, pitch_deg: u64 },
    /// Take up a named framing (see [`resolve_named`]).
    NamedPose(String),
    /// Set debug overlays; what is absent stays as it is.
    SetOverlay { lod: Option<bool>, biome_view: Option<String> },
}

/// A named framing: whole metres and degrees, and how to aim.
#[derive(Clone, Copy, Debug, PartialEq, Eq, Structural)]
pub struct NamedFraming {
    pub altitude_m: u32,
    pub lat_deg: i32,
    pub lon_deg: i32,
    pub look: LookMode,
}

/// What the camera is to do.
#[derive(Clone, Copy, Debug, PartialEq, Eq)]
pub enum CameraMove {
    Orbit { altitude_m: u64, lat_deg: u64, lon_deg: u64, look: LookMode },
    Pose { position: (u64, u64, u64), look_at: (u64, u64, u64) },
    Nudge { forward_m: u64, right_m: u64, up_m: u64, yaw_deg: u64, pitch_deg: u64 },
    Framing(NamedFraming),
}

/// The named framings.
pub open spec fn framing_of(name: Seq<char>) -> Option<NamedFraming> {
    if name == "nadir_200km"@ {
        Some(NamedFraming { altitude_m: 200_000, lat_deg: 0, lon_deg: 0, look: LookMode::Nadir })
    } else if name == "nadir_20km"@ {
        Some(NamedFraming { altitude_m: 20_000, lat_deg: 0, lon_deg: 0, look: LookMode::Nadir })
    } else if name == "grazing_horizon_6km"@ {
        Some(NamedFraming { altitude_m: 6_000, lat_deg: 0, lon_deg: 0, look: LookMode::Horizon })
    } else if name == "grazing_horizon_60km"@ {
        Some(NamedFraming { altitude_m: 60_000, lat_deg: 20, lon_deg: 0, look: LookMode::Horizon })
    } else if name == "high_orbit"@ {
        Some(NamedFraming { altitude_m: 400_000, lat_deg: 30, lon_deg: 20, look: LookMode::Nadir })
    } else {
        None
    }
}

/// The framing of a name, if there is one.
pub fn resolve_named(name: &str) -> (f: Option<NamedFraming>)
    ensures
        f == framing_of(name@),
{
    if same_text(name, "nadir_200km") {
        Some(NamedFraming { altitude_m: 200_000, lat_deg: 0, lon_deg: 0, look: LookMode::Nadir })
    } else if same_text(name, "nadir_20km") {
        Some(NamedFraming { altitude_m: 20_000, lat_deg: 0, lon_deg: 0, look: LookMode::Nadir })
    } else if same_text(name, "grazing_horizon_6km") {
        Some(NamedFraming { altitude_m: 6_000, lat_deg: 0, lon_deg: 0, look: LookMode::Horizon })
    } else if same_text(name, "grazing_horizon_60km") {
        Some(NamedFraming { altitude_m: 60_000, lat_deg: 20, lon_deg: 0, look: LookMode::Horizon })
    } else if same_text(name, "high_orbit") {
        Some(NamedFraming { altitude_m: 400_000, lat_deg: 30, lon_deg: 20, look: LookMode::Nadir })
    } else {
        None
    }
}

/// The overlay state that commands change: the level-of-detail overlay, and the
/// surface view.
#[derive(Clone, Copy, Debug, PartialEq, Eq, Structural)]
pub struct DebugOverlayState {
    pub lod: bool,
    pub view: SurfaceView,
}

impl Default for DebugOverlayState {
    fn default() -> (o: DebugOverlayState)
        ensures
            o == (DebugOverlayState { lod: false, view: SurfaceView::Biome }),
    {
        DebugOverlayState { lod: false, view: SurfaceView::Biome }
    }
}

/// What a command does to the overlays. Unknown view names are ignored.
pub open spec fn overlay_after(o: DebugOverlayState, cmd: DebugCommand) -> DebugOverlayState {
    match cmd {
        DebugCommand::SetOverlay { lod, biome_view } => DebugOverlayState {
            lod: match lod {
                Some(v) => v,
                None => o.lod,
            },
            view: if biome_view is Some && SurfaceView::named((biome_view->0)@) is Some {
                SurfaceView::named((biome_view->0)@)->0
            } else {
                o.view
            },
        },
        _ => o,
    }
}

/// What a command asks of a camera; overlay commands and unknown framings ask
/// nothing.
pub open spec fn move_of(cmd: DebugCommand) -> Option<CameraMove> {
    match cmd {
        DebugCommand::SetOrbit { altitude_m, lat_deg, lon_deg, look } => Some(
            CameraMove::Orbit { altitude_m, lat_deg, lon_deg, look },
        ),
        DebugCommand::SetPose { position, look_at } => Some(
            CameraMove::Pose { position, look_at },
        ),
        DebugCommand::Nudge { forward_m, right_m, up_m, yaw_deg, pitch_deg } => Some(
            CameraMove::Nudge { forward_m, right_m, up_m, yaw_deg, pitch_deg },
        ),
        DebugCommand::NamedPose(name) => match framing_of(name@) {
            Some(f) => Some(CameraMove::Framing(f)),
            None => None,
        },
        DebugCommand::SetOverlay { lod, biome_view } => None,
    }
}

/// What a run of commands does to the overlays.
pub open spec fn overlay_after_all(o: DebugOverlayState, cmds: Seq<DebugCommand>) -> DebugOverlayState
    decreases cmds.len(),
{
    if cmds.len() == 0 {
        o
    } else {
        overlay_after(overlay_after_all(o, cmds.drop_last()), cmds.last())
    }
}

/// The camera moves of a run of commands, in order.
pub open spec fn moves_of(cmds: Seq<DebugCommand>) -> Seq<CameraMove>
    decreases cmds.len(),
{
    if cmds.len() == 0 {
        Seq::empty()
    } else {
        match move_of(cmds.last()) {
            Some(m) => moves_of(cmds.drop_last()).push(m),
            None => moves_of(cmds.drop_last()),
        }
    }
}

/// Reads one command's camera move.
fn camera_move(cmd: &DebugCommand) -> (m: Option<CameraMove>)
    ensures
        m == move_of(*cmd),
{
    match cmd {
        DebugCommand::SetOrbit { altitude_m, lat_deg, lon_deg, look } => Some(
            CameraMove::Orbit {
                altitude_m: *altitude_m,
                lat_deg: *lat_deg,
                lon_deg: *lon_deg,
                look: *look,
            },
        ),
        DebugCommand::SetPose { position, look_at } => Some(
            CameraMove::Pose { position: *position, look_at: *look_at },
        ),
        DebugCommand::Nudge { forward_m, right_m, up_m, yaw_deg, pitch_deg } => Some(
            CameraMove::Nudge {
                forward_m: *forward_m,
                right_m: *right_m,
                up_m: *up_m,
                yaw_deg: *yaw_deg,
                pitch_deg: *pitch_deg,
            },
        ),
        DebugCommand::NamedPose(name) => match resolve_named(name.as_str()) {
            Some(f) => Some(CameraMove::Framing(f)),
            None => None,
        },
        DebugCommand::SetOverlay { lod, biome_view } => None,
    }
}

/// Applies queued commands: overlays change whether or not there is a camera;
/// the camera's moves are returned in order, and there are none without both a
/// camera that can be driven and a body to place it by.
pub fn apply_debug_commands(
    cmds: &Vec<DebugCommand>,
    has_camera: bool,
    has_body: bool,
    overlay: &mut DebugOverlayState,
) -> (moves: Vec<CameraMove>)
    ensures
        *final(overlay) == overlay_after_all(*old(overlay), cmds@),
        moves@ == (if has_camera && has_body {
            moves_of(cmds@)
        } else {
            Seq::empty()
        }),
{
    let ghost start = *overlay;
    let mut moves: Vec<CameraMove> = Vec::new();
    let mut i: usize = 0;
    assert(cmds@.take(0) =~= Seq::<DebugCommand>::empty());
    while i < cmds.len()
        invariant
            i <= cmds.len(),
            *overlay == overlay_after_all(start, cmds@.take(i as int)),
            moves@ == (if has_camera && has_body {
                moves_of(cmds@.take(i as int))
            } else {
                Seq::empty()
            }),
        decreases cmds.len() - i,
    {
        let ghost run = cmds@.take(i + 1);
        assert(run.drop_last() =~= cmds@.take(i as int));
        assert(run.last() == cmds@[i as int]);
        match &cmds[i] {
            DebugCommand::SetOverlay { lod, biome_view } => {
                if let Some(v) = lod {
                    overlay.lod = *v;
                }
                if let Some(name) = biome_view {
                    if let Some(v) = SurfaceView::parse(name.as_str()) {
                        overlay.view = v;
                    }
                }
            },
            cmd => {
                if has_camera && has_body {
                    if let Some(m) = camera_move(cmd) {
                        moves.push(m);
                    }
                }
            },
        }
        i += 1;
    }
    assert(cmds@.take(cmds.len() as int) =~= cmds@);
    moves
}

/// Whether a pose can be published: a scene needs both a camera that can be
/// driven and a body to place it by.
pub fn publish_camera_pose(has_camera: bool, has_body: bool) -> (available: bool)
    ensures
        available == (has_camera && has_body),
{
    has_camera && has_body
}

/// Overlay commands never move the camera, and camera commands never touch the
/// overlays.
pub proof fn lemma_overlays_and_camera_are_apart(o: DebugOverlayState, cmd: DebugCommand)
    ensures
        move_of(cmd) is Some ==> overlay_after(o, cmd) == o,
        overlay_after(o, cmd) != o ==> move_of(cmd) is None,
{
}

/// A command that names nothing changes nothing: absent fields leave the
/// overlays as they are.
pub proof fn lemma_absent_fields_change_nothing(o: DebugOverlayState)
    ensures
        overlay_after(o, DebugCommand::SetOverlay { lod: None, biome_view: None }) == o,
{
}

/// A camera command becomes a move that carries its own numbers.
pub proof fn lemma_camera_commands_carry_their_numbers(cmd: DebugCommand)
    ensures
        cmd matches DebugCommand::SetOrbit { altitude_m, lat_deg, lon_deg, look } ==> (move_of(
            cmd,
        ) matches Some(CameraMove::Orbit { altitude_m: a, lat_deg: b, lon_deg: c, look: l }) && a
            == altitude_m && b == lat_deg && c == lon_deg && l == look),
        cmd matches DebugCommand::SetPose { position, look_at } ==> (move_of(cmd) matches Some(
            CameraMove::Pose { position: p, look_at: l },
        ) && p == position && l == look_at),
        cmd matches DebugCommand::Nudge { forward_m, right_m, up_m, yaw_deg, pitch_deg } ==> (
        move_of(cmd) matches Some(
            CameraMove::Nudge { forward_m: f, right_m: r, up_m: u, yaw_deg: y, pitch_deg: p },
        ) && f == forward_m && r == right_m && u == up_m && y == yaw_deg && p == pitch_deg),
        cmd matches DebugCommand::NamedPose(name) ==> (move_of(cmd) is Some <==> framing_of(
            name@,
        ) is Some) && (move_of(cmd) matches Some(m) ==> m == CameraMove::Framing(
            framing_of(name@)->0,
        )),
        cmd is SetOverlay ==> move_of(cmd) is None,
{
}

/// The named framings: two straight down, from two hundred and twenty kilometres; two along
/// the horizon, from six and sixty; and one down from four hundred. No other name is one.
pub proof fn lemma_framings_are_as_named(name: Seq<char>)
    ensures
        framing_of("nadir_200km"@) matches Some(f) && f.altitude_m == 200_000 && f.look
            == LookMode::Nadir && f.lat_deg == 0 && f.lon_deg == 0,
        framing_of("nadir_20km"@) matches Some(f) && f.altitude_m == 20_000 && f.look
            == LookMode::Nadir && f.lat_deg == 0 && f.lon_deg == 0,
        framing_of("grazing_horizon_6km"@) matches Some(f) && f.altitude_m == 6_000 && f.look
            == LookMode::Horizon && f.lat_deg == 0 && f.lon_deg == 0,
        framing_of("grazing_horizon_60km"@) matches Some(f) && f.altitude_m == 60_000 && f.look
            == LookMode::Horizon && f.lat_deg == 20 && f.lon_deg == 0,
        framing_of("high_orbit"@) matches Some(f) && f.altitude_m == 400_000 && f.look
            == LookMode::Nadir && f.lat_deg == 30 && f.lon_deg == 20,
        framing_of(name) is Some ==> name == "nadir_200km"@ || name == "nadir_20km"@ || name
            == "grazing_horizon_6km"@ || name == "grazing_horizon_60km"@ || name == "high_orbit"@,
{
    reveal_strlit("nadir_200km");
    reveal_strlit("nadir_20km");
    reveal_strlit("grazing_horizon_6km");
    reveal_strlit("grazing_horizon_60km");
    reveal_strlit("high_orbit");
    assert("nadir_200km"@.len() == 11 && "nadir_20km"@.len() == 10 && "grazing_horizon_6km"@.len()
        == 19 && "grazing_horizon_60km"@.len() == 20);
    assert("high_orbit"@[0] == 'h' && "nadir_20km"@[0] == 'n');
}

/// An overlay command sets what it names and leaves the rest: the level-of-detail overlay as
/// told, and the view of a known name; an unknown name leaves the view.
pub proof fn lemma_overlays_are_set_as_told(
    o: DebugOverlayState,
    lod: Option<bool>,
    biome_view: Option<String>,
)
    ensures
        ({
            let after = overlay_after(o, DebugCommand::SetOverlay { lod, biome_view });
            &&& lod matches Some(v) ==> after.lod == v
            &&& lod is None ==> after.lod == o.lod
            &&& biome_view is None ==> after.view == o.view
            &&& biome_view matches Some(n) ==> match SurfaceView::named(n@) {
                Some(v) => after.view == v,
                None => after.view == o.view,
            }
        }),
{
}

/// The views' names.
pub proof fn lemma_views_are_named(name: Seq<char>)
    ensures
        SurfaceView::named("biome"@) == Some(SurfaceView::Biome),
        SurfaceView::named("dominant"@) == Some(SurfaceView::DominantBiome),
        SurfaceView::named("temperature"@) == Some(SurfaceView::Temperature),
        SurfaceView::named("moisture"@) == Some(SurfaceView::Moisture),
        SurfaceView::named(name) is Some ==> name == "biome"@ || name == "dominant"@ || name
            == "temperature"@ || name == "moisture"@,
{
    reveal_strlit("biome");
    reveal_strlit("dominant");
    reveal_strlit("temperature");
    reveal_strlit("moisture");
    assert("biome"@.len() == 5 && "dominant"@.len() == 8 && "temperature"@.len() == 11);
    assert("moisture"@[0] == 'm' && "dominant"@[0] == 'd');
}

/// Commands are carried out in the order they came: a run of them does what its first half
/// and then its second half does, to the overlays and to the camera.
pub proof fn lemma_commands_run_in_order(
    o: DebugOverlayState,
    first: Seq<DebugCommand>,
    second: Seq<DebugCommand>,
)
    ensures
        overlay_after_all(o, first + second) == overlay_after_all(
            overlay_after_all(o, first),
            second,
        ),
        moves_of(first + second) == moves_of(first) + moves_of(second),
    decreases second.len(),
{
    if second.len() == 0 {
        assert(first + second =~= first);
        assert(moves_of(first) + moves_of(second) =~= moves_of(first));
    } else {
        lemma_commands_run_in_order(o, first, second.drop_last());
        assert((first + second).drop_last() =~= first + second.drop_last());
        assert((first + second).last() == second.last());
        assert(moves_of(first + second) =~= moves_of(first) + moves_of(second));
    }
}

/// A single command moves the camera as it asks.
pub proof fn lemma_one_command_is_one_move(cmd: DebugCommand)
    ensures
        move_of(cmd) matches Some(m) ==> moves_of(seq![cmd]) == seq![m],
        move_of(cmd) is None ==> moves_of(seq![cmd]).len() == 0,
{
    assert(seq![cmd].drop_last() =~= Seq::<DebugCommand>::empty());
    assert(moves_of(seq![cmd].drop_last()) =~= Seq::<CameraMove>::empty());
}

} // verus!
