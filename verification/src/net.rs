//! The multiplayer adapter: what a session publishes, and which ghosts it shows.
//!
//! A scenario spawn opens a fresh session and publishes the parked craft; a
//! change of flight phase publishes the craft again; a change of the time rate
//! reports an anchor. Ghosts mirror the visible peers and are pure
//! presentation. Times, rates and coordinates pass through as the bit patterns
//! of their double-precision values.

use crate::readout::field;
use crate::readout::show;
use crate::readout::shown;
use crate::readout::Field;
use crate::text::same_text;
use crate::voxel::copy_craft;
use crate::voxel::VoxelCraft;
use vstd::prelude::*;

verus! {

/// Whether two double-precision values, given by their bit patterns, compare
/// equal: the same number, or both zero, and never a not-a-number.
pub open spec fn same_number(a: u64, b: u64) -> bool {
    let size_a = a as int % 0x8000_0000_0000_0000;
    let size_b = b as int % 0x8000_0000_0000_0000;
    &&& size_a <= 0x7ff0_0000_0000_0000
    &&& size_b <= 0x7ff0_0000_0000_0000
    &&& (a == b || (size_a == 0 && size_b == 0))
}

/// Whether two double-precision values compare equal.
fn numbers_equal(a: u64, b: u64) -> (r: bool)
    ensures
        r == same_number(a, b),
{
    let size_a: u64 = a % 0x8000_0000_0000_0000;
    let size_b: u64 = b % 0x8000_0000_0000_0000;
    size_a <= 0x7ff0_0000_0000_0000 && size_b <= 0x7ff0_0000_0000_0000 && (a == b || (size_a == 0
        && size_b == 0))
}

/// Where to connect, and as whom.
#[derive(Debug, PartialEq, Eq)]
pub struct NetSettings {
    pub server_url: String,
    pub invite_token: String,
    pub player: String,
}

/// The settings, if all three are given; otherwise the adapter is dormant.
pub fn settings(
    server: Option<String>,
    invite: Option<String>,
    player: Option<String>,
) -> (s: Option<NetSettings>)
    ensures
        match s {
            Some(n) => server == Some(n.server_url) && invite == Some(n.invite_token) && player
                == Some(n.player),
            None => server is None || invite is None || player is None,
        },
{
    match (server, invite, player) {
        (Some(server_url), Some(invite_token), Some(player)) => Some(
            NetSettings { server_url, invite_token, player },
        ),
        _ => None,
    }
}

/// The content-identity token of a scenario.
pub fn content_identity(id: &str, name: &str) -> (s: String)
    ensures
        s@ == "scenario:"@ + id@ + ":"@ + name@,
{
    let mut s: String = "scenario:".to_owned();
    s.append(id);
    s.append(":");
    s.append(name);
    s
}

/// What became of a vessel.
#[derive(Clone, Copy, Debug, PartialEq, Eq, Structural)]
pub enum Fate {
    Destroyed,
}

/// A point in the central body's frame.
#[derive(Clone, Copy, Debug, PartialEq, Eq, Structural)]
pub struct Position {
    pub x: u64,
    pub y: u64,
    pub z: u64,
}

/// The structure that a record carries.
#[derive(Debug, PartialEq, Eq)]
pub struct Subgraph {
    pub id: String,
    pub name: String,
    pub position: Position,
    pub craft: VoxelCraft,
    pub vessel_id: Option<String>,
}

/// A published vessel: a fix on the surface at a time.
#[derive(Debug, PartialEq, Eq)]
pub struct VesselRecord {
    pub vessel_id: String,
    pub name: String,
    pub owner: String,
    pub stamp: u64,
    pub position: Position,
    pub structure: Subgraph,
    pub live: bool,
    pub fate: Option<Fate>,
}

impl VesselRecord {
    /// Whether the record says that the vessel is gone.
    pub fn is_tombstone(&self) -> (b: bool)
        ensures
            b == (self.fate is Some),
    {
        self.fate.is_some()
    }
}

/// The flight state that a record is made from.
pub struct FlightParts<'a> {
    pub scenario_id: &'a str,
    pub scenario_name: &'a str,
    pub position: Position,
    pub voxels: &'a VoxelCraft,
    pub elapsed: u64,
}

/// Whether a record says what a flight, a vessel and a player are. The vessel's
/// id rides the structure as well.
pub open spec fn records(
    r: VesselRecord,
    flight: FlightParts<'_>,
    vessel_id: Seq<char>,
    player: Seq<char>,
    live: bool,
    fate: Option<Fate>,
) -> bool {
    &&& r.vessel_id@ == vessel_id
    &&& r.name@ == flight.scenario_name@
    &&& r.owner@ == player
    &&& r.stamp == flight.elapsed
    &&& r.position == flight.position
    &&& r.live == live
    &&& r.fate == fate
    &&& r.structure.id@ == flight.scenario_id@
    &&& r.structure.name@ == flight.scenario_name@
    &&& r.structure.position == flight.position
    &&& r.structure.craft@ == flight.voxels@
    &&& r.structure.vessel_id matches Some(v) && v@ == vessel_id
}

/// Assembles a record from the parts of a flight.
pub fn assemble_record_parts(
    flight: &FlightParts<'_>,
    vessel_id: &str,
    player: &str,
    live: bool,
    fate: Option<Fate>,
) -> (r: VesselRecord)
    ensures
        records(r, *flight, vessel_id@, player@, live, fate),
{
    VesselRecord {
        vessel_id: vessel_id.to_owned(),
        name: flight.scenario_name.to_owned(),
        owner: player.to_owned(),
        stamp: flight.elapsed,
        position: flight.position,
        structure: Subgraph {
            id: flight.scenario_id.to_owned(),
            name: flight.scenario_name.to_owned(),
            position: flight.position,
            craft: copy_craft(flight.voxels),
            vessel_id: Some(vessel_id.to_owned()),
        },
        live,
        fate,
    }
}

/// The phase of a flight session.
#[derive(Clone, Copy, Debug, PartialEq, Eq, Structural)]
pub enum Phase {
    Build,
    Launch,
    Flight,
    Recovery,
}

/// How a session ended.
#[derive(Clone, Copy, Debug, PartialEq, Eq, Structural)]
pub enum Outcome {
    Open,
    Landed,
    Crashed,
}

/// What the sync worker is told.
#[derive(Clone, Copy, Debug, PartialEq, Eq, Structural)]
pub enum SyncCommand {
    /// Start the worker.
    Start,
    /// Open a fresh session.
    NewSession,
    /// The new vessel is one's own.
    MarkOwn,
    /// The local time and its rate.
    Anchor { universe_time: u64, rate: u64 },
    /// Publish the craft as it is, with this liveness and fate.
    Publish { live: bool, fate: Option<Fate> },
}

/// What the adapter last reported.
#[derive(Clone, Copy, Debug, PartialEq, Eq, Structural)]
pub struct NetLink {
    pub last_phase: Phase,
    pub last_rate: u64,
}

/// The rate at which local time passes: zero while paused.
pub open spec fn rate_of(paused: bool, warp: u64) -> u64 {
    if paused {
        0
    } else {
        warp
    }
}

/// What a scenario spawn reports, `again` or for the first time.
pub open spec fn opened(again: bool, paused: bool, warp: u64, elapsed: u64) -> Seq<SyncCommand> {
    seq![
        if again {
            SyncCommand::NewSession
        } else {
            SyncCommand::Start
        },
        SyncCommand::MarkOwn,
        SyncCommand::Anchor { universe_time: elapsed, rate: rate_of(paused, warp) },
        SyncCommand::Publish { live: false, fate: None },
    ]
}

/// A scenario spawn: a fresh session (or the worker's start), a vessel of one's
/// own, an anchor, and the parked craft.
pub fn net_start(
    link: Option<NetLink>,
    phase: Phase,
    paused: bool,
    warp: u64,
    elapsed: u64,
) -> (r: (NetLink, Vec<SyncCommand>))
    ensures
        r.0 == (NetLink { last_phase: phase, last_rate: rate_of(paused, warp) }),
        r.1@ == seq![
            if link is Some {
                SyncCommand::NewSession
            } else {
                SyncCommand::Start
            },
            SyncCommand::MarkOwn,
            SyncCommand::Anchor { universe_time: elapsed, rate: rate_of(paused, warp) },
            SyncCommand::Publish { live: false, fate: None },
        ],
        r.1@ == opened(link is Some, paused, warp, elapsed),
{
    let rate: u64 = if paused {
        0
    } else {
        warp
    };
    let mut out: Vec<SyncCommand> = Vec::new();
    if link.is_some() {
        out.push(SyncCommand::NewSession);
    } else {
        out.push(SyncCommand::Start);
    }
    out.push(SyncCommand::MarkOwn);
    out.push(SyncCommand::Anchor { universe_time: elapsed, rate });
    out.push(SyncCommand::Publish { live: false, fate: None });
    (NetLink { last_phase: phase, last_rate: rate }, out)
}

/// What a phase publishes when it begins: in launch and flight the craft is
/// live; in recovery it is parked, or destroyed if it crashed. A return to
/// building publishes nothing.
pub open spec fn published_in(phase: Phase, outcome: Outcome) -> Seq<SyncCommand> {
    match phase {
        Phase::Build => Seq::empty(),
        Phase::Launch | Phase::Flight => seq![SyncCommand::Publish { live: true, fate: None }],
        Phase::Recovery => seq![
            SyncCommand::Publish {
                live: false,
                fate: if outcome == Outcome::Crashed {
                    Some(Fate::Destroyed)
                } else {
                    None
                },
            },
        ],
    }
}

/// What a frame reports: a publish on a change of phase, an anchor on a change
/// of rate.
pub open spec fn reported(
    link: NetLink,
    phase: Phase,
    outcome: Outcome,
    rate: u64,
    elapsed: u64,
) -> Seq<SyncCommand> {
    (if phase != link.last_phase {
        published_in(phase, outcome)
    } else {
        Seq::empty()
    }) + (if !same_number(rate, link.last_rate) {
        seq![SyncCommand::Anchor { universe_time: elapsed, rate }]
    } else {
        Seq::empty()
    })
}

/// Tracks a flight for one frame.
pub fn net_track(
    link: &mut NetLink,
    phase: Phase,
    outcome: Outcome,
    paused: bool,
    warp: u64,
    elapsed: u64,
) -> (out: Vec<SyncCommand>)
    ensures
        out@ == reported(*old(link), phase, outcome, rate_of(paused, warp), elapsed),
        final(link).last_phase == phase,
        final(link).last_rate == (if same_number(rate_of(paused, warp), old(link).last_rate) {
            old(link).last_rate
        } else {
            rate_of(paused, warp)
        }),
{
    let ghost start = *link;
    let mut out: Vec<SyncCommand> = Vec::new();
    if phase != link.last_phase {
        match phase {
            Phase::Build => {},
            Phase::Launch | Phase::Flight => {
                out.push(SyncCommand::Publish { live: true, fate: None });
            },
            Phase::Recovery => {
                let fate: Option<Fate> = if outcome == Outcome::Crashed {
                    Some(Fate::Destroyed)
                } else {
                    None
                };
                out.push(SyncCommand::Publish { live: false, fate });
            },
        }
        link.last_phase = phase;
    }
    let rate: u64 = if paused {
        0
    } else {
        warp
    };
    if !numbers_equal(rate, link.last_rate) {
        out.push(SyncCommand::Anchor { universe_time: elapsed, rate });
        link.last_rate = rate;
    }
    assert(out@ =~= reported(start, phase, outcome, rate, elapsed));
    out
}

/// A frame in which nothing has changed reports nothing.
pub proof fn lemma_quiet_frames_are_silent(link: NetLink, outcome: Outcome, elapsed: u64)
    requires
        same_number(link.last_rate, link.last_rate),
    ensures
        reported(link, link.last_phase, outcome, link.last_rate, elapsed).len() == 0,
{
}

/// A visible peer.
#[derive(Debug, PartialEq, Eq)]
pub struct PeerView {
    pub vessel_id: String,
    pub name: String,
    pub owner: String,
    pub live: bool,
    pub stamp: u64,
    pub stale: u64,
}

/// What the telemetry says of a peer.
#[derive(Debug, PartialEq, Eq)]
pub struct PeerTelemetry {
    pub vessel_id: String,
    pub name: String,
    pub player: String,
    pub live: bool,
    pub stamp: u64,
    pub stale: u64,
}

/// Whether telemetry says what a peer is.
pub open spec fn tells(t: PeerTelemetry, p: PeerView) -> bool {
    &&& t.vessel_id@ == p.vessel_id@
    &&& t.name@ == p.name@
    &&& t.player@ == p.owner@
    &&& t.live == p.live
    &&& t.stamp == p.stamp
    &&& t.stale == p.stale
}

/// The peers block of the telemetry: absent while disconnected.
pub fn peers_block(views: &Vec<PeerView>, connected: bool) -> (b: Option<Vec<PeerTelemetry>>)
    ensures
        b is Some == connected,
        b matches Some(v) ==> v@.len() == views@.len() && forall|i: int|
            0 <= i < v@.len() ==> tells(#[trigger] v@[i], views@[i]),
{
    if !connected {
        return None;
    }
    let mut out: Vec<PeerTelemetry> = Vec::new();
    let mut i: usize = 0;
    while i < views.len()
        invariant
            i <= views.len(),
            out@.len() == i,
            forall|j: int| 0 <= j < i ==> tells(#[trigger] out@[j], views@[j]),
        decreases views.len() - i,
    {
        let p: &PeerView = &views[i];
        out.push(
            PeerTelemetry {
                vessel_id: p.vessel_id.as_str().to_owned(),
                name: p.name.as_str().to_owned(),
                player: p.owner.as_str().to_owned(),
                live: p.live,
                stamp: p.stamp,
                stale: p.stale,
            },
        );
        i += 1;
    }
    Some(out)
}

/// A ghost that is shown: its entity, its vessel, and the stamp of the record
/// it was built from.
#[derive(Debug, PartialEq, Eq)]
pub struct NetGhost {
    pub entity: u64,
    pub vessel_id: String,
    pub stamp: u64,
}

/// A ghost's label.
#[derive(Debug, PartialEq, Eq)]
pub struct NetGhostLabel {
    pub entity: u64,
    pub vessel_id: String,
}

/// What is to be done with the ghosts; views are given by their place.
#[derive(Clone, Copy, Debug, PartialEq, Eq, Structural)]
pub enum GhostOrder {
    /// Move the ghost to where its view is.
    Move { entity: u64, view: usize },
    /// Build the ghost anew from its view.
    Rebuild { entity: u64, view: usize },
    /// Remove the ghost.
    Despawn { entity: u64 },
    /// Remove the label.
    DespawnLabel { entity: u64 },
    /// Build a ghost for the view.
    Spawn { view: usize },
    /// Give the view's ghost a label.
    SpawnLabel { view: usize },
}

/// The first view of a vessel.
pub open spec fn view_of(views: Seq<PeerView>, id: Seq<char>) -> Option<int>
    decreases views.len(),
{
    if views.len() == 0 {
        None
    } else {
        match view_of(views.drop_last(), id) {
            Some(i) => Some(i),
            None => if views.last().vessel_id@ == id {
                Some(views.len() - 1)
            } else {
                None
            },
        }
    }
}

/// The first label of a vessel.
pub open spec fn label_of(labels: Seq<NetGhostLabel>, id: Seq<char>) -> Option<int>
    decreases labels.len(),
{
    if labels.len() == 0 {
        None
    } else {
        match label_of(labels.drop_last(), id) {
            Some(i) => Some(i),
            None => if labels.last().vessel_id@ == id {
                Some(labels.len() - 1)
            } else {
                None
            },
        }
    }
}

/// What is to be done with one ghost: a visible vessel's ghost moves, or is
/// built anew if its record has changed; a vanished vessel's ghost goes, and its
/// label with it.
pub open spec fn ghost_orders(
    g: NetGhost,
    views: Seq<PeerView>,
    labels: Seq<NetGhostLabel>,
) -> Seq<GhostOrder> {
    match view_of(views, g.vessel_id@) {
        Some(i) => if same_number(views[i].stamp, g.stamp) {
            seq![GhostOrder::Move { entity: g.entity, view: i as usize }]
        } else {
            seq![GhostOrder::Rebuild { entity: g.entity, view: i as usize }]
        },
        None => match label_of(labels, g.vessel_id@) {
            Some(j) => seq![
                GhostOrder::Despawn { entity: g.entity },
                GhostOrder::DespawnLabel { entity: labels[j].entity },
            ],
            None => seq![GhostOrder::Despawn { entity: g.entity }],
        },
    }
}

/// What is to be done with all ghosts.
pub open spec fn all_ghost_orders(
    ghosts: Seq<NetGhost>,
    views: Seq<PeerView>,
    labels: Seq<NetGhostLabel>,
) -> Seq<GhostOrder>
    decreases ghosts.len(),
{
    if ghosts.len() == 0 {
        Seq::empty()
    } else {
        all_ghost_orders(ghosts.drop_last(), views, labels) + ghost_orders(
            ghosts.last(),
            views,
            labels,
        )
    }
}

/// Whether a vessel has a ghost already.
pub open spec fn has_ghost(ghosts: Seq<NetGhost>, id: Seq<char>) -> bool {
    exists|i: int| 0 <= i < ghosts.len() && (#[trigger] ghosts[i]).vessel_id@ == id
}

/// What is to be done for one view: a vessel without a ghost gets one, and a
/// label unless it has one.
pub open spec fn view_orders(
    i: int,
    views: Seq<PeerView>,
    ghosts: Seq<NetGhost>,
    labels: Seq<NetGhostLabel>,
) -> Seq<GhostOrder> {
    let id = views[i].vessel_id@;
    if has_ghost(ghosts, id) {
        Seq::empty()
    } else if label_of(labels, id) is Some {
        seq![GhostOrder::Spawn { view: i as usize }]
    } else {
        seq![
            GhostOrder::Spawn { view: i as usize },
            GhostOrder::SpawnLabel { view: i as usize },
        ]
    }
}

/// What is to be done for the first `k` views.
pub open spec fn all_view_orders(
    k: int,
    views: Seq<PeerView>,
    ghosts: Seq<NetGhost>,
    labels: Seq<NetGhostLabel>,
) -> Seq<GhostOrder>
    decreases k,
{
    if k <= 0 {
        Seq::empty()
    } else {
        all_view_orders(k - 1, views, ghosts, labels) + view_orders(k - 1, views, ghosts, labels)
    }
}

/// Finds the first view of a vessel.
fn find_view(views: &Vec<PeerView>, id: &str) -> (r: Option<usize>)
    ensures
        match r {
            Some(i) => view_of(views@, id@) == Some(i as int) && i < views@.len(),
            None => view_of(views@, id@) is None,
        },
{
    let mut found: Option<usize> = None;
    let mut i: usize = 0;
    assert(views@.take(0) =~= Seq::<PeerView>::empty());
    while i < views.len()
        invariant
            i <= views.len(),
            match found {
                Some(k) => view_of(views@.take(i as int), id@) == Some(k as int) && k < i,
                None => view_of(views@.take(i as int), id@) is None,
            },
        decreases views.len() - i,
    {
        assert(views@.take(i + 1).drop_last() =~= views@.take(i as int));
        assert(views@.take(i + 1).last() == views@[i as int]);
        if found.is_none() && same_text(views[i].vessel_id.as_str(), id) {
            found = Some(i);
        }
        i += 1;
    }
    assert(views@.take(i as int) =~= views@);
    found
}

/// Finds the first label of a vessel.
fn find_label(labels: &Vec<NetGhostLabel>, id: &str) -> (r: Option<usize>)
    ensures
        match r {
            Some(i) => label_of(labels@, id@) == Some(i as int) && i < labels@.len(),
            None => label_of(labels@, id@) is None,
        },
{
    let mut found: Option<usize> = None;
    let mut i: usize = 0;
    assert(labels@.take(0) =~= Seq::<NetGhostLabel>::empty());
    while i < labels.len()
        invariant
            i <= labels.len(),
            match found {
                Some(k) => label_of(labels@.take(i as int), id@) == Some(k as int) && k < i,
                None => label_of(labels@.take(i as int), id@) is None,
            },
        decreases labels.len() - i,
    {
        assert(labels@.take(i + 1).drop_last() =~= labels@.take(i as int));
        assert(labels@.take(i + 1).last() == labels@[i as int]);
        if found.is_none() && same_text(labels[i].vessel_id.as_str(), id) {
            found = Some(i);
        }
        i += 1;
    }
    assert(labels@.take(i as int) =~= labels@);
    found
}

/// Whether a vessel has a ghost already.
fn ghost_exists(ghosts: &Vec<NetGhost>, id: &str) -> (r: bool)
    ensures
        r == has_ghost(ghosts@, id@),
{
    let mut i: usize = 0;
    while i < ghosts.len()
        invariant
            i <= ghosts.len(),
            forall|j: int| 0 <= j < i ==> (#[trigger] ghosts@[j]).vessel_id@ != id@,
        decreases ghosts.len() - i,
    {
        if same_text(ghosts[i].vessel_id.as_str(), id) {
            return true;
        }
        i += 1;
    }
    false
}

/// Brings the ghosts in line with the visible peers: what is to be done, in
/// order.
pub fn net_ghosts(
    ghosts: &Vec<NetGhost>,
    views: &Vec<PeerView>,
    labels: &Vec<NetGhostLabel>,
) -> (out: Vec<GhostOrder>)
    ensures
        out@ == all_ghost_orders(ghosts@, views@, labels@) + all_view_orders(
            views@.len() as int,
            views@,
            ghosts@,
            labels@,
        ),
{
    let mut out: Vec<GhostOrder> = Vec::new();
    let mut i: usize = 0;
    assert(ghosts@.take(0) =~= Seq::<NetGhost>::empty());
    while i < ghosts.len()
        invariant
            i <= ghosts.len(),
            out@ == all_ghost_orders(ghosts@.take(i as int), views@, labels@),
        decreases ghosts.len() - i,
    {
        let ghost before = out@;
        let ghost run = ghosts@.take(i + 1);
        assert(run.drop_last() =~= ghosts@.take(i as int));
        assert(run.last() == ghosts@[i as int]);
        let g: &NetGhost = &ghosts[i];
        match find_view(views, g.vessel_id.as_str()) {
            Some(k) => {
                if numbers_equal(views[k].stamp, g.stamp) {
                    out.push(GhostOrder::Move { entity: g.entity, view: k });
                } else {
                    out.push(GhostOrder::Rebuild { entity: g.entity, view: k });
                }
            },
            None => {
                out.push(GhostOrder::Despawn { entity: g.entity });
                if let Some(j) = find_label(labels, g.vessel_id.as_str()) {
                    out.push(GhostOrder::DespawnLabel { entity: labels[j].entity });
                }
            },
        }
        assert(out@ =~= before + ghost_orders(*g, views@, labels@));
        i += 1;
    }
    assert(ghosts@.take(i as int) =~= ghosts@);
    let ghost first = out@;
    let mut k: usize = 0;
    assert(out@ =~= first + all_view_orders(0, views@, ghosts@, labels@));
    while k < views.len()
        invariant
            k <= views.len(),
            out@ == first + all_view_orders(k as int, views@, ghosts@, labels@),
        decreases views.len() - k,
    {
        let id: &str = views[k].vessel_id.as_str();
        if !ghost_exists(ghosts, id) {
            out.push(GhostOrder::Spawn { view: k });
            if find_label(labels, id).is_none() {
                out.push(GhostOrder::SpawnLabel { view: k });
            }
        }
        assert(out@ =~= first + all_view_orders(k + 1, views@, ghosts@, labels@));
        k += 1;
    }
    out
}

/// Whether an order shows a view: its ghost is moved, built anew, or built.
pub open spec fn shows_view(o: GhostOrder, view: usize) -> bool {
    match o {
        GhostOrder::Move { entity, view: v } => v == view,
        GhostOrder::Rebuild { entity, view: v } => v == view,
        GhostOrder::Spawn { view: v } => v == view,
        _ => false,
    }
}

/// Whether every vessel is visible at most once.
pub open spec fn vessels_once(views: Seq<PeerView>) -> bool {
    forall|i: int, j: int|
        0 <= i < j < views.len() ==> (#[trigger] views[i]).vessel_id@ != (
        #[trigger] views[j]).vessel_id@
}

/// The first view of a vessel that is visible is found.
proof fn lemma_view_is_found(views: Seq<PeerView>, k: int)
    requires
        0 <= k < views.len(),
        vessels_once(views),
    ensures
        view_of(views, views[k].vessel_id@) == Some(k),
    decreases views.len(),
{
    let front = views.drop_last();
    let id = views[k].vessel_id@;
    if k < front.len() {
        assert(front[k] == views[k]);
        lemma_view_is_found(front, k);
    } else {
        lemma_view_is_absent(front, id);
    }
}

proof fn lemma_view_is_absent(views: Seq<PeerView>, id: Seq<char>)
    requires
        forall|i: int| 0 <= i < views.len() ==> (#[trigger] views[i]).vessel_id@ != id,
    ensures
        view_of(views, id) is None,
    decreases views.len(),
{
    if views.len() > 0 {
        let front = views.drop_last();
        assert forall|i: int| 0 <= i < front.len() implies (#[trigger] front[i]).vessel_id@ != id by {
            assert(front[i] == views[i]);
        }
        lemma_view_is_absent(front, id);
        assert(views[views.len() - 1].vessel_id@ != id);
    }
}

/// After a frame every visible peer is shown: its ghost is moved, built anew, or
/// built.
pub proof fn lemma_every_peer_is_shown(
    ghosts: Seq<NetGhost>,
    views: Seq<PeerView>,
    labels: Seq<NetGhostLabel>,
    k: int,
)
    requires
        0 <= k < views.len() <= usize::MAX,
        vessels_once(views),
    ensures
        ({
            let out = all_ghost_orders(ghosts, views, labels) + all_view_orders(
                views.len() as int,
                views,
                ghosts,
                labels,
            );
            exists|i: int| 0 <= i < out.len() && shows_view(#[trigger] out[i], k as usize)
        }),
{
    let a = all_ghost_orders(ghosts, views, labels);
    let b = all_view_orders(views.len() as int, views, ghosts, labels);
    let out = a + b;
    let id = views[k].vessel_id@;
    if has_ghost(ghosts, id) {
        let g = choose|g: int| 0 <= g < ghosts.len() && (#[trigger] ghosts[g]).vessel_id@ == id;
        lemma_view_is_found(views, k);
        lemma_ghost_is_ordered(ghosts, views, labels, g, k);
        let i = choose|i: int| 0 <= i < a.len() && shows_view(#[trigger] a[i], k as usize);
        assert(out[i] == a[i]);
    } else {
        lemma_view_is_ordered(views.len() as int, views, ghosts, labels, k);
        let i = choose|i: int| 0 <= i < b.len() && shows_view(#[trigger] b[i], k as usize);
        assert(out[a.len() + i] == b[i]);
    }
}

proof fn lemma_ghost_is_ordered(
    ghosts: Seq<NetGhost>,
    views: Seq<PeerView>,
    labels: Seq<NetGhostLabel>,
    g: int,
    k: int,
)
    requires
        0 <= g < ghosts.len(),
        0 <= k < views.len() <= usize::MAX,
        view_of(views, ghosts[g].vessel_id@) == Some(k),
    ensures
        ({
            let a = all_ghost_orders(ghosts, views, labels);
            exists|i: int| 0 <= i < a.len() && shows_view(#[trigger] a[i], k as usize)
        }),
    decreases ghosts.len(),
{
    let front = all_ghost_orders(ghosts.drop_last(), views, labels);
    let a = all_ghost_orders(ghosts, views, labels);
    if g < ghosts.len() - 1 {
        lemma_ghost_is_ordered(ghosts.drop_last(), views, labels, g, k);
        let i = choose|i: int| 0 <= i < front.len() && shows_view(#[trigger] front[i], k as usize);
        assert(a[i] == front[i]);
    } else {
        assert(shows_view(a[front.len() as int], k as usize));
    }
}

proof fn lemma_view_is_ordered(
    n: int,
    views: Seq<PeerView>,
    ghosts: Seq<NetGhost>,
    labels: Seq<NetGhostLabel>,
    k: int,
)
    requires
        0 <= k < n <= views.len() <= usize::MAX,
        !has_ghost(ghosts, views[k].vessel_id@),
    ensures
        ({
            let b = all_view_orders(n, views, ghosts, labels);
            exists|i: int| 0 <= i < b.len() && shows_view(#[trigger] b[i], k as usize)
        }),
    decreases n,
{
    let front = all_view_orders(n - 1, views, ghosts, labels);
    let b = all_view_orders(n, views, ghosts, labels);
    if k < n - 1 {
        lemma_view_is_ordered(n - 1, views, ghosts, labels, k);
        let i = choose|i: int| 0 <= i < front.len() && shows_view(#[trigger] front[i], k as usize);
        assert(b[i] == front[i]);
    } else {
        assert(shows_view(b[front.len() as int], k as usize));
    }
}

/// The text of a ghost's label: name, player, and whether it is flying (and how
/// many seconds ago it was last seen) or parked. The age is in millionths of a
/// second.
pub open spec fn label_line(name: Seq<char>, owner: Seq<char>, live: bool, stale: int) -> Seq<char> {
    name + " · "@ + owner + " · "@ + (if live {
        "flying · last seen t+"@ + shown(stale, (Field { width: 0, digits: 0, plus: false })) + "s"@
    } else {
        "parked"@
    })
}

/// The text of a ghost's label.
pub fn label_text(name: &str, owner: &str, live: bool, stale: i64) -> (s: String)
    ensures
        s@ == label_line(name@, owner@, live, stale as int),
{
    let mut s: String = name.to_owned();
    s.append(" · ");
    s.append(owner);
    s.append(" · ");
    if live {
        let ghost head = s@;
        s.append("flying · last seen t+");
        show(&mut s, stale, field(0, 0));
        s.append("s");
        assert(s@ =~= head + ("flying · last seen t+"@ + shown(
            stale as int,
            (Field { width: 0, digits: 0, plus: false }),
        ) + "s"@));
    } else {
        s.append("parked");
    }
    s
}

/// The first ghost of a vessel.
pub open spec fn ghost_of(ghosts: Seq<NetGhost>, id: Seq<char>) -> Option<int>
    decreases ghosts.len(),
{
    if ghosts.len() == 0 {
        None
    } else {
        match ghost_of(ghosts.drop_last(), id) {
            Some(i) => Some(i),
            None => if ghosts.last().vessel_id@ == id {
                Some(ghosts.len() - 1)
            } else {
                None
            },
        }
    }
}

/// What a label hangs on: its vessel's ghost, and the view that it tells of.
#[derive(Clone, Copy, Debug, PartialEq, Eq, Structural)]
pub struct LabelAnchor {
    pub body: usize,
    pub view: usize,
}

/// What a label hangs on; one whose vessel has no view or no ghost is hidden.
pub open spec fn anchor_of(
    id: Seq<char>,
    ghosts: Seq<NetGhost>,
    views: Seq<PeerView>,
) -> Option<(int, int)> {
    match (ghost_of(ghosts, id), view_of(views, id)) {
        (Some(g), Some(v)) => Some((g, v)),
        _ => None,
    }
}

/// What each label hangs on; a label without an anchor, or one whose ghost is off
/// the screen, is hidden.
pub fn net_labels(
    labels: &Vec<NetGhostLabel>,
    ghosts: &Vec<NetGhost>,
    views: &Vec<PeerView>,
) -> (out: Vec<Option<LabelAnchor>>)
    ensures
        out@.len() == labels@.len(),
        forall|i: int|
            0 <= i < out@.len() ==> match #[trigger] out@[i] {
                Some(a) => anchor_of(labels@[i].vessel_id@, ghosts@, views@) == Some(
                    (a.body as int, a.view as int),
                ),
                None => anchor_of(labels@[i].vessel_id@, ghosts@, views@) is None,
            },
{
    let mut out: Vec<Option<LabelAnchor>> = Vec::new();
    let mut i: usize = 0;
    while i < labels.len()
        invariant
            i <= labels@.len(),
            out@.len() == i,
            forall|k: int|
                0 <= k < i ==> match #[trigger] out@[k] {
                    Some(a) => anchor_of(labels@[k].vessel_id@, ghosts@, views@) == Some(
                        (a.body as int, a.view as int),
                    ),
                    None => anchor_of(labels@[k].vessel_id@, ghosts@, views@) is None,
                },
        decreases labels.len() - i,
    {
        let id: &str = labels[i].vessel_id.as_str();
        let view: Option<usize> = find_view(views, id);
        let ghost_at: Option<usize> = find_ghost(ghosts, id);
        match (ghost_at, view) {
            (Some(g), Some(v)) => {
                out.push(Some(LabelAnchor { body: g, view: v }));
            },
            _ => {
                out.push(None);
            },
        }
        i += 1;
    }
    out
}

/// Finds the first ghost of a vessel.
fn find_ghost(ghosts: &Vec<NetGhost>, id: &str) -> (r: Option<usize>)
    ensures
        match r {
            Some(i) => ghost_of(ghosts@, id@) == Some(i as int) && i < ghosts@.len(),
            None => ghost_of(ghosts@, id@) is None,
        },
{
    let mut found: Option<usize> = None;
    let mut i: usize = 0;
    assert(ghosts@.take(0) =~= Seq::<NetGhost>::empty());
    while i < ghosts.len()
        invariant
            i <= ghosts@.len(),
            match found {
                Some(k) => ghost_of(ghosts@.take(i as int), id@) == Some(k as int) && k < i,
                None => ghost_of(ghosts@.take(i as int), id@) is None,
            },
        decreases ghosts.len() - i,
    {
        assert(ghosts@.take(i + 1).drop_last() =~= ghosts@.take(i as int));
        if found.is_none() && same_text(ghosts[i].vessel_id.as_str(), id) {
            found = Some(i);
        }
        i += 1;
    }
    assert(ghosts@.take(i as int) =~= ghosts@);
    found
}

/// A label that is shown hangs on a ghost and a view of its own vessel.
pub proof fn lemma_labels_hang_on_their_own(
    id: Seq<char>,
    ghosts: Seq<NetGhost>,
    views: Seq<PeerView>,
)
    ensures
        anchor_of(id, ghosts, views) matches Some(a) ==> {
            &&& 0 <= a.0 < ghosts.len()
            &&& 0 <= a.1 < views.len()
            &&& ghosts[a.0].vessel_id@ == id
            &&& views[a.1].vessel_id@ == id
        },
{
    lemma_ghost_of(ghosts, id);
    lemma_view_of(views, id);
}

proof fn lemma_ghost_of(ghosts: Seq<NetGhost>, id: Seq<char>)
    ensures
        ghost_of(ghosts, id) matches Some(i) ==> 0 <= i < ghosts.len() && ghosts[i].vessel_id@
            == id,
    decreases ghosts.len(),
{
    if ghosts.len() > 0 {
        lemma_ghost_of(ghosts.drop_last(), id);
    }
}

proof fn lemma_view_of(views: Seq<PeerView>, id: Seq<char>)
    ensures
        view_of(views, id) matches Some(i) ==> 0 <= i < views.len() && views[i].vessel_id@ == id,
    decreases views.len(),
{
    if views.len() > 0 {
        lemma_view_of(views.drop_last(), id);
    }
}

/// A frame publishes exactly when the phase has changed to one other than building,
/// and at most once. What it publishes is live in launch and in flight and parked in
/// recovery; it carries a fate exactly when a recovery has just begun with a crash.
pub proof fn lemma_only_a_crash_is_published_as_destroyed(
    link: NetLink,
    phase: Phase,
    outcome: Outcome,
    rate: u64,
    elapsed: u64,
)
    ensures
        ({
            let out = reported(link, phase, outcome, rate, elapsed);
            &&& forall|i: int|
                0 <= i < out.len() ==> match #[trigger] out[i] {
                    SyncCommand::Publish { live, fate } => {
                        &&& i == 0
                        &&& phase != link.last_phase
                        &&& live <==> (phase == Phase::Launch || phase == Phase::Flight)
                        &&& fate is Some <==> (phase == Phase::Recovery && outcome
                            == Outcome::Crashed)
                    },
                    SyncCommand::Anchor { .. } => true,
                    _ => false,
                }
            &&& phase != link.last_phase && phase != Phase::Build ==> out.len() > 0
                && out[0] is Publish
        }),
{
}

/// A frame reports an anchor, as its last command, exactly when the rate of time has
/// changed, and the anchor gives the time and the new rate. While the simulation is
/// paused the rate is zero, and otherwise it is the warp.
pub proof fn lemma_anchor_follows_the_rate(
    link: NetLink,
    phase: Phase,
    outcome: Outcome,
    paused: bool,
    warp: u64,
    elapsed: u64,
)
    ensures
        ({
            let rate = if paused {
                0u64
            } else {
                warp
            };
            let out = reported(link, phase, outcome, rate_of(paused, warp), elapsed);
            &&& forall|i: int|
                0 <= i < out.len() ==> ((#[trigger] out[i]) matches SyncCommand::Anchor {
                    universe_time,
                    rate: told,
                } ==> i == out.len() - 1 && universe_time == elapsed && told == rate
                    && !same_number(rate, link.last_rate))
            &&& !same_number(rate, link.last_rate) ==> out.len() > 0 && out.last() is Anchor
        }),
{
}

/// Two numbers compare as equal exactly when they are equal patterns or both zeros,
/// and no pattern above infinity, which is no number, is equal to anything.
pub proof fn lemma_numbers_compare_by_value(a: u64, b: u64)
    ensures
        same_number(a, b) == same_number(b, a),
        a <= 0x7ff0_0000_0000_0000 ==> same_number(a, a),
        0x7ff0_0000_0000_0000 < a < 0x8000_0000_0000_0000 ==> !same_number(a, b),
        a > 0xfff0_0000_0000_0000 ==> !same_number(a, b),
        same_number(0, 0x8000_0000_0000_0000),
        a != b && a != 0 && a != 0x8000_0000_0000_0000 ==> !same_number(a, b),
{
}

/// A spawn marks its vessel as one's own before it publishes it, tells the time, and
/// publishes the craft once, parked and whole. It starts the worker only the first
/// time, and opens a new session every other time.
pub proof fn lemma_a_spawn_publishes_the_parked_craft(
    again: bool,
    paused: bool,
    warp: u64,
    elapsed: u64,
)
    ensures
        ({
            let out = opened(again, paused, warp, elapsed);
            &&& out.len() == 4
            &&& (out[0] is Start) == !again
            &&& (out[0] is NewSession) == again
            &&& out[1] is MarkOwn
            &&& out[2] matches SyncCommand::Anchor { universe_time, rate } && universe_time
                == elapsed && (paused ==> rate == 0) && (!paused ==> rate == warp)
            &&& out[3] matches SyncCommand::Publish { live, fate } && !live && fate is None
        }),
{
}

/// A record is its flight's: of the vessel and the player that it is made for, at the
/// flight's place and time, and with the flight's craft.
pub proof fn lemma_records_are_their_flights_own(
    r: VesselRecord,
    flight: FlightParts<'_>,
    vessel_id: Seq<char>,
    player: Seq<char>,
    live: bool,
    fate: Option<Fate>,
)
    requires
        records(r, flight, vessel_id, player, live, fate),
    ensures
        r.vessel_id@ == vessel_id && r.structure.vessel_id->0@ == vessel_id,
        r.owner@ == player,
        r.live == live,
        r.fate == fate,
        r.stamp == flight.elapsed,
        r.position == flight.position && r.structure.position == r.position,
        r.name@ == flight.scenario_name@ && r.structure.name@ == r.name@,
        r.structure.id@ == flight.scenario_id@,
        r.structure.craft@ == flight.voxels@,
{
}

/// What the telemetry tells of a peer is the peer's own.
pub proof fn lemma_telemetry_tells_the_peer(t: PeerTelemetry, p: PeerView)
    requires
        tells(t, p),
    ensures
        t.vessel_id@ == p.vessel_id@ && t.name@ == p.name@ && t.player@ == p.owner@,
        t.live == p.live && t.stamp == p.stamp && t.stale == p.stale,
{
}

/// A ghost whose vessel is visible is moved to a view of that vessel while its record
/// is the one it was built from, and built anew from it once the record differs. A
/// ghost whose vessel is gone is removed, and with it a label of that vessel if there
/// is one. Every order is about this ghost.
pub proof fn lemma_ghosts_follow_their_vessels(
    g: NetGhost,
    views: Seq<PeerView>,
    labels: Seq<NetGhostLabel>,
)
    requires
        views.len() <= usize::MAX,
    ensures
        ({
            let out = ghost_orders(g, views, labels);
            let visible = exists|i: int|
                0 <= i < views.len() && (#[trigger] views[i]).vessel_id@ == g.vessel_id@;
            let labelled = exists|i: int|
                0 <= i < labels.len() && (#[trigger] labels[i]).vessel_id@ == g.vessel_id@;
            &&& visible ==> out.len() == 1 && match out[0] {
                GhostOrder::Move { entity, view } => entity == g.entity && view < views.len()
                    && views[view as int].vessel_id@ == g.vessel_id@ && same_number(
                    views[view as int].stamp,
                    g.stamp,
                ),
                GhostOrder::Rebuild { entity, view } => entity == g.entity && view < views.len()
                    && views[view as int].vessel_id@ == g.vessel_id@ && !same_number(
                    views[view as int].stamp,
                    g.stamp,
                ),
                _ => false,
            }
            &&& !visible ==> out.len() == (if labelled {
                2int
            } else {
                1
            }) && out[0] == (GhostOrder::Despawn { entity: g.entity })
            &&& !visible && labelled ==> (out[1] matches GhostOrder::DespawnLabel { entity }
                && exists|i: int|
                0 <= i < labels.len() && (#[trigger] labels[i]).vessel_id@ == g.vessel_id@
                    && labels[i].entity == entity)
        }),
{
    lemma_view_of(views, g.vessel_id@);
    lemma_label_of(labels, g.vessel_id@);
    if view_of(views, g.vessel_id@) is None {
        lemma_view_of_all(views, g.vessel_id@);
    }
}

proof fn lemma_view_of_all(views: Seq<PeerView>, id: Seq<char>)
    ensures
        view_of(views, id) is None ==> forall|i: int|
            0 <= i < views.len() ==> (#[trigger] views[i]).vessel_id@ != id,
    decreases views.len(),
{
    if views.len() > 0 {
        let front = views.drop_last();
        lemma_view_of_all(front, id);
        assert(forall|i: int| 0 <= i < front.len() ==> #[trigger] views[i] == front[i]);
    }
}

proof fn lemma_label_of(labels: Seq<NetGhostLabel>, id: Seq<char>)
    ensures
        label_of(labels, id) matches Some(i) ==> 0 <= i < labels.len() && labels[i].vessel_id@
            == id,
        label_of(labels, id) is None ==> forall|i: int|
            0 <= i < labels.len() ==> (#[trigger] labels[i]).vessel_id@ != id,
    decreases labels.len(),
{
    if labels.len() > 0 {
        let front = labels.drop_last();
        lemma_label_of(front, id);
        assert(forall|i: int| 0 <= i < front.len() ==> #[trigger] labels[i] == front[i]);
    }
}

/// A visible vessel gets a new ghost exactly when it has none, and a new label with it
/// exactly when it has none of those either.
pub proof fn lemma_new_peers_get_a_ghost_and_a_label(
    i: int,
    views: Seq<PeerView>,
    ghosts: Seq<NetGhost>,
    labels: Seq<NetGhostLabel>,
)
    requires
        0 <= i < views.len() <= usize::MAX,
    ensures
        ({
            let out = view_orders(i, views, ghosts, labels);
            let known = exists|j: int|
                0 <= j < ghosts.len() && (#[trigger] ghosts[j]).vessel_id@ == views[i].vessel_id@;
            let labelled = exists|j: int|
                0 <= j < labels.len() && (#[trigger] labels[j]).vessel_id@ == views[i].vessel_id@;
            &&& known ==> out.len() == 0
            &&& !known ==> out.len() == (if labelled {
                1int
            } else {
                2
            }) && out[0] == (GhostOrder::Spawn { view: i as usize })
            &&& !known && !labelled ==> out[1] == (GhostOrder::SpawnLabel { view: i as usize })
        }),
{
    lemma_label_of(labels, views[i].vessel_id@);
}

/// Every ghost of a vessel that is no longer visible is removed.
pub proof fn lemma_vanished_peers_are_removed(
    ghosts: Seq<NetGhost>,
    views: Seq<PeerView>,
    labels: Seq<NetGhostLabel>,
    g: int,
)
    requires
        0 <= g < ghosts.len(),
        forall|i: int|
            0 <= i < views.len() ==> (#[trigger] views[i]).vessel_id@ != ghosts[g].vessel_id@,
    ensures
        all_ghost_orders(ghosts, views, labels).contains(
            GhostOrder::Despawn { entity: ghosts[g].entity },
        ),
    decreases ghosts.len(),
{
    let front = all_ghost_orders(ghosts.drop_last(), views, labels);
    let all = all_ghost_orders(ghosts, views, labels);
    let gone = GhostOrder::Despawn { entity: ghosts[g].entity };
    if g < ghosts.len() - 1 {
        lemma_vanished_peers_are_removed(ghosts.drop_last(), views, labels, g);
        let i = choose|i: int| 0 <= i < front.len() && front[i] == gone;
        assert(all[i] == gone);
    } else {
        lemma_view_of(views, ghosts[g].vessel_id@);
        assert(all[front.len() as int] == gone);
    }
}

/// Only ghosts of vessels that are no longer visible are removed.
pub proof fn lemma_visible_peers_keep_their_ghosts(
    ghosts: Seq<NetGhost>,
    views: Seq<PeerView>,
    labels: Seq<NetGhostLabel>,
    entity: u64,
)
    requires
        all_ghost_orders(ghosts, views, labels).contains(GhostOrder::Despawn { entity }),
    ensures
        exists|g: int|
            0 <= g < ghosts.len() && (#[trigger] ghosts[g]).entity == entity && forall|i: int|
                0 <= i < views.len() ==> (#[trigger] views[i]).vessel_id@ != ghosts[g].vessel_id@,
    decreases ghosts.len(),
{
    let gone = GhostOrder::Despawn { entity };
    let all = all_ghost_orders(ghosts, views, labels);
    let i = choose|i: int| 0 <= i < all.len() && all[i] == gone;
    let front = all_ghost_orders(ghosts.drop_last(), views, labels);
    if i < front.len() {
        assert(front[i] == gone);
        lemma_visible_peers_keep_their_ghosts(ghosts.drop_last(), views, labels, entity);
        let g = choose|g: int|
            0 <= g < ghosts.drop_last().len() && (#[trigger] ghosts.drop_last()[g]).entity == entity
                && forall|i: int|
                0 <= i < views.len() ==> (#[trigger] views[i]).vessel_id@
                    != ghosts.drop_last()[g].vessel_id@;
        assert(ghosts[g].entity == entity);
    } else {
        lemma_view_of_all(views, ghosts.last().vessel_id@);
        assert(ghosts[ghosts.len() - 1].entity == entity);
    }
}

/// A label is shown exactly when its vessel has both a ghost and a view.
pub proof fn lemma_labels_show_while_there_is_something_to_hang_on(
    id: Seq<char>,
    ghosts: Seq<NetGhost>,
    views: Seq<PeerView>,
)
    ensures
        anchor_of(id, ghosts, views) is Some <==> (exists|i: int|
            0 <= i < ghosts.len() && (#[trigger] ghosts[i]).vessel_id@ == id) && (exists|i: int|
            0 <= i < views.len() && (#[trigger] views[i]).vessel_id@ == id),
{
    lemma_labels_hang_on_their_own(id, ghosts, views);
    lemma_ghost_of(ghosts, id);
    lemma_view_of(views, id);
    lemma_view_of_all(views, id);
    lemma_ghost_of_all(ghosts, id);
}

proof fn lemma_ghost_of_all(ghosts: Seq<NetGhost>, id: Seq<char>)
    ensures
        ghost_of(ghosts, id) is None ==> forall|i: int|
            0 <= i < ghosts.len() ==> (#[trigger] ghosts[i]).vessel_id@ != id,
    decreases ghosts.len(),
{
    if ghosts.len() > 0 {
        let front = ghosts.drop_last();
        lemma_ghost_of_all(front, id);
        assert(forall|i: int| 0 <= i < front.len() ==> #[trigger] ghosts[i] == front[i]);
    }
}

/// A label begins with the vessel's name and then its owner; only that of a flying
/// vessel says how long ago it was seen, so that of a parked one never changes.
pub proof fn lemma_labels_tell_flying_from_parked(
    name: Seq<char>,
    owner: Seq<char>,
    live: bool,
    stale: int,
    later: int,
)
    ensures
        name.is_prefix_of(label_line(name, owner, live, stale)),
        (name + " · "@ + owner).is_prefix_of(label_line(name, owner, live, stale)),
        label_line(name, owner, false, stale) == label_line(name, owner, false, later),
        label_line(name, owner, false, stale) == name + " · "@ + owner + " · parked"@,
        label_line(name, owner, true, stale) == name + " · "@ + owner
            + " · flying · last seen t+"@ + shown(
            stale,
            (Field { width: 0, digits: 0, plus: false }),
        ) + "s"@,
{
    reveal_strlit(" · ");
    reveal_strlit("parked");
    reveal_strlit(" · parked");
    reveal_strlit("flying · last seen t+");
    reveal_strlit(" · flying · last seen t+");
    let head = name + " · "@ + owner;
    assert(" · parked"@ =~= " · "@ + "parked"@);
    assert(" · flying · last seen t+"@ =~= " · "@ + "flying · last seen t+"@);
    let line = label_line(name, owner, live, stale);
    assert(line.subrange(0, name.len() as int) =~= name);
    assert(line.subrange(0, head.len() as int) =~= head);
    assert(label_line(name, owner, false, stale) =~= head + " · parked"@);
    let age = shown(stale, (Field { width: 0, digits: 0, plus: false }));
    assert(label_line(name, owner, true, stale) =~= head + " · flying · last seen t+"@ + age
        + "s"@);
}

} // verus!
