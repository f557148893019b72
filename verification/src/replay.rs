//! The replay cam: record the poses of tagged entities for the last few seconds
//! into a bounded ring, then freeze the simulation and scrub them back.
//!
//! Keyboard and bus drive the cam through one command envelope. Entering
//! playback pauses the simulation and leaving it resumes.

use crate::input::KeyCode;
use crate::input::Keyboard;
use std::collections::VecDeque;
use vstd::prelude::*;

verus! {

/// Recorded frames retained (four seconds at sixty frames a second).
pub const REPLAY_CAP: usize = 240;

/// Where an entity stands: translation, rotation and scale, each component as
/// the bit pattern of its single-precision value.
#[derive(Clone, Copy, Debug, PartialEq, Eq)]
pub struct Pose {
    pub translation: (u32, u32, u32),
    pub rotation: (u32, u32, u32, u32),
    pub scale: (u32, u32, u32),
}

/// One recorded frame: each tagged entity with its pose.
pub type ReplayFrame = Vec<(u64, Pose)>;

/// Whether the replay cam is recording live or scrubbing recorded frames.
#[derive(Clone, Copy, Debug, PartialEq, Eq, Structural)]
pub enum ReplayMode {
    Live,
    Playback,
}

/// The replay ring and its scrub cursor.
pub struct ReplayCam {
    frames: VecDeque<ReplayFrame>,
    mode: ReplayMode,
    cursor: usize,
}

/// What the cam holds.
#[verifier::ext_equal]
pub struct CamState {
    /// The recorded frames, oldest first.
    pub frames: Seq<Seq<(u64, Pose)>>,
    pub mode: ReplayMode,
    pub cursor: int,
}

/// A replay control action.
#[derive(Clone, Copy, Debug, PartialEq, Eq, Structural)]
pub enum ReplayCommand {
    /// Enter playback at the latest frame and pause the simulation.
    Enter,
    /// Leave playback and resume the simulation.
    Exit,
    /// Toggle playback.
    Toggle,
    /// Scrub by a number of frames (negative is back).
    Scrub(i32),
    /// Seek to a share of the recorded window, in millionths.
    Seek(i32),
}

/// `x` brought into `0..=last`.
pub open spec fn clamped(x: int, last: int) -> int {
    if x < 0 {
        0
    } else if x > last {
        last
    } else {
        x
    }
}

/// A share of a window, in millionths, as the nearest frame (a half up).
pub open spec fn share_of_window(f: int, last: int) -> int {
    (2 * (clamped(f, 1_000_000) * last) + 1_000_000) / 2_000_000
}

impl CamState {
    /// A cam that has recorded nothing.
    pub open spec fn fresh() -> CamState {
        CamState { frames: Seq::empty(), mode: ReplayMode::Live, cursor: 0 }
    }

    /// The ring is within its bound, and the cursor is on a frame: in playback
    /// there is one, and a cam without frames has its cursor at the start.
    pub open spec fn wf(self) -> bool {
        &&& self.frames.len() <= REPLAY_CAP
        &&& 0 <= self.cursor
        &&& self.cursor < self.frames.len() || self.cursor == 0
        &&& self.mode == ReplayMode::Playback ==> self.cursor < self.frames.len()
    }

    /// One more frame, the oldest dropping out of a full ring; in playback the
    /// recording rests.
    pub open spec fn recording(self, frame: Seq<(u64, Pose)>) -> CamState {
        if self.mode == ReplayMode::Playback {
            self
        } else {
            CamState {
                frames: (if self.frames.len() == REPLAY_CAP {
                    self.frames.skip(1)
                } else {
                    self.frames
                }).push(frame),
                ..self
            }
        }
    }

    /// Playback at the most recent frame, if there is one.
    pub open spec fn entering(self) -> CamState {
        if self.frames.len() == 0 {
            self
        } else {
            CamState { mode: ReplayMode::Playback, cursor: self.frames.len() - 1, ..self }
        }
    }

    /// Back to live recording.
    pub open spec fn leaving(self) -> CamState {
        CamState { mode: ReplayMode::Live, ..self }
    }

    /// The cursor moved to `to`, kept within the recorded range.
    pub open spec fn moving(self, to: int) -> CamState {
        if self.frames.len() == 0 {
            self
        } else {
            CamState { cursor: clamped(to, self.frames.len() - 1), ..self }
        }
    }

    /// What a command does.
    pub open spec fn obeying(self, cmd: ReplayCommand) -> CamState {
        match cmd {
            ReplayCommand::Enter => self.entering(),
            ReplayCommand::Exit => self.leaving(),
            ReplayCommand::Toggle => if self.mode == ReplayMode::Playback {
                self.leaving()
            } else {
                self.entering()
            },
            ReplayCommand::Scrub(d) => self.moving(self.cursor + d),
            ReplayCommand::Seek(f) => self.moving(share_of_window(f as int, self.frames.len() - 1)),
        }
    }

    /// What a run of commands does.
    pub open spec fn obeying_all(self, cmds: Seq<ReplayCommand>) -> CamState
        decreases cmds.len(),
    {
        if cmds.len() == 0 {
            self
        } else {
            self.obeying_all(cmds.drop_last()).obeying(cmds.last())
        }
    }
}

/// The pause requests that a change of mode sends: pause on entering playback,
/// resume on leaving it.
pub open spec fn pause_on_edge(before: ReplayMode, after: ReplayMode) -> Seq<bool> {
    if before == after {
        Seq::empty()
    } else {
        seq![after == ReplayMode::Playback]
    }
}

/// The pause requests that a run of commands sends, in order.
pub open spec fn pauses(s: CamState, cmds: Seq<ReplayCommand>) -> Seq<bool>
    decreases cmds.len(),
{
    if cmds.len() == 0 {
        Seq::empty()
    } else {
        pauses(s, cmds.drop_last()) + pause_on_edge(
            s.obeying_all(cmds.drop_last()).mode,
            s.obeying_all(cmds).mode,
        )
    }
}

impl View for ReplayCam {
    type V = CamState;

    closed spec fn view(&self) -> CamState {
        CamState {
            frames: Seq::new(self.frames@.len(), |i: int| self.frames@[i]@),
            mode: self.mode,
            cursor: self.cursor as int,
        }
    }
}

impl Default for ReplayCam {
    fn default() -> (c: ReplayCam)
        ensures
            c@ == CamState::fresh(),
            c@.wf(),
    {
        let c = ReplayCam { frames: VecDeque::new(), mode: ReplayMode::Live, cursor: 0 };
        assert(c@ =~= CamState::fresh());
        c
    }
}

impl ReplayCam {
    /// Whether recorded frames are being shown.
    pub fn is_playback(&self) -> (b: bool)
        ensures
            b == (self@.mode == ReplayMode::Playback),
    {
        self.mode == ReplayMode::Playback
    }

    /// How many frames are recorded.
    pub fn len(&self) -> (n: usize)
        ensures
            n == self@.frames.len(),
    {
        self.frames.len()
    }

    /// The frame the cursor is on.
    pub fn cursor(&self) -> (i: usize)
        ensures
            i == self@.cursor,
    {
        self.cursor
    }

    /// Records one frame while live, dropping the oldest past capacity.
    pub fn record(&mut self, frame: ReplayFrame)
        requires
            old(self)@.frames.len() <= REPLAY_CAP,
        ensures
            final(self)@ == old(self)@.recording(frame@),
            old(self)@.wf() ==> final(self)@.wf(),
    {
        if self.is_playback() {
            return;
        }
        let ghost before = self@;
        let ghost f = frame@;
        if self.frames.len() == REPLAY_CAP {
            self.frames.pop_front();
        }
        self.frames.push_back(frame);
        assert(self@.frames =~= before.recording(f).frames);
    }

    /// Enters playback at the most recent frame; nothing happens if nothing is
    /// recorded.
    pub fn enter(&mut self)
        ensures
            final(self)@ == old(self)@.entering(),
            old(self)@.wf() ==> final(self)@.wf(),
    {
        let ghost before = self@;
        if self.frames.len() > 0 {
            self.mode = ReplayMode::Playback;
            self.cursor = self.frames.len() - 1;
        }
        assert(self@ =~= before.entering());
    }

    /// Leaves playback, resuming live recording.
    pub fn exit(&mut self)
        ensures
            final(self)@ == old(self)@.leaving(),
            old(self)@.wf() ==> final(self)@.wf(),
    {
        let ghost before = self@;
        self.mode = ReplayMode::Live;
        assert(self@ =~= before.leaving());
    }

    /// Moves the cursor by `delta` frames, clamped to the recorded range.
    pub fn scrub(&mut self, delta: i32)
        ensures
            final(self)@ == old(self)@.moving(old(self)@.cursor + delta),
            old(self)@.wf() ==> final(self)@.wf(),
    {
        let ghost before = self@;
        let n: usize = self.frames.len();
        if n > 0 {
            let last: usize = n - 1;
            let to: i128 = self.cursor as i128 + delta as i128;
            self.cursor = if to < 0 {
                0
            } else if to > last as i128 {
                last
            } else {
                to as usize
            };
        }
        assert(self@ =~= before.moving(before.cursor + delta));
    }

    /// Moves the cursor to a share of the recorded window, in millionths.
    pub fn seek_fraction(&mut self, f: i32)
        ensures
            final(self)@ == old(self)@.moving(
                share_of_window(f as int, old(self)@.frames.len() - 1),
            ),
            old(self)@.wf() ==> final(self)@.wf(),
    {
        let ghost before = self@;
        let n: usize = self.frames.len();
        if n > 0 {
            let last: u128 = (n - 1) as u128;
            let share: u128 = if f < 0 {
                0
            } else if f > 1_000_000 {
                1_000_000
            } else {
                f as u128
            };
            assert(0 <= share * last <= 1_000_000 * last) by (nonlinear_arith)
                requires
                    0 <= share <= 1_000_000,
                    0 <= last,
            ;
            let to: u128 = (2 * (share * last) + 1_000_000) / 2_000_000;
            self.cursor = to as usize;
        }
        assert(self@ =~= before.moving(
            share_of_window(f as int, before.frames.len() - 1),
        ));
    }

    /// The frame under the cursor.
    pub fn current(&self) -> (f: Option<&ReplayFrame>)
        ensures
            match f {
                Some(frame) => self@.cursor < self@.frames.len() && frame@ == self@.frames[self@.cursor],
                None => self@.cursor >= self@.frames.len(),
            },
    {
        if self.cursor < self.frames.len() {
            Some(&self.frames[self.cursor])
        } else {
            None
        }
    }

    /// Carries one command out.
    fn obey(&mut self, cmd: ReplayCommand)
        ensures
            final(self)@ == old(self)@.obeying(cmd),
            old(self)@.wf() ==> final(self)@.wf(),
    {
        match cmd {
            ReplayCommand::Enter => self.enter(),
            ReplayCommand::Exit => self.exit(),
            ReplayCommand::Toggle => {
                if self.is_playback() {
                    self.exit()
                } else {
                    self.enter()
                }
            },
            ReplayCommand::Scrub(d) => self.scrub(d),
            ReplayCommand::Seek(f) => self.seek_fraction(f),
        }
    }
}

/// Records the tagged entities' poses while live; a frame without any is not
/// kept.
pub fn record_replay(cam: &mut ReplayCam, frame: ReplayFrame)
    requires
        old(cam)@.wf(),
    ensures
        final(cam)@.wf(),
        final(cam)@ == (if old(cam)@.mode == ReplayMode::Live && frame@.len() > 0 {
            old(cam)@.recording(frame@)
        } else {
            old(cam)@
        }),
{
    if !cam.is_playback() && frame.len() > 0 {
        cam.record(frame);
    }
}

/// The pose that a frame records for an entity; a later entry overrides an
/// earlier one.
pub open spec fn recorded_pose(frame: Seq<(u64, Pose)>, entity: u64) -> Option<Pose>
    decreases frame.len(),
{
    if frame.len() == 0 {
        None
    } else if frame.last().0 == entity {
        Some(frame.last().1)
    } else {
        recorded_pose(frame.drop_last(), entity)
    }
}

/// Re-poses the entities that still exist from the frame under the cursor while
/// in playback. Entities that the frame does not know keep their pose, and
/// recorded entities that are gone are skipped.
pub fn apply_replay(cam: &ReplayCam, alive: &mut Vec<(u64, Pose)>)
    requires
        cam@.wf(),
    ensures
        final(alive)@.len() == old(alive)@.len(),
        forall|i: int|
            0 <= i < old(alive)@.len() ==> (#[trigger] final(alive)@[i]).0 == old(alive)@[i].0
                && final(alive)@[i].1 == shown_pose(cam@, old(alive)@[i].0, old(alive)@[i].1),
{
    if !cam.is_playback() {
        return;
    }
    if let Some(frame) = cam.current() {
        let ghost before = alive@;
        let mut i: usize = 0;
        while i < alive.len()
            invariant
                cam@.mode == ReplayMode::Playback,
                cam@.cursor < cam@.frames.len(),
                frame@ == cam@.frames[cam@.cursor],
                alive@.len() == before.len(),
                i <= alive@.len(),
                forall|j: int|
                    0 <= j < i ==> (#[trigger] alive@[j]).0 == before[j].0 && alive@[j].1
                        == shown_pose(cam@, before[j].0, before[j].1),
                forall|j: int| i <= j < before.len() ==> #[trigger] alive@[j] == before[j],
            decreases alive.len() - i,
        {
            let entity: u64 = alive[i].0;
            if let Some(pose) = pose_in(frame, entity) {
                alive.set(i, (entity, pose));
            }
            i += 1;
        }
    }
}

/// The pose an entity shows: the recorded one in playback, its own otherwise.
pub open spec fn shown_pose(s: CamState, entity: u64, own: Pose) -> Pose {
    if s.mode == ReplayMode::Playback && s.cursor < s.frames.len() {
        match recorded_pose(s.frames[s.cursor], entity) {
            Some(pose) => pose,
            None => own,
        }
    } else {
        own
    }
}

/// Looks an entity up in a frame.
fn pose_in(frame: &ReplayFrame, entity: u64) -> (pose: Option<Pose>)
    ensures
        pose == recorded_pose(frame@, entity),
{
    let mut i: usize = frame.len();
    assert(frame@.take(i as int) =~= frame@);
    while i > 0
        invariant
            i <= frame.len(),
            recorded_pose(frame@, entity) == recorded_pose(frame@.take(i as int), entity),
        decreases i,
    {
        let ghost t = frame@.take(i as int);
        assert(t.last() == frame@[i - 1]);
        assert(t.drop_last() =~= frame@.take(i - 1));
        if frame[i - 1].0 == entity {
            return Some(frame[i - 1].1);
        }
        i -= 1;
    }
    None
}

/// What the keyboard asks for: `R` toggles playback, the brackets scrub.
pub open spec fn keyed_commands(keys: Keyboard) -> Seq<ReplayCommand> {
    (if keys.tapped(KeyCode::KeyR) {
        seq![ReplayCommand::Toggle]
    } else {
        Seq::empty()
    }) + (if keys.tapped(KeyCode::BracketLeft) {
        seq![ReplayCommand::Scrub(-1i32)]
    } else {
        Seq::empty()
    }) + (if keys.tapped(KeyCode::BracketRight) {
        seq![ReplayCommand::Scrub(1)]
    } else {
        Seq::empty()
    })
}

/// Translates the keyboard into commands.
pub fn replay_keys(keys: &Keyboard) -> (out: Vec<ReplayCommand>)
    ensures
        out@ == keyed_commands(*keys),
{
    let mut out: Vec<ReplayCommand> = Vec::new();
    if keys.just_pressed(KeyCode::KeyR) {
        out.push(ReplayCommand::Toggle);
    }
    if keys.just_pressed(KeyCode::BracketLeft) {
        out.push(ReplayCommand::Scrub(-1));
    }
    if keys.just_pressed(KeyCode::BracketRight) {
        out.push(ReplayCommand::Scrub(1));
    }
    assert(out@ =~= keyed_commands(*keys));
    out
}

/// Applies queued commands to the cam; the pause requests they send, in order.
pub fn apply_replay_commands(cam: &mut ReplayCam, cmds: &Vec<ReplayCommand>) -> (pause: Vec<bool>)
    ensures
        final(cam)@ == old(cam)@.obeying_all(cmds@),
        old(cam)@.wf() ==> final(cam)@.wf(),
        pause@ == pauses(old(cam)@, cmds@),
{
    let ghost start = cam@;
    let mut pause: Vec<bool> = Vec::new();
    let mut i: usize = 0;
    assert(cmds@.take(0) =~= Seq::<ReplayCommand>::empty());
    while i < cmds.len()
        invariant
            i <= cmds.len(),
            cam@ == start.obeying_all(cmds@.take(i as int)),
            start.wf() ==> cam@.wf(),
            pause@ == pauses(start, cmds@.take(i as int)),
        decreases cmds.len() - i,
    {
        let ghost done = cmds@.take(i + 1);
        assert(done.drop_last() =~= cmds@.take(i as int));
        assert(done.last() == cmds@[i as int]);
        let was_playback: bool = cam.is_playback();
        cam.obey(cmds[i]);
        let is_playback: bool = cam.is_playback();
        if is_playback && !was_playback {
            pause.push(true);
        } else if !is_playback && was_playback {
            pause.push(false);
        }
        assert(pause@ =~= pauses(start, done));
        i += 1;
    }
    assert(cmds@.take(cmds.len() as int) =~= cmds@);
    pause
}

/// Every command keeps the ring within its bound and the cursor on a frame.
pub proof fn lemma_commands_keep_the_cam_sound(s: CamState, cmds: Seq<ReplayCommand>)
    requires
        s.wf(),
    ensures
        s.obeying_all(cmds).wf(),
        s.obeying_all(cmds).frames == s.frames,
    decreases cmds.len(),
{
    if cmds.len() > 0 {
        lemma_commands_keep_the_cam_sound(s, cmds.drop_last());
    }
}

/// Live or in playback, however it is commanded and whatever it records, the cursor
/// is below the number of frames, or at the start where there is none.
pub proof fn lemma_cursor_stays_in_range(
    s: CamState,
    cmds: Seq<ReplayCommand>,
    frame: Seq<(u64, Pose)>,
)
    requires
        s.wf(),
    ensures
        ({
            let after = s.obeying_all(cmds);
            0 <= after.cursor < (if after.frames.len() > 0 {
                after.frames.len() as int
            } else {
                1
            })
        }),
        ({
            let more = s.obeying_all(cmds).recording(frame);
            more.wf() && 0 <= more.cursor < more.frames.len()
        }),
{
    lemma_commands_keep_the_cam_sound(s, cmds);
}

/// However the commands run, the last pause request agrees with the mode: the
/// simulation is paused exactly while recorded frames are shown.
pub proof fn lemma_paused_exactly_in_playback(s: CamState, cmds: Seq<ReplayCommand>)
    ensures
        ({
            let sent = pauses(s, cmds);
            let now = s.obeying_all(cmds).mode == ReplayMode::Playback;
            if sent.len() == 0 {
                now == (s.mode == ReplayMode::Playback)
            } else {
                sent.last() == now
            }
        }),
    decreases cmds.len(),
{
    if cmds.len() > 0 {
        lemma_paused_exactly_in_playback(s, cmds.drop_last());
    }
}

/// Toggling twice from live with something recorded is a round trip: the frames
/// are untouched and the cam is live again.
pub proof fn lemma_toggle_twice_returns_to_live(s: CamState)
    requires
        s.wf(),
        s.mode == ReplayMode::Live,
        s.frames.len() > 0,
    ensures
        ({
            let twice = s.obeying_all(seq![ReplayCommand::Toggle, ReplayCommand::Toggle]);
            &&& twice.mode == ReplayMode::Live
            &&& twice.frames == s.frames
            &&& pauses(s, seq![ReplayCommand::Toggle, ReplayCommand::Toggle]) == seq![true, false]
        }),
{
    let two = seq![ReplayCommand::Toggle, ReplayCommand::Toggle];
    let one = seq![ReplayCommand::Toggle];
    assert(two.drop_last() =~= one);
    assert(one.drop_last() =~= Seq::<ReplayCommand>::empty());
    assert(s.obeying_all(one.drop_last()) == s);
    assert(pauses(s, one.drop_last()) =~= Seq::<bool>::empty());
    assert(pauses(s, one) =~= seq![true]);
    assert(pauses(s, two) =~= seq![true, false]);
}

/// Seeking to nothing of the window is its oldest frame, and to all of it its
/// newest.
pub proof fn lemma_seek_reaches_both_ends(last: int)
    requires
        last >= 0,
    ensures
        share_of_window(0, last) == 0,
        share_of_window(1_000_000, last) == last,
{
    assert(clamped(0, 1_000_000) * last == 0) by (nonlinear_arith)
        requires
            clamped(0, 1_000_000) == 0,
    ;
    assert(clamped(1_000_000, 1_000_000) * last == 1_000_000 * last) by (nonlinear_arith)
        requires
            clamped(1_000_000, 1_000_000) == 1_000_000,
    ;
}

/// What a run of frames leaves in a cam, recorded one after the other.
pub open spec fn recorded_all(s: CamState, run: Seq<Seq<(u64, Pose)>>) -> CamState
    decreases run.len(),
{
    if run.len() == 0 {
        s
    } else {
        recorded_all(s, run.drop_last()).recording(run.last())
    }
}

/// A fresh cam that records a run of frames holds the last 240 of them, or all of a
/// shorter run, oldest first.
pub proof fn lemma_ring_is_the_last_four_seconds(run: Seq<Seq<(u64, Pose)>>)
    ensures
        ({
            let n = run.len() as int;
            let first = if n > 240 {
                n - 240
            } else {
                0
            };
            recorded_all(CamState::fresh(), run).frames == run.subrange(first, n)
        }),
        recorded_all(CamState::fresh(), run).mode == ReplayMode::Live,
    decreases run.len(),
{
    let n = run.len() as int;
    let kept = recorded_all(CamState::fresh(), run).frames;
    if n > 0 {
        lemma_ring_is_the_last_four_seconds(run.drop_last());
        let first = if n > 240 {
            n - 240
        } else {
            0
        };
        assert(kept =~= run.subrange(first, n));
    } else {
        assert(kept =~= run.subrange(0, 0));
    }
}

/// While recorded frames are shown nothing is recorded over them; live, the newest
/// frame is the one just recorded, and what stays of the others keeps its order.
pub proof fn lemma_recording_keeps_the_newest(s: CamState, frame: Seq<(u64, Pose)>)
    requires
        s.frames.len() <= 240,
    ensures
        s.mode == ReplayMode::Playback ==> s.recording(frame) == s,
        s.mode == ReplayMode::Live ==> {
            let after = s.recording(frame).frames;
            &&& 0 < after.len() <= 240
            &&& after.len() >= s.frames.len()
            &&& after.last() == frame
            &&& forall|i: int|
                0 <= i < after.len() - 1 ==> #[trigger] after[i] == s.frames[s.frames.len() - (
                after.len() - 1) + i]
        },
{
}

/// Entering shows the newest frame, if any is recorded; leaving goes back to live; a
/// toggle does whichever applies. None of them touches the frames.
pub proof fn lemma_playback_starts_at_the_newest(s: CamState)
    requires
        s.wf(),
    ensures
        ({
            let e = s.obeying(ReplayCommand::Enter);
            &&& e.frames == s.frames
            &&& s.frames.len() > 0 ==> e.mode == ReplayMode::Playback && e.frames[e.cursor]
                == s.frames.last()
            &&& s.frames.len() == 0 ==> e == s
        }),
        ({
            let x = s.obeying(ReplayCommand::Exit);
            x.mode == ReplayMode::Live && x.frames == s.frames && x.cursor == s.cursor
        }),
        s.obeying(ReplayCommand::Toggle) == (if s.mode == ReplayMode::Live {
            s.obeying(ReplayCommand::Enter)
        } else {
            s.obeying(ReplayCommand::Exit)
        }),
{
}

/// A scrub goes as many frames as it is asked for, towards the newer ones if it is
/// positive, unless the window ends first: then it stops at that end.
pub proof fn lemma_scrub_goes_frame_by_frame(s: CamState, d: i32)
    requires
        s.wf(),
        s.frames.len() > 0,
    ensures
        ({
            let after = s.obeying(ReplayCommand::Scrub(d));
            &&& after.frames == s.frames
            &&& after.mode == s.mode
            &&& 0 <= s.cursor + d < s.frames.len() ==> after.cursor == s.cursor + d
            &&& s.cursor + d < 0 ==> after.cursor == 0
            &&& s.cursor + d >= s.frames.len() ==> after.cursor == s.frames.len() - 1
        }),
{
}

/// A seek lands on the frame nearest to its share of the window: within half a frame
/// of it, for a share between none and all. It goes to an end for a share beyond.
pub proof fn lemma_seek_lands_nearest(s: CamState, f: i32)
    requires
        s.wf(),
        s.frames.len() > 0,
    ensures
        ({
            let after = s.obeying(ReplayCommand::Seek(f));
            let last = s.frames.len() - 1;
            &&& after.frames == s.frames
            &&& after.mode == s.mode
            &&& 0 <= after.cursor <= last
            &&& 0 <= f <= 1_000_000 ==> -500_000 <= after.cursor * 1_000_000 - f * last <= 500_000
            &&& f < 0 ==> after.cursor == 0
            &&& f > 1_000_000 ==> after.cursor == last
        }),
{
    let last = s.frames.len() - 1;
    lemma_seek_reaches_both_ends(last);
    let share = clamped(f as int, 1_000_000);
    assert(0 <= share * last <= 1_000_000 * last) by (nonlinear_arith)
        requires
            0 <= share <= 1_000_000,
            last >= 0,
    ;
}

/// In playback an entity that the shown frame knows stands where the frame says, and
/// one that it does not know, or any entity while live, stands where it stood.
pub proof fn lemma_playback_shows_the_recorded_pose(
    s: CamState,
    entity: u64,
    own: Pose,
    i: int,
)
    requires
        s.wf(),
    ensures
        s.mode == ReplayMode::Live ==> shown_pose(s, entity, own) == own,
        s.mode == ReplayMode::Playback && (forall|j: int|
            0 <= j < s.frames[s.cursor].len() ==> (#[trigger] s.frames[s.cursor][j]).0 != entity)
            ==> shown_pose(s, entity, own) == own,
        s.mode == ReplayMode::Playback && 0 <= i < s.frames[s.cursor].len()
            && s.frames[s.cursor][i].0 == entity && (forall|j: int|
            i < j < s.frames[s.cursor].len() ==> (#[trigger] s.frames[s.cursor][j]).0 != entity)
            ==> shown_pose(s, entity, own) == s.frames[s.cursor][i].1,
{
    if s.mode == ReplayMode::Playback {
        lemma_last_entry_counts(s.frames[s.cursor], entity, i);
    }
}

proof fn lemma_last_entry_counts(frame: Seq<(u64, Pose)>, entity: u64, i: int)
    ensures
        (forall|j: int| 0 <= j < frame.len() ==> (#[trigger] frame[j]).0 != entity)
            ==> recorded_pose(frame, entity) is None,
        0 <= i < frame.len() && frame[i].0 == entity && (forall|j: int|
            i < j < frame.len() ==> (#[trigger] frame[j]).0 != entity) ==> recorded_pose(
            frame,
            entity,
        ) == Some(frame[i].1),
    decreases frame.len(),
{
    if frame.len() > 0 {
        let t = frame.drop_last();
        lemma_last_entry_counts(t, entity, i);
        assert(forall|j: int| 0 <= j < t.len() ==> #[trigger] t[j] == frame[j]);
        assert(frame.last() == frame[frame.len() - 1]);
    }
}

/// `R` alone toggles playback, the left bracket alone goes one frame back and the
/// right bracket alone one frame on; any other key alone does nothing.
pub proof fn lemma_replay_keys(keys: Keyboard, k: KeyCode)
    requires
        keys.lone_tap(k),
    ensures
        ({
            let cmds = keyed_commands(keys);
            &&& cmds.len() == 1 <==> (k == KeyCode::KeyR || k == KeyCode::BracketLeft || k
                == KeyCode::BracketRight)
            &&& cmds.len() <= 1
            &&& k == KeyCode::KeyR ==> cmds[0] == ReplayCommand::Toggle
            &&& k == KeyCode::BracketLeft ==> (cmds[0] matches ReplayCommand::Scrub(d) && d == -1)
            &&& k == KeyCode::BracketRight ==> (cmds[0] matches ReplayCommand::Scrub(d) && d == 1)
        }),
{
}

} // verus!
