//! Telemetry boxes: toggleable panels of sparklines, one for each signal.

use crate::input::KeyCode;
use crate::input::Keyboard;
use crate::readout::field;
use crate::readout::show;
use crate::readout::shown;
use crate::readout::Field;
use crate::sparkline::recorded;
use crate::sparkline::retained;
use crate::sparkline::Sparkline;
use crate::sparkline::SPARK_BARS;
use vstd::prelude::*;

verus! {

/// The signals that the rover cockpit plots, in panel order.
#[derive(Clone, Copy, Debug, PartialEq, Eq, Structural)]
pub enum RoverSignal {
    ContactJitter,
    Speed,
    AngularSpeed,
    HullPenetration,
}

/// How many signals the cockpit plots.
pub const ROVER_SIGNALS: usize = 4;

/// What a rover's snapshot says for the cockpit, each a single-precision bit
/// pattern: how much its contacts jitter, how fast it moves and turns, and how deep
/// its hull is in the ground.
#[derive(Clone, Copy, Debug, PartialEq, Eq, Structural)]
pub struct RoverReading {
    pub contact_jitter: u32,
    pub speed: u32,
    pub angular_speed: u32,
    pub hull_penetration: u32,
}

impl RoverSignal {
    /// What the signal is in a snapshot.
    pub open spec fn in_reading(self, r: RoverReading) -> u32 {
        match self {
            RoverSignal::ContactJitter => r.contact_jitter,
            RoverSignal::Speed => r.speed,
            RoverSignal::AngularSpeed => r.angular_speed,
            RoverSignal::HullPenetration => r.hull_penetration,
        }
    }

    /// Samples the signal from a snapshot.
    pub fn sample(self, r: &RoverReading) -> (bits: u32)
        ensures
            bits == self.in_reading(*r),
    {
        match self {
            RoverSignal::ContactJitter => r.contact_jitter,
            RoverSignal::Speed => r.speed,
            RoverSignal::AngularSpeed => r.angular_speed,
            RoverSignal::HullPenetration => r.hull_penetration,
        }
    }

    /// The signal of a panel.
    pub open spec fn of_panel(panel: int) -> RoverSignal {
        if panel == 0 {
            RoverSignal::ContactJitter
        } else if panel == 1 {
            RoverSignal::Speed
        } else if panel == 2 {
            RoverSignal::AngularSpeed
        } else {
            RoverSignal::HullPenetration
        }
    }

    /// The cockpit's signals, in display order.
    pub fn all() -> (v: Vec<RoverSignal>)
        ensures
            v@.len() == ROVER_SIGNALS,
            forall|i: int| 0 <= i < v@.len() ==> #[trigger] v@[i] == RoverSignal::of_panel(i),
    {
        let mut v: Vec<RoverSignal> = Vec::new();
        v.push(RoverSignal::ContactJitter);
        v.push(RoverSignal::Speed);
        v.push(RoverSignal::AngularSpeed);
        v.push(RoverSignal::HullPenetration);
        v
    }

    /// The panel's title.
    pub open spec fn title(self) -> Seq<char> {
        match self {
            RoverSignal::ContactJitter => "contact_jitter"@,
            RoverSignal::Speed => "speed m/s"@,
            RoverSignal::AngularSpeed => "ang.vel rad/s"@,
            RoverSignal::HullPenetration => "hull_pen m"@,
        }
    }

    /// The panel's title.
    pub fn label(self) -> (s: &'static str)
        ensures
            s@ == self.title(),
    {
        match self {
            RoverSignal::ContactJitter => "contact_jitter",
            RoverSignal::Speed => "speed m/s",
            RoverSignal::AngularSpeed => "ang.vel rad/s",
            RoverSignal::HullPenetration => "hull_pen m",
        }
    }
}

/// A box of sparklines: one ring for each panel, and whether it is shown.
pub struct CockpitOverlay {
    pub sparks: Vec<Sparkline>,
    pub visible: bool,
}

/// A ring after one more sample.
pub open spec fn ring_pushed(samples: Seq<u32>, bits: u32) -> Seq<u32> {
    retained(samples.push(recorded(bits)), SPARK_BARS as int)
}

impl CockpitOverlay {
    /// Every ring is sound and has the box's width.
    pub open spec fn wf(self) -> bool {
        forall|i: int|
            0 <= i < self.sparks@.len() ==> (#[trigger] self.sparks@[i]).wf()
                && self.sparks@[i].capacity() == SPARK_BARS
    }

    /// A box with a ring for each of `panels` panels, shown.
    pub fn with_panels(panels: usize) -> (o: CockpitOverlay)
        ensures
            o.wf(),
            o.visible,
            o.sparks@.len() == panels,
            forall|i: int|
                0 <= i < panels ==> (#[trigger] o.sparks@[i])@ == Seq::<u32>::empty(),
    {
        let mut sparks: Vec<Sparkline> = Vec::new();
        let mut i: usize = 0;
        while i < panels
            invariant
                i <= panels,
                sparks@.len() == i,
                forall|j: int|
                    0 <= j < i ==> (#[trigger] sparks@[j]).wf() && sparks@[j].capacity()
                        == SPARK_BARS && sparks@[j]@ == Seq::<u32>::empty(),
            decreases panels - i,
        {
            sparks.push(Sparkline::new(SPARK_BARS));
            i += 1;
        }
        CockpitOverlay { sparks, visible: true }
    }

    /// Toggles the box on its key.
    pub fn toggle(&mut self, keys: &Keyboard, key: KeyCode)
        ensures
            final(self).visible == (if keys.tapped(key) {
                !old(self).visible
            } else {
                old(self).visible
            }),
            final(self).sparks == old(self).sparks,
    {
        if keys.just_pressed(key) {
            self.visible = !self.visible;
        }
    }

    /// Records one sample for each panel.
    pub fn sample(&mut self, values: &Vec<u32>)
        requires
            old(self).wf(),
            values@.len() == old(self).sparks@.len(),
        ensures
            final(self).wf(),
            final(self).visible == old(self).visible,
            final(self).sparks@.len() == old(self).sparks@.len(),
            forall|i: int|
                0 <= i < old(self).sparks@.len() ==> (#[trigger] final(self).sparks@[i])@
                    == ring_pushed(old(self).sparks@[i]@, values@[i]),
    {
        let ghost before = self.sparks@;
        let mut done: Vec<Sparkline> = Vec::new();
        let mut i: usize = 0;
        while i < values.len()
            invariant
                i <= values@.len(),
                values@.len() == before.len(),
                self.sparks@ == before.skip(i as int),
                self.visible == old(self).visible,
                forall|j: int|
                    0 <= j < before.len() ==> (#[trigger] before[j]).wf() && before[j].capacity()
                        == SPARK_BARS,
                done@.len() == i,
                forall|j: int|
                    0 <= j < i ==> (#[trigger] done@[j]).wf() && done@[j].capacity() == SPARK_BARS
                        && done@[j]@ == ring_pushed(before[j]@, values@[j]),
            decreases values.len() - i,
        {
            assert(before.skip(i as int)[0] == before[i as int]);
            let mut spark: Sparkline = self.sparks.remove(0);
            assert(self.sparks@ =~= before.skip(i + 1));
            spark.push(values[i]);
            done.push(spark);
            i += 1;
        }
        self.sparks = done;
    }
}

impl Default for CockpitOverlay {
    fn default() -> (o: CockpitOverlay)
        ensures
            o.wf(),
            o.visible,
            o.sparks@.len() == ROVER_SIGNALS,
            forall|i: int|
                0 <= i < o.sparks@.len() ==> (#[trigger] o.sparks@[i])@ == Seq::<u32>::empty(),
    {
        CockpitOverlay::with_panels(ROVER_SIGNALS)
    }
}

/// One frame of the rover cockpit: `G` toggles the box, and every signal is
/// sampled; without a rover every sample is zero.
pub fn update_overlay(keys: &Keyboard, rover: &Option<RoverReading>, overlay: &mut CockpitOverlay)
    requires
        old(overlay).wf(),
        old(overlay).sparks@.len() == ROVER_SIGNALS,
    ensures
        final(overlay).wf(),
        final(overlay).visible == (if keys.tapped(KeyCode::KeyG) {
            !old(overlay).visible
        } else {
            old(overlay).visible
        }),
        final(overlay).sparks@.len() == ROVER_SIGNALS,
        forall|i: int|
            0 <= i < ROVER_SIGNALS ==> (#[trigger] final(overlay).sparks@[i])@ == ring_pushed(
                old(overlay).sparks@[i]@,
                match rover {
                    Some(r) => RoverSignal::of_panel(i).in_reading(*r),
                    None => 0,
                },
            ),
{
    overlay.toggle(keys, KeyCode::KeyG);
    let mut values: Vec<u32> = Vec::new();
    match rover {
        Some(r) => {
            values.push(RoverSignal::ContactJitter.sample(r));
            values.push(RoverSignal::Speed.sample(r));
            values.push(RoverSignal::AngularSpeed.sample(r));
            values.push(RoverSignal::HullPenetration.sample(r));
        },
        None => {
            values.push(0);
            values.push(0);
            values.push(0);
            values.push(0);
        },
    }
    overlay.sample(&values);
}

/// The signals of the surface telemetry box, in panel order.
#[derive(Clone, Copy, Debug, PartialEq, Eq, Structural)]
pub enum SurfStat {
    Fps,
    Chunks,
    Pending,
    Uploads,
    TrianglesK,
}

/// How many signals the surface box plots.
pub const SURF_STATS: usize = 5;

/// One frame in this many samples the surface box.
pub const TELEMETRY_SAMPLE_EVERY: u32 = 6;

/// What the streamer did in a frame.
#[derive(Clone, Copy, Debug, PartialEq, Eq, Structural)]
pub struct StreamStats {
    pub live: usize,
    pub meshing: usize,
    pub ready: usize,
    pub uploaded: usize,
}

impl SurfStat {
    /// The panel's title.
    pub open spec fn title(self) -> Seq<char> {
        match self {
            SurfStat::Fps => "fps"@,
            SurfStat::Chunks => "chunks"@,
            SurfStat::Pending => "pending"@,
            SurfStat::Uploads => "uploads/frame"@,
            SurfStat::TrianglesK => "tris x1000"@,
        }
    }

    /// The panel's title.
    pub fn label(self) -> (s: &'static str)
        ensures
            s@ == self.title(),
    {
        match self {
            SurfStat::Fps => "fps",
            SurfStat::Chunks => "chunks",
            SurfStat::Pending => "pending",
            SurfStat::Uploads => "uploads/frame",
            SurfStat::TrianglesK => "tris x1000",
        }
    }

    /// The scale that the panel shows at least.
    pub open spec fn scale(self) -> int {
        match self {
            SurfStat::Fps => 60,
            SurfStat::Chunks => 300,
            SurfStat::Pending => 12,
            SurfStat::Uploads => 6,
            SurfStat::TrianglesK => 400,
        }
    }

    /// The scale that the panel shows at least.
    pub fn default_max(self) -> (m: u32)
        ensures
            m == self.scale(),
    {
        match self {
            SurfStat::Fps => 60,
            SurfStat::Chunks => 300,
            SurfStat::Pending => 12,
            SurfStat::Uploads => 6,
            SurfStat::TrianglesK => 400,
        }
    }

    /// What the panel counts: nothing for the frame rate, which is measured,
    /// and single triangles for the triangle panel.
    pub fn count(self, stats: &StreamStats, tris_per_chunk: u64) -> (n: Option<u128>)
        ensures
            n == (match self {
                SurfStat::Fps => None,
                SurfStat::Chunks => Some(stats.live as u128),
                SurfStat::Pending => Some((stats.meshing + stats.ready) as u128),
                SurfStat::Uploads => Some(stats.uploaded as u128),
                SurfStat::TrianglesK => Some((stats.live * tris_per_chunk) as u128),
            }),
    {
        match self {
            SurfStat::Fps => None,
            SurfStat::Chunks => Some(stats.live as u128),
            SurfStat::Pending => Some(stats.meshing as u128 + stats.ready as u128),
            SurfStat::Uploads => Some(stats.uploaded as u128),
            SurfStat::TrianglesK => {
                let a: u128 = stats.live as u128;
                let b: u128 = tris_per_chunk as u128;
                assert(a * b <= u128::MAX) by (nonlinear_arith)
                    requires
                        a <= 0xffff_ffff_ffff_ffff,
                        b <= 0xffff_ffff_ffff_ffff,
                ;
                Some(a * b)
            },
        }
    }
}

/// Counts a frame; whether the surface box takes a sample in it.
pub fn telemetry_tick(frame: &mut u32) -> (due: bool)
    ensures
        *final(frame) as int == (*old(frame) + 1) % 0x1_0000_0000,
        due == (*final(frame) as int % 6 == 0),
{
    *frame = frame.wrapping_add(1);
    *frame % TELEMETRY_SAMPLE_EVERY == 0
}

/// The line over a panel: its name, its newest value and its greatest, with that
/// many digits behind the point.
pub open spec fn panel_line(
    label: Seq<char>,
    latest: int,
    latest_digits: u32,
    peak: int,
    peak_digits: u32,
) -> Seq<char> {
    label + ": "@ + shown(latest, (Field { width: 0, digits: latest_digits, plus: false }))
        + " (max "@ + shown(peak, (Field { width: 0, digits: peak_digits, plus: false })) + ")"@
}

/// Writes the line over a panel.
fn panel_text(label: &str, latest: i64, latest_digits: u32, peak: i64, peak_digits: u32) -> (s:
    String)
    requires
        latest_digits <= 6,
        peak_digits <= 6,
    ensures
        s@ == panel_line(label@, latest as int, latest_digits, peak as int, peak_digits),
{
    let mut s: String = label.to_owned();
    s.append(": ");
    show(&mut s, latest, field(0, latest_digits));
    s.append(" (max ");
    show(&mut s, peak, field(0, peak_digits));
    s.append(")");
    s
}

impl RoverSignal {
    /// The line over the signal's panel: its newest value and its greatest, in
    /// millionths.
    pub fn panel_label(self, latest: i64, peak: i64) -> (s: String)
        ensures
            s@ == panel_line(self.title(), latest as int, 2, peak as int, 1),
    {
        panel_text(self.label(), latest, 2, peak, 1)
    }
}

impl SurfStat {
    /// The line over the statistic's panel: its newest value and the scale's top,
    /// in millionths. The scale never falls below the statistic's own.
    pub fn panel_label(self, latest: i64, peak: i64) -> (s: String)
        ensures
            s@ == panel_line(
                self.title(),
                latest as int,
                0,
                if peak > self.scale() * 1_000_000 {
                    peak as int
                } else {
                    self.scale() * 1_000_000
                },
                0,
            ),
    {
        let floor: i64 = self.default_max() as i64 * 1_000_000;
        let top: i64 = if peak > floor {
            peak
        } else {
            floor
        };
        panel_text(self.label(), latest, 0, top, 0)
    }
}

/// Each panel of the cockpit plots its own signal, and each signal has a panel.
pub proof fn lemma_each_signal_has_its_panel(r: RoverReading)
    ensures
        RoverSignal::of_panel(0).in_reading(r) == r.contact_jitter,
        RoverSignal::of_panel(1).in_reading(r) == r.speed,
        RoverSignal::of_panel(2).in_reading(r) == r.angular_speed,
        RoverSignal::of_panel(3).in_reading(r) == r.hull_penetration,
        RoverSignal::ContactJitter.title()[0] == 'c',
        RoverSignal::Speed.title()[0] == 's',
        RoverSignal::AngularSpeed.title()[0] == 'a',
        RoverSignal::HullPenetration.title()[0] == 'h',
{
    reveal_strlit("contact_jitter");
    reveal_strlit("speed m/s");
    reveal_strlit("ang.vel rad/s");
    reveal_strlit("hull_pen m");
}

/// A ring takes a sample in at its end; once it holds forty-eight, its oldest makes room.
pub proof fn lemma_a_ring_drops_its_oldest(samples: Seq<u32>, bits: u32)
    requires
        samples.len() <= 48,
        bits < 0x7f80_0000,
    ensures
        ({
            let after = ring_pushed(samples, bits);
            &&& after.len() <= 48 && after.last() == bits
            &&& samples.len() < 48 ==> after == samples.push(bits)
            &&& samples.len() == 48 ==> after == samples.subrange(1, 48).push(bits)
        }),
{
    if samples.len() == 48 {
        assert(ring_pushed(samples, bits) =~= samples.subrange(1, 48).push(bits));
    }
}

/// The panels' least scales, and their titles' initials.
pub proof fn lemma_surface_panels_have_their_scale()
    ensures
        SurfStat::Fps.scale() == 60 && SurfStat::Fps.title()[0] == 'f',
        SurfStat::Chunks.scale() == 300 && SurfStat::Chunks.title()[0] == 'c',
        SurfStat::Pending.scale() == 12 && SurfStat::Pending.title()[0] == 'p',
        SurfStat::Uploads.scale() == 6 && SurfStat::Uploads.title()[0] == 'u',
        SurfStat::TrianglesK.scale() == 400 && SurfStat::TrianglesK.title()[0] == 't',
{
    reveal_strlit("fps");
    reveal_strlit("chunks");
    reveal_strlit("pending");
    reveal_strlit("uploads/frame");
    reveal_strlit("tris x1000");
}

/// The line over a panel begins with its name, and its newest value comes before its
/// greatest.
pub proof fn lemma_a_panel_line_reads_in_order(
    label: Seq<char>,
    latest: int,
    latest_digits: u32,
    peak: int,
    peak_digits: u32,
)
    ensures
        ({
            let line = panel_line(label, latest, latest_digits, peak, peak_digits);
            let now = label + ": "@ + shown(
                latest,
                (Field { width: 0, digits: latest_digits, plus: false }),
            );
            let top = shown(peak, (Field { width: 0, digits: peak_digits, plus: false })) + ")"@;
            &&& line.take(now.len() as int) == now
            &&& line.skip(line.len() - top.len()) == top
        }),
{
    let line = panel_line(label, latest, latest_digits, peak, peak_digits);
    let now = label + ": "@ + shown(
        latest,
        (Field { width: 0, digits: latest_digits, plus: false }),
    );
    let top = shown(peak, (Field { width: 0, digits: peak_digits, plus: false })) + ")"@;
    assert(line.take(now.len() as int) =~= now);
    assert(line.skip(line.len() - top.len()) =~= top);
}

} // verus!
