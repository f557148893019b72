//! A sparkline: a bounded ring of recent samples and its autoscaled bars.
//!
//! Samples are non-negative single-precision values, carried as their bit
//! patterns. Bit patterns of non-negative values are in the order of the
//! values, so the window's maximum is found on the patterns.

use std::collections::VecDeque;
use vstd::prelude::*;

verus! {

/// Number of bars (and retained samples) a sparkline shows.
pub const SPARK_BARS: usize = 48;

/// The bit pattern of one millionth: a window whose maximum is smaller shows no
/// bars.
pub const EPS_BITS: u32 = 0x3586_37bd;

/// The smallest bit pattern that is no finite non-negative value.
pub const FINITE_END: u32 = 0x7f80_0000;

/// The sample that a value is recorded as: itself if it is finite and not
/// negative, and zero otherwise.
pub open spec fn recorded(bits: u32) -> u32 {
    if bits < FINITE_END {
        bits
    } else {
        0
    }
}

/// The largest of a run of samples, zero if there is none.
pub open spec fn peak(samples: Seq<u32>) -> u32
    decreases samples.len(),
{
    if samples.len() == 0 {
        0
    } else {
        let p = peak(samples.drop_last());
        if samples.last() > p {
            samples.last()
        } else {
            p
        }
    }
}

/// The last `cap` of a run of samples.
pub open spec fn retained(samples: Seq<u32>, cap: int) -> Seq<u32> {
    if samples.len() > cap {
        samples.skip(samples.len() - cap)
    } else {
        samples
    }
}

/// A bounded ring of recent samples.
#[derive(Clone)]
pub struct Sparkline {
    samples: VecDeque<u32>,
    cap: usize,
}

/// One bar: nothing, or a sample to be shown as a fraction of a scale.
#[derive(Clone, Copy, Debug, PartialEq, Eq, Structural)]
pub enum Bar {
    Flat,
    Ratio { value: u32, scale: u32 },
}

/// The bars of a window: one slot for each retained sample, the newest last,
/// unfilled slots first. The scale is the window's peak, or `floor` if that is
/// larger; with a scale near zero every bar is flat.
pub open spec fn bars_of(samples: Seq<u32>, cap: int, floor: u32) -> Seq<Bar> {
    let scale = if peak(samples) > floor {
        peak(samples)
    } else {
        floor
    };
    Seq::new(
        cap as nat,
        |i: int|
            if scale < EPS_BITS || i < cap - samples.len() {
                Bar::Flat
            } else {
                Bar::Ratio { value: samples[i - (cap - samples.len())], scale }
            },
    )
}

impl View for Sparkline {
    type V = Seq<u32>;

    closed spec fn view(&self) -> Seq<u32> {
        self.samples@
    }
}

impl Sparkline {
    /// How many samples are retained.
    pub closed spec fn capacity(self) -> int {
        self.cap as int
    }

    /// The ring is within its capacity and holds finite non-negative values.
    pub open spec fn wf(self) -> bool {
        &&& 0 <= self.capacity() <= usize::MAX
        &&& self@.len() <= self.capacity()
        &&& forall|i: int| 0 <= i < self@.len() ==> #[trigger] self@[i] < FINITE_END
    }

    /// A sparkline that retains the last `cap` samples.
    pub fn new(cap: usize) -> (s: Sparkline)
        ensures
            s.wf(),
            s@ == Seq::<u32>::empty(),
            s.capacity() == cap,
    {
        Sparkline { samples: VecDeque::new(), cap }
    }

    /// Records one sample, dropping the oldest past capacity. A sparkline without
    /// capacity retains nothing.
    pub fn push(&mut self, bits: u32)
        requires
            old(self).wf(),
        ensures
            final(self).wf(),
            final(self).capacity() == old(self).capacity(),
            final(self)@ == retained(old(self)@.push(recorded(bits)), old(self).capacity()),
    {
        let ghost before = self@;
        if self.cap == 0 {
            assert(self@ =~= retained(before.push(recorded(bits)), 0));
            return;
        }
        if self.samples.len() == self.cap {
            self.samples.pop_front();
        }
        let v: u32 = if bits < FINITE_END {
            bits
        } else {
            0
        };
        self.samples.push_back(v);
        assert(self@ =~= retained(before.push(recorded(bits)), self.cap as int));
    }

    /// The most recent sample, zero if there is none.
    pub fn latest(&self) -> (v: u32)
        ensures
            v == (if self@.len() == 0 {
                0
            } else {
                self@.last()
            }),
            v == latest_of(self@),
    {
        let n: usize = self.samples.len();
        if n == 0 {
            0
        } else {
            self.samples[n - 1]
        }
    }

    /// The largest sample in the window, zero if there is none.
    pub fn window_max(&self) -> (m: u32)
        ensures
            m == peak(self@),
    {
        let mut m: u32 = 0;
        let mut i: usize = 0;
        assert(self@.take(0) =~= Seq::<u32>::empty());
        while i < self.samples.len()
            invariant
                i <= self.samples@.len(),
                m == peak(self@.take(i as int)),
            decreases self.samples.len() - i,
        {
            assert(self@.take(i + 1).drop_last() =~= self@.take(i as int));
            assert(self@.take(i + 1).last() == self@[i as int]);
            let v: u32 = self.samples[i];
            if v > m {
                m = v;
            }
            i += 1;
        }
        assert(self@.take(i as int) =~= self@);
        m
    }

    /// The bars, scaled to the window's peak.
    pub fn bars(&self) -> (out: Vec<Bar>)
        requires
            self.wf(),
        ensures
            out@ == bars_of(self@, self.capacity(), 0),
    {
        self.bars_from(0)
    }

    /// The bars, scaled to the window's peak or to `floor` if that is larger.
    pub fn bars_from(&self, floor: u32) -> (out: Vec<Bar>)
        requires
            self.wf(),
        ensures
            out@ == bars_of(self@, self.capacity(), floor),
    {
        let max: u32 = self.window_max();
        let scale: u32 = if max > floor {
            max
        } else {
            floor
        };
        let n: usize = self.samples.len();
        let start: usize = self.cap - n;
        let ghost want = bars_of(self@, self.capacity(), floor);
        let mut out: Vec<Bar> = Vec::new();
        let mut i: usize = 0;
        while i < self.cap
            invariant
                self.wf(),
                n == self.samples@.len(),
                start == self.cap - n,
                i <= self.cap,
                scale == (if peak(self@) > floor {
                    peak(self@)
                } else {
                    floor
                }),
                want == bars_of(self@, self.capacity(), floor),
                out@ == want.take(i as int),
            decreases self.cap - i,
        {
            if scale < EPS_BITS || i < start {
                out.push(Bar::Flat);
            } else {
                out.push(Bar::Ratio { value: self.samples[i - start], scale });
            }
            i += 1;
            assert(out@ =~= want.take(i as int));
        }
        assert(want.take(self.cap as int) =~= want);
        out
    }
}

/// What a sparkline holds after a run of values.
pub open spec fn after_pushes(values: Seq<u32>, cap: int) -> Seq<u32>
    decreases values.len(),
{
    if values.len() == 0 {
        Seq::empty()
    } else {
        retained(after_pushes(values.drop_last(), cap).push(recorded(values.last())), cap)
    }
}

/// A sparkline holds the recent past: the last samples that its capacity allows.
pub proof fn lemma_window_is_the_recent_past(values: Seq<u32>, cap: int)
    requires
        0 <= cap,
    ensures
        after_pushes(values, cap) == retained(
            Seq::new(values.len(), |i: int| recorded(values[i])),
            cap,
        ),
    decreases values.len(),
{
    let all = Seq::new(values.len(), |i: int| recorded(values[i]));
    if values.len() > 0 {
        let front = values.drop_last();
        lemma_window_is_the_recent_past(front, cap);
        let past = Seq::new(front.len(), |i: int| recorded(front[i]));
        assert(all =~= past.push(recorded(values.last())));
        assert(retained(retained(past, cap).push(all.last()), cap) =~= retained(all, cap));
    } else {
        assert(retained(all, cap) =~= Seq::<u32>::empty());
    }
}

/// No sample is larger than the peak, and the peak is one of them or zero.
pub proof fn lemma_peak_bounds_the_window(samples: Seq<u32>, i: int)
    requires
        0 <= i < samples.len(),
    ensures
        samples[i] <= peak(samples),
        samples.contains(peak(samples)) || peak(samples) == 0,
    decreases samples.len(),
{
    let front = samples.drop_last();
    if i < front.len() {
        lemma_peak_bounds_the_window(front, i);
    } else if front.len() > 0 {
        lemma_peak_bounds_the_window(front, 0);
    }
    if front.contains(peak(front)) {
        let j = choose|j: int| 0 <= j < front.len() && front[j] == peak(front);
        assert(samples[j] == peak(front));
    }
    assert(samples[samples.len() - 1] == samples.last());
}

/// Every bar is at most full height: its sample is no larger than its scale.
pub proof fn lemma_bars_are_at_most_full(samples: Seq<u32>, cap: int, floor: u32, i: int)
    requires
        samples.len() <= cap,
        0 <= i < cap,
    ensures
        bars_of(samples, cap, floor)[i] matches Bar::Ratio { value, scale } ==> value <= scale
            && scale >= EPS_BITS,
{
    let k = i - (cap - samples.len());
    if 0 <= k {
        lemma_peak_bounds_the_window(samples, k);
    }
}

/// The bar that a slot shows: nothing beyond the bars.
pub open spec fn bar_in(bars: Seq<Bar>, slot: int) -> Bar {
    if slot < bars.len() {
        bars[slot]
    } else {
        Bar::Flat
    }
}

/// What each of a panel's slots shows.
pub fn apply_bars(bars: &Vec<Bar>, slots: &Vec<usize>) -> (out: Vec<Bar>)
    ensures
        out@ == Seq::new(slots@.len(), |i: int| bar_in(bars@, slots@[i] as int)),
{
    let mut out: Vec<Bar> = Vec::new();
    let mut i: usize = 0;
    while i < slots.len()
        invariant
            i <= slots@.len(),
            out@ == Seq::new(i as nat, |i: int| bar_in(bars@, slots@[i] as int)),
        decreases slots.len() - i,
    {
        let slot: usize = slots[i];
        out.push(
            if slot < bars.len() {
                bars[slot]
            } else {
                Bar::Flat
            },
        );
        i += 1;
        assert(out@ =~= Seq::new(i as nat, |i: int| bar_in(bars@, slots@[i] as int)));
    }
    out
}

/// A sample that is finite and not negative is recorded as it is, and any other as zero.
pub proof fn lemma_only_finite_samples_are_recorded(bits: u32)
    ensures
        bits < 0x7f80_0000 ==> recorded(bits) == bits,
        bits >= 0x7f80_0000 ==> recorded(bits) == 0,
{
}

/// A window is the last samples, as many as its capacity, in their order.
pub proof fn lemma_a_window_is_the_last_samples(samples: Seq<u32>, cap: int)
    requires
        cap >= 0,
    ensures
        samples.len() <= cap ==> retained(samples, cap) == samples,
        samples.len() > cap ==> retained(samples, cap) == samples.subrange(
            samples.len() - cap,
            samples.len() as int,
        ),
{
    if samples.len() > cap {
        assert(retained(samples, cap) =~= samples.subrange(
            samples.len() - cap,
            samples.len() as int,
        ));
    }
}

/// There is a bar for each slot. The newest sample is in the last, each older one a slot
/// before, and slots without a sample are flat. Every sample is shown against one scale,
/// which is the peak or the floor, whichever is larger; where that is near zero all are flat.
pub proof fn lemma_bars_end_with_the_newest(samples: Seq<u32>, cap: int, floor: u32, back: int)
    requires
        samples.len() <= cap,
        0 <= back < cap,
    ensures
        ({
            let bars = bars_of(samples, cap, floor);
            let high = if peak(samples) > floor {
                peak(samples)
            } else {
                floor
            };
            let bar = bars[cap - 1 - back];
            &&& bars.len() == cap
            &&& back >= samples.len() || high < 0x3586_37bd ==> bar == Bar::Flat
            &&& back < samples.len() && high >= 0x3586_37bd ==> (bar matches Bar::Ratio {
                value,
                scale,
            } && value == samples[samples.len() - 1 - back] && scale == high)
        }),
{
}

/// A panel's slot shows the bar of its own number, and nothing where there is none.
pub proof fn lemma_slots_show_their_own_bar(bars: Seq<Bar>, slot: int)
    ensures
        0 <= slot < bars.len() ==> bar_in(bars, slot) == bars[slot],
        slot >= bars.len() ==> bar_in(bars, slot) == Bar::Flat,
{
}

/// The most recent of some samples, zero if there is none.
pub open spec fn latest_of(samples: Seq<u32>) -> u32 {
    if samples.len() == 0 {
        0
    } else {
        samples.last()
    }
}

/// The sample that has just been recorded is the latest, unless nothing is kept at all.
pub proof fn lemma_the_latest_is_the_last_recorded(samples: Seq<u32>, bits: u32, capacity: int)
    requires
        capacity > 0,
    ensures
        latest_of(retained(samples.push(recorded(bits)), capacity)) == recorded(bits),
        latest_of(Seq::empty()) == 0,
{
}

} // verus!
