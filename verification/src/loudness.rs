//! The gated loudness engine: per-channel 100 ms window powers are reduced
//! to one combined stereo timeline, and a two-stage gated mean turns a
//! timeline into one integrated loudness figure.
//!
//! Window powers are fixed-point values: `UNIT_POWER` stands for a
//! mean-square power of one (full scale).  A gated mean is kept exactly, as
//! the pair of the summed power of the windows that passed both gates and
//! their count; the logarithmic conversion to LKFS happens outside, at
//! display time.

use vstd::prelude::*;

use crate::error::Error;

verus! {

/// The fixed-point scale: this value stands for a mean-square power of 1.0.
pub const UNIT_POWER: u64 = 1_000_000_000_000;

/// The absolute gate: the power equivalent of -70 LKFS on the fixed-point
/// scale.  Windows strictly below it never count toward the mean.
pub const ABSOLUTE_GATE_POWER: u64 = 117_247;

/// The largest admissible window power (two to the fifty-sixth), leaving
/// headroom so that sums and the relative-gate products cannot overflow.
pub const MAX_WINDOW_POWER: u64 = 72_057_594_037_927_936;

/// An admissible window power.
pub open spec fn window_ok(w: u64) -> bool {
    w <= MAX_WINDOW_POWER
}

/// Every window of the timeline is admissible.
pub open spec fn windows_ok(ws: Seq<u64>) -> bool {
    forall|i: int| 0 <= i < ws.len() ==> window_ok(#[trigger] ws[i])
}

/// The summed power of a timeline.
pub open spec fn seq_sum(ws: Seq<u64>) -> int
    decreases ws.len(),
{
    if ws.len() == 0 {
        0
    } else {
        seq_sum(ws.drop_last()) + ws.last()
    }
}

/// Whether a window passes the absolute gate.
pub open spec fn abs_pass(w: u64) -> bool {
    w >= ABSOLUTE_GATE_POWER
}

/// The windows that pass the absolute gate, in order.
pub open spec fn gate_abs(ws: Seq<u64>) -> Seq<u64>
    decreases ws.len(),
{
    if ws.len() == 0 {
        Seq::empty()
    } else if abs_pass(ws.last()) {
        gate_abs(ws.drop_last()).push(ws.last())
    } else {
        gate_abs(ws.drop_last())
    }
}

/// Whether a window passes the relative gate, which sits ten decibels (a
/// factor of ten in power) below the mean `sum1 / count1` of the
/// absolute-gated windows.
pub open spec fn rel_pass(w: u64, sum1: int, count1: int) -> bool {
    w * 10 * count1 >= sum1
}

/// The windows that pass both gates, in order.
pub open spec fn gate_both(ws: Seq<u64>, sum1: int, count1: int) -> Seq<u64>
    decreases ws.len(),
{
    if ws.len() == 0 {
        Seq::empty()
    } else {
        let rest = gate_both(ws.drop_last(), sum1, count1);
        if abs_pass(ws.last()) && rel_pass(ws.last(), sum1, count1) {
            rest.push(ws.last())
        } else {
            rest
        }
    }
}

/// The gated mean of a timeline, as the exact pair of the summed power of
/// the windows that passed both gates and their count.  When no window
/// passes the absolute gate the result is the floor `(0, 0)`: a silent or
/// sub-threshold timeline is not an error.
pub open spec fn spec_gated_mean(ws: Seq<u64>) -> (int, int) {
    let g1 = gate_abs(ws);
    if g1.len() == 0 {
        (0, 0)
    } else {
        let s1 = seq_sum(g1);
        let c1 = g1.len() as int;
        let g2 = gate_both(ws, s1, c1);
        (seq_sum(g2), g2.len() as int)
    }
}

/// One integrated loudness figure: the gated mean power behind it, kept
/// exactly as a sum of window powers and a window count.  The floor value,
/// which arises when every window is gated away, has zero in both fields.
#[derive(Debug, Clone, Copy, PartialEq, Eq, Structural)]
pub struct Loudness {
    pub power_sum: u128,
    pub window_count: usize,
}

/// The loudness value `l` carries exactly the gated mean `gm`.
pub open spec fn loudness_matches(l: Loudness, gm: (int, int)) -> bool {
    l.power_sum as int == gm.0 && l.window_count as int == gm.1
}

/// The equal-weight stereo reduction of two aligned channel timelines: each
/// combined window is the mean of the two channels' windows.
pub open spec fn spec_reduce(left: Seq<u64>, right: Seq<u64>) -> Seq<u64>
    recommends
        left.len() == right.len(),
{
    Seq::new(left.len(), |i: int| (((left[i] + right[i]) / 2) as u64))
}

/// Reduces two aligned channel timelines to one combined timeline with equal
/// channel weighting.
pub fn reduce_stereo(left: &Vec<u64>, right: &Vec<u64>) -> (r: Vec<u64>)
    requires
        left@.len() == right@.len(),
        windows_ok(left@),
        windows_ok(right@),
    ensures
        r@ == spec_reduce(left@, right@),
        windows_ok(r@),
{
    let n = left.len();
    let mut out: Vec<u64> = Vec::new();
    let mut i: usize = 0;
    while i < n
        invariant
            i <= n,
            n == left@.len(),
            n == right@.len(),
            windows_ok(left@),
            windows_ok(right@),
            out@.len() == i,
            forall|j: int| 0 <= j < i ==> out@[j] == spec_reduce(left@, right@)[j],
        decreases n - i,
    {
        let w = (left[i] + right[i]) / 2;
        out.push(w);
        i += 1;
    }
    proof {
        assert(out@ =~= spec_reduce(left@, right@));
    }
    out
}

/// Computes the two-stage gated mean of a combined timeline: first the mean
/// of the windows at or above the absolute gate, then the mean of the
/// windows also at or above the relative gate derived from that first mean.
pub fn gated_mean(windows: &Vec<u64>) -> (l: Loudness)
    requires
        windows_ok(windows@),
    ensures
        loudness_matches(l, spec_gated_mean(windows@)),
{
    let n = windows.len();
    let mut sum1: u128 = 0;
    let mut count1: usize = 0;
    let mut i: usize = 0;
    while i < n
        invariant
            i <= n,
            n == windows@.len(),
            windows_ok(windows@),
            count1 <= i,
            count1 == gate_abs(windows@.subrange(0, i as int)).len(),
            sum1 == seq_sum(gate_abs(windows@.subrange(0, i as int))),
            sum1 <= count1 * (MAX_WINDOW_POWER as int),
        decreases n - i,
    {
        let w = windows[i];
        proof {
            let pre1 = windows@.subrange(0, (i + 1) as int);
            assert(pre1.drop_last() =~= windows@.subrange(0, i as int));
            assert(pre1.last() == windows@[i as int]);
            assert(gate_abs(pre1.drop_last()).push(pre1.last()).drop_last() =~= gate_abs(
                pre1.drop_last(),
            ));
            if abs_pass(w) {
                assert(sum1 + w <= (count1 + 1) * (MAX_WINDOW_POWER as int)) by (nonlinear_arith)
                    requires
                        sum1 <= count1 * (MAX_WINDOW_POWER as int),
                        w <= MAX_WINDOW_POWER,
                ;
                assert((count1 + 1) * (MAX_WINDOW_POWER as int) <= 0xffff_ffff_ffff_ffff
                    * (MAX_WINDOW_POWER as int)) by (nonlinear_arith)
                    requires
                        count1 + 1 <= 0xffff_ffff_ffff_ffff,
                ;
            }
        }
        if w >= ABSOLUTE_GATE_POWER {
            sum1 = sum1 + w as u128;
            count1 = count1 + 1;
        }
        i += 1;
    }
    proof {
        assert(windows@.subrange(0, n as int) =~= windows@);
    }
    if count1 == 0 {
        return Loudness { power_sum: 0, window_count: 0 };
    }
    let ghost s1 = seq_sum(gate_abs(windows@));
    let ghost c1 = gate_abs(windows@).len() as int;
    let mut sum2: u128 = 0;
    let mut count2: usize = 0;
    let mut i: usize = 0;
    while i < n
        invariant
            i <= n,
            n == windows@.len(),
            windows_ok(windows@),
            sum1 == s1,
            count1 == c1,
            count1 > 0,
            s1 == seq_sum(gate_abs(windows@)),
            c1 == gate_abs(windows@).len() as int,
            count2 <= i,
            count2 == gate_both(windows@.subrange(0, i as int), s1, c1).len(),
            sum2 == seq_sum(gate_both(windows@.subrange(0, i as int), s1, c1)),
            sum2 <= count2 * (MAX_WINDOW_POWER as int),
        decreases n - i,
    {
        let w = windows[i];
        proof {
            let pre1 = windows@.subrange(0, (i + 1) as int);
            assert(pre1.drop_last() =~= windows@.subrange(0, i as int));
            assert(pre1.last() == windows@[i as int]);
            assert(gate_both(pre1.drop_last(), s1, c1).push(pre1.last()).drop_last()
                =~= gate_both(pre1.drop_last(), s1, c1));
            assert(w as int * 10 * c1 <= MAX_WINDOW_POWER as int * 10
                * 0xffff_ffff_ffff_ffff) by (nonlinear_arith)
                requires
                    0 <= w <= MAX_WINDOW_POWER,
                    0 < c1 <= 0xffff_ffff_ffff_ffff,
            ;
            if abs_pass(w) && rel_pass(w, s1, c1) {
                assert(sum2 + w <= (count2 + 1) * (MAX_WINDOW_POWER as int)) by (nonlinear_arith)
                    requires
                        sum2 <= count2 * (MAX_WINDOW_POWER as int),
                        w <= MAX_WINDOW_POWER,
                ;
                assert((count2 + 1) * (MAX_WINDOW_POWER as int) <= 0xffff_ffff_ffff_ffff
                    * (MAX_WINDOW_POWER as int)) by (nonlinear_arith)
                    requires
                        count2 + 1 <= 0xffff_ffff_ffff_ffff,
                ;
            }
        }
        if w >= ABSOLUTE_GATE_POWER && (w as u128) * 10 * (count1 as u128) >= sum1 {
            sum2 = sum2 + w as u128;
            count2 = count2 + 1;
        }
        i += 1;
    }
    proof {
        assert(windows@.subrange(0, n as int) =~= windows@);
    }
    Loudness { power_sum: sum2, window_count: count2 }
}

/// A timeline consisting entirely of windows below the absolute gate yields
/// exactly the floor value: zero power from zero windows.
pub proof fn lemma_all_below_gate_floor(ws: Seq<u64>)
    requires
        forall|i: int| 0 <= i < ws.len() ==> (#[trigger] ws[i]) < ABSOLUTE_GATE_POWER,
    ensures
        spec_gated_mean(ws) == (0int, 0int),
{
    lemma_gate_abs_empty(ws);
}

proof fn lemma_gate_abs_empty(ws: Seq<u64>)
    requires
        forall|i: int| 0 <= i < ws.len() ==> (#[trigger] ws[i]) < ABSOLUTE_GATE_POWER,
    ensures
        gate_abs(ws).len() == 0,
    decreases ws.len(),
{
    if ws.len() > 0 {
        lemma_gate_abs_empty(ws.drop_last());
    }
}

/// Reducing a channel timeline with itself gives the timeline back: equal
/// weighting preserves a signal that is the same on both channels.
pub proof fn lemma_reduce_identical(t: Seq<u64>)
    ensures
        spec_reduce(t, t) == t,
{
    assert(spec_reduce(t, t) =~= t);
}

/// Reduction symmetry: reducing two identical channel timelines yields the
/// same gated mean as measuring either channel alone.
pub proof fn lemma_reduction_symmetry(t: Seq<u64>)
    ensures
        spec_gated_mean(spec_reduce(t, t)) == spec_gated_mean(t),
{
    lemma_reduce_identical(t);
}

spec fn is_max_at(s: Seq<u64>, j: int) -> bool {
    forall|i: int| 0 <= i < s.len() ==> #[trigger] s[i] <= s[j]
}

proof fn lemma_max_exists(s: Seq<u64>)
    requires
        s.len() > 0,
    ensures
        exists|j: int| 0 <= j < s.len() && #[trigger] is_max_at(s, j),
    decreases s.len(),
{
    if s.len() == 1 {
        assert(is_max_at(s, 0));
    } else {
        lemma_max_exists(s.drop_last());
        let j = choose|j: int|
            0 <= j < s.drop_last().len() && #[trigger] is_max_at(s.drop_last(), j);
        if s.last() >= s[j] {
            assert forall|i: int| 0 <= i < s.len() implies #[trigger] s[i] <= s[s.len() - 1] by {
                if i < s.len() - 1 {
                    assert(s.drop_last()[i] <= s.drop_last()[j]);
                }
            }
            assert(is_max_at(s, s.len() - 1));
        } else {
            assert forall|i: int| 0 <= i < s.len() implies #[trigger] s[i] <= s[j] by {
                if i < s.len() - 1 {
                    assert(s.drop_last()[i] <= s.drop_last()[j]);
                }
            }
            assert(is_max_at(s, j));
        }
    }
}

proof fn lemma_sum_le_len_times_bound(s: Seq<u64>, b: u64)
    requires
        forall|i: int| 0 <= i < s.len() ==> #[trigger] s[i] <= b,
    ensures
        seq_sum(s) <= s.len() * b,
    decreases s.len(),
{
    if s.len() == 0 {
    } else {
        lemma_sum_le_len_times_bound(s.drop_last(), b);
        assert((s.len() - 1) * b + b == s.len() * b) by (nonlinear_arith);
    }
}

proof fn lemma_gate_abs_elements(ws: Seq<u64>)
    ensures
        forall|j: int|
            0 <= j < gate_abs(ws).len() ==> abs_pass(#[trigger] gate_abs(ws)[j]) && exists|i: int|
                0 <= i < ws.len() && ws[i] == gate_abs(ws)[j],
    decreases ws.len(),
{
    if ws.len() > 0 {
        lemma_gate_abs_elements(ws.drop_last());
        assert forall|j: int|
            0 <= j < gate_abs(ws).len() implies abs_pass(#[trigger] gate_abs(ws)[j]) && exists|
            i: int,
        |
            0 <= i < ws.len() && ws[i] == gate_abs(ws)[j] by {
            let g0 = gate_abs(ws.drop_last());
            if j < g0.len() {
                let i = choose|i: int|
                    0 <= i < ws.drop_last().len() && ws.drop_last()[i] == g0[j];
                assert(ws[i] == gate_abs(ws)[j]);
            } else {
                assert(ws[ws.len() - 1] == gate_abs(ws)[j]);
            }
        }
    }
}

proof fn lemma_gate_both_nonempty(ws: Seq<u64>, s1: int, c1: int)
    requires
        exists|i: int|
            0 <= i < ws.len() && abs_pass(#[trigger] ws[i]) && rel_pass(ws[i], s1, c1),
    ensures
        gate_both(ws, s1, c1).len() > 0,
    decreases ws.len(),
{
    let i = choose|i: int|
        0 <= i < ws.len() && abs_pass(#[trigger] ws[i]) && rel_pass(ws[i], s1, c1);
    if i < ws.len() - 1 {
        assert(ws.drop_last()[i] == ws[i]);
        lemma_gate_both_nonempty(ws.drop_last(), s1, c1);
    }
}

/// Whenever at least one window passes the absolute gate, at least one
/// window also passes the relative gate, so the final mean is taken over a
/// nonempty set: the floor value arises only from a fully sub-threshold
/// timeline.
pub proof fn lemma_gated_mean_nonempty(ws: Seq<u64>)
    requires
        gate_abs(ws).len() > 0,
    ensures
        spec_gated_mean(ws).1 > 0,
{
    let g1 = gate_abs(ws);
    let s1 = seq_sum(g1);
    let c1 = g1.len() as int;
    lemma_max_exists(g1);
    let j = choose|j: int| 0 <= j < g1.len() && #[trigger] is_max_at(g1, j);
    lemma_sum_le_len_times_bound(g1, g1[j]);
    assert(c1 * g1[j] == g1[j] * c1) by (nonlinear_arith);
    assert(g1[j] * 10 * c1 >= g1[j] * c1) by (nonlinear_arith)
        requires
            g1[j] >= 0,
            c1 >= 0,
    ;
    assert(rel_pass(g1[j], s1, c1));
    lemma_gate_abs_elements(ws);
    let i = choose|i: int| 0 <= i < ws.len() && ws[i] == g1[j];
    lemma_gate_both_nonempty(ws, s1, c1);
}

/// The loudness engine: accumulates the combined window timeline of every
/// measured track, so that the album figure can be taken over the whole
/// accumulated timeline.
#[derive(Debug, Clone)]
pub struct LoudnessAnalyzer {
    windows: Vec<u64>,
}

impl LoudnessAnalyzer {
    /// The accumulated album timeline.
    pub closed spec fn timeline(self) -> Seq<u64> {
        self.windows@
    }

    /// Every accumulated window is admissible.
    pub closed spec fn wf(self) -> bool {
        windows_ok(self.windows@)
    }

    /// A fresh engine with an empty album timeline.
    pub fn new() -> (r: Self)
        ensures
            r.wf(),
            r.timeline() == Seq::<u64>::empty(),
    {
        LoudnessAnalyzer { windows: Vec::new() }
    }

    /// Discards all accumulated state, returning to an empty timeline.
    pub fn reset(&mut self)
        ensures
            final(self).wf(),
            final(self).timeline() == Seq::<u64>::empty(),
    {
        *self = LoudnessAnalyzer::new();
    }

    /// Measures one track from its per-channel window timelines: requires
    /// exactly two channels, reduces them with equal weighting, takes the
    /// gated mean, and appends the combined timeline to the album timeline.
    pub fn calculate_track_loudness(&mut self, channels: &Vec<Vec<u64>>) -> (r: Result<
        Loudness,
        Error,
    >)
        requires
            old(self).wf(),
            forall|i: int| 0 <= i < channels@.len() ==> windows_ok((#[trigger] channels@[i])@),
            channels@.len() == 2 ==> channels@[0]@.len() == channels@[1]@.len(),
        ensures
            match r {
                Ok(l) => {
                    &&& channels@.len() == 2
                    &&& loudness_matches(
                        l,
                        spec_gated_mean(spec_reduce(channels@[0]@, channels@[1]@)),
                    )
                    &&& final(self).timeline() == old(self).timeline() + spec_reduce(
                        channels@[0]@,
                        channels@[1]@,
                    )
                    &&& final(self).wf()
                },
                Err(e) => {
                    &&& channels@.len() != 2
                    &&& (e matches Error::UnsupportedChannelLayout { channels: c } && c
                        == channels@.len())
                    &&& final(self).timeline() == old(self).timeline()
                    &&& final(self).wf()
                },
            },
    {
        if channels.len() != 2 {
            return Err(Error::UnsupportedChannelLayout { channels: channels.len() });
        }
        let mut combined = reduce_stereo(&channels[0], &channels[1]);
        let l = gated_mean(&combined);
        let ghost c = combined@;
        self.windows.append(&mut combined);
        proof {
            assert forall|i: int|
                0 <= i < self.windows@.len() implies window_ok(#[trigger] self.windows@[i]) by {
                if i < old(self).timeline().len() {
                    assert(old(self).timeline()[i] == self.windows@[i]);
                } else {
                    assert(self.windows@[i] == c[i - old(self).timeline().len()]);
                }
            }
        }
        Ok(l)
    }

    /// The integrated loudness of the whole accumulated album timeline.
    /// Idempotent: it may be invoked any number of times.
    pub fn calculate_album_loudness(&self) -> (l: Loudness)
        requires
            self.wf(),
        ensures
            loudness_matches(l, spec_gated_mean(self.timeline())),
    {
        gated_mean(&self.windows)
    }
}

} // verus!
