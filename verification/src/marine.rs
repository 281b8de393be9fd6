//! Salience detection on a one-dimensional signal.
//!
//! A scan gates the samples, finds the strict local maxima that survive the
//! gate, and scores each one from its energy, from how far its timing and
//! amplitude stray from running averages, from how well its interval fits a
//! table of harmonic ratios, and from a bonus for golden-ratio progressions
//! among the recent peaks. All quantities are fixed-point millionths.

use std::collections::VecDeque;
use vstd::prelude::*;
use crate::wave::{point_magnitude, WavePoint};
use crate::fixed::{
    abs, clamp_i64, clamp_u64, floor_div, fx_mul, magnitude, max, min, mul_fixed, saturate_i64,
    saturate_u64, floor_div_signed, UNIT, WIDE_LIMIT,
};

verus! {

/// Smoothing factor of both running averages: one eighth.
pub const EMA_ALPHA: i64 = 125_000;

/// Largest input a running average accepts: above every interval in
/// millionths and every sample magnitude.
pub const EMA_LIMIT: u128 = 0x1_0000_0000_0000_0000_0000_0;

/// Number of recent peaks kept for the golden-ratio bonus.
pub const RING_CAPACITY: usize = 32;

/// One detected peak.
#[derive(Debug, Clone, Copy)]
pub struct PeakInfo {
    /// Position of the local maximum in the scanned sequence.
    pub index: usize,
    /// Signed sample value at that position, after gating.
    pub amplitude: i64,
    /// Distance in samples from the previous accepted peak.
    pub interval: usize,
    /// Deviation of the interval from its running average, saturated.
    pub timing_jitter: u64,
    /// Deviation of the magnitude from its running average.
    pub amplitude_jitter: u64,
    /// Best fit of the interval to the harmonic table, between 0 and `UNIT`.
    pub harmonic_score: i64,
    /// Weighted score, saturated to 64 bits.
    pub salience: i64,
    /// Whether the salience exceeds the wonder threshold of the scan.
    pub has_wonder: bool,
}

/// Weights of the four salience terms.
#[derive(Debug, Clone, Copy)]
pub struct SalienceWeights {
    pub energy: i64,
    pub jitter: i64,
    pub harmonic: i64,
    pub wonder: i64,
}

impl Default for SalienceWeights {
    fn default() -> (w: Self)
        ensures
            w.energy == 400_000,
            w.jitter == 300_000,
            w.harmonic == 200_000,
            w.wonder == 100_000,
    {
        SalienceWeights { energy: 400_000, jitter: 300_000, harmonic: 200_000, wonder: 100_000 }
    }
}

/// The caller-visible parameters of a scan.
pub struct Tuning {
    pub clip: int,
    pub grid: int,
    pub weights: SalienceWeights,
    pub threshold: int,
}

/// What a detector carries from one peak to the next.
pub struct DetectorModel {
    pub timing_ema: int,
    pub amplitude_ema: int,
    pub recent: Seq<PeakInfo>,
}

/// The default parameters of a detector.
pub open spec fn default_tuning() -> Tuning {
    Tuning {
        clip: 100_000,
        grid: 100_000_000,
        weights: SalienceWeights {
            energy: 400_000,
            jitter: 300_000,
            harmonic: 200_000,
            wonder: 100_000,
        },
        threshold: 800_000,
    }
}

/// The state of a fresh detector.
pub open spec fn fresh_model() -> DetectorModel {
    DetectorModel { timing_ema: 0, amplitude_ema: 0, recent: Seq::empty() }
}

/// The grid tick rate for audio at a sample rate: one 441st of it, rounded
/// towards zero, so that 44.1 kHz gives 100.
pub open spec fn grid_of(rate: i64) -> int {
    if rate >= 0 {
        rate as int / 441
    } else {
        -((-(rate as int)) / 441)
    }
}

/// A gated sample: values whose magnitude is under the clip threshold count
/// as zero.
pub open spec fn gate(x: int, clip: int) -> int {
    if abs(x) < clip {
        0
    } else {
        x
    }
}

/// Whether position `i` holds a strict local maximum of the gated samples
/// that is not zero.
pub open spec fn is_peak(s: Seq<i64>, clip: int, i: int) -> bool {
    &&& 1 <= i < s.len() - 1
    &&& gate(s[i - 1] as int, clip) < gate(s[i] as int, clip)
    &&& gate(s[i] as int, clip) > gate(s[i + 1] as int, clip)
    &&& gate(s[i] as int, clip) != 0
}

/// One step of an exponential moving average with smoothing factor `alpha`.
pub open spec fn ema_next(value: int, alpha: int, x: int) -> int {
    (alpha * x + (UNIT - alpha) * value) / (UNIT as int)
}

/// How well `interval / grid`, divided by the ratio `h`, sits on a whole
/// number: `UNIT` on it, `UNIT / 2` halfway between two.
pub open spec fn ratio_score(interval: int, grid: int, h: int) -> int {
    let d = grid * h;
    let r = (interval * UNIT * UNIT) % d;
    ((d - min(r, d - r)) * UNIT) / d
}

/// Best `ratio_score` over the harmonic table; 0 without a positive grid.
pub open spec fn harmonic_alignment(interval: int, grid: int) -> int {
    if grid <= 0 {
        0
    } else {
        max(
            max(
                max(ratio_score(interval, grid, 1_000_000), ratio_score(interval, grid, 2_000_000)),
                max(ratio_score(interval, grid, 1_500_000), ratio_score(interval, grid, 1_333_000)),
            ),
            max(ratio_score(interval, grid, 1_250_000), ratio_score(interval, grid, 1_618_000)),
        )
    }
}

/// The inverse-jitter term: `1 / (1 + timing jitter + amplitude jitter)`.
pub open spec fn jitter_score(timing_jitter: int, amplitude_jitter: int) -> int {
    (UNIT * UNIT) / (UNIT + timing_jitter + amplitude_jitter)
}

/// Whether `next / prev` lies within 0.1 of 1.618.
pub open spec fn is_golden(prev: int, next: int) -> bool {
    1518 * prev < 1000 * next && 1000 * next < 1718 * prev
}

/// Number of positions `j` with `1 <= j < n` whose interval is in golden
/// ratio to the one before.
pub open spec fn golden_count(recent: Seq<PeakInfo>, n: int) -> int
    decreases n,
{
    if n <= 1 {
        0
    } else {
        golden_count(recent, n - 1) + if is_golden(
            recent[n - 2].interval as int,
            recent[n - 1].interval as int,
        ) {
            1int
        } else {
            0int
        }
    }
}

/// Half the share of golden steps among the recent peaks, once there are
/// three of them.
pub open spec fn golden_bonus(recent: Seq<PeakInfo>) -> int {
    if recent.len() >= 3 {
        (golden_count(recent, recent.len() as int) * UNIT) / (2 * (recent.len() as int))
    } else {
        0
    }
}

/// The wonder term: energy damped by jitter, plus the golden bonus.
pub open spec fn wonder_factor(energy: int, jitter: int, recent: Seq<PeakInfo>) -> int {
    fx_mul(energy, jitter) + golden_bonus(recent)
}

/// The weighted salience of a peak, before saturation.
pub open spec fn salience_score(
    w: SalienceWeights,
    energy: int,
    timing_jitter: int,
    amplitude_jitter: int,
    harmonic: int,
    recent: Seq<PeakInfo>,
) -> int {
    let js = jitter_score(timing_jitter, amplitude_jitter);
    fx_mul(w.energy as int, energy) + fx_mul(w.jitter as int, js) + fx_mul(
        w.harmonic as int,
        harmonic,
    ) + fx_mul(w.wonder as int, wonder_factor(energy, js, recent))
}

/// The record of a peak at position `i` with gated value `sample`, when the
/// previous peak was at `last` and the detector was in state `m`.
pub open spec fn peak_record(t: Tuning, m: DetectorModel, last: int, i: int, sample: int) -> PeakInfo {
    let interval = i - last;
    let energy = abs(sample);
    let timing = ema_next(m.timing_ema, EMA_ALPHA as int, interval * UNIT);
    let level = ema_next(m.amplitude_ema, EMA_ALPHA as int, energy);
    let tj = abs(interval * UNIT - timing);
    let aj = abs(energy - level);
    let h = harmonic_alignment(interval, t.grid);
    let s = clamp_i64(salience_score(t.weights, energy, tj, aj, h, m.recent));
    PeakInfo {
        index: i as usize,
        amplitude: sample as i64,
        interval: interval as usize,
        timing_jitter: clamp_u64(tj) as u64,
        amplitude_jitter: aj as u64,
        harmonic_score: h as i64,
        salience: s as i64,
        has_wonder: s > t.threshold,
    }
}

/// The recent peaks after `p` joins them: the oldest leaves a full ring.
pub open spec fn ring_push(recent: Seq<PeakInfo>, p: PeakInfo) -> Seq<PeakInfo> {
    if recent.len() >= RING_CAPACITY {
        recent.subrange(1, recent.len() as int).push(p)
    } else {
        recent.push(p)
    }
}

/// The detector state after the peak described by `peak_record`.
pub open spec fn model_after(t: Tuning, m: DetectorModel, last: int, i: int, sample: int) -> DetectorModel {
    DetectorModel {
        timing_ema: ema_next(m.timing_ema, EMA_ALPHA as int, (i - last) * UNIT),
        amplitude_ema: ema_next(m.amplitude_ema, EMA_ALPHA as int, abs(sample)),
        recent: ring_push(m.recent, peak_record(t, m, last, i, sample)),
    }
}

/// Progress of a scan: detector state, position of the last peak, and the
/// peaks found so far.
pub struct ScanState {
    pub model: DetectorModel,
    pub last: int,
    pub peaks: Seq<PeakInfo>,
}

/// The scan after every position below `k` has been examined.
pub open spec fn scan_prefix(t: Tuning, m0: DetectorModel, s: Seq<i64>, k: int) -> ScanState
    decreases k,
{
    if k <= 1 {
        ScanState { model: m0, last: 0, peaks: Seq::empty() }
    } else {
        let before = scan_prefix(t, m0, s, k - 1);
        let i = k - 1;
        if is_peak(s, t.clip, i) {
            let g = gate(s[i] as int, t.clip);
            ScanState {
                model: model_after(t, before.model, before.last, i, g),
                last: i,
                peaks: before.peaks.push(peak_record(t, before.model, before.last, i, g)),
            }
        } else {
            before
        }
    }
}

/// The whole scan of `s`: positions 1 to `s.len() - 2` are candidates.
pub open spec fn scan(t: Tuning, m0: DetectorModel, s: Seq<i64>) -> ScanState {
    scan_prefix(t, m0, s, s.len() - 1)
}

/// The position of the peak before peak `j`; 0 before the first.
pub open spec fn previous_position(peaks: Seq<PeakInfo>, j: int) -> int {
    if j <= 0 {
        0
    } else {
        peaks[j - 1].index as int
    }
}

/// A ratio score lies between a half and one.
pub proof fn lemma_ratio_score_bounds(interval: int, grid: int, h: int)
    requires
        0 <= interval,
        0 < grid,
        0 < h,
    ensures
        UNIT / 2 <= ratio_score(interval, grid, h) <= UNIT,
{
    let d = grid * h;
    assert(d > 0) by (nonlinear_arith)
        requires
            d == grid * h,
            grid > 0,
            h > 0,
    ;
    let n = interval * UNIT * UNIT;
    let r = n % d;
    vstd::arithmetic::div_mod::lemma_mod_bound(n, d);
    let m = min(r, d - r);
    assert(0 <= m && 2 * m <= d);
    let num = (d - m) * UNIT;
    assert(d * 500_000 <= num <= d * 1_000_000) by (nonlinear_arith)
        requires
            num == (d - m) * 1_000_000,
            0 <= m,
            2 * m <= d,
    ;
    assert(500_000 <= num / d <= 1_000_000) by (nonlinear_arith)
        requires
            d > 0,
            d * 500_000 <= num <= d * 1_000_000,
    ;
}

/// The harmonic alignment lies between 0 and one.
pub proof fn lemma_harmonic_alignment_bounds(interval: int, grid: int)
    requires
        0 <= interval,
    ensures
        0 <= harmonic_alignment(interval, grid) <= UNIT,
        grid > 0 ==> harmonic_alignment(interval, grid) >= UNIT / 2,
{
    if grid > 0 {
        lemma_ratio_score_bounds(interval, grid, 1_000_000);
        lemma_ratio_score_bounds(interval, grid, 2_000_000);
        lemma_ratio_score_bounds(interval, grid, 1_500_000);
        lemma_ratio_score_bounds(interval, grid, 1_333_000);
        lemma_ratio_score_bounds(interval, grid, 1_250_000);
        lemma_ratio_score_bounds(interval, grid, 1_618_000);
    }
}

/// The jitter score lies between 0 and one: its denominator is at least
/// one.
pub proof fn lemma_jitter_score_bounds(timing_jitter: int, amplitude_jitter: int)
    requires
        0 <= timing_jitter,
        0 <= amplitude_jitter,
    ensures
        0 <= jitter_score(timing_jitter, amplitude_jitter) <= UNIT,
{
    let den = UNIT + timing_jitter + amplitude_jitter;
    assert(0 <= (1_000_000int * 1_000_000int) / den <= 1_000_000) by (nonlinear_arith)
        requires
            den >= 1_000_000,
    ;
}

/// Whether the records `peaks` sit exactly on the peak positions of `s`
/// below `k`, in ascending order, each marked according to the threshold.
pub open spec fn peaks_match_positions(t: Tuning, s: Seq<i64>, k: int, peaks: Seq<PeakInfo>) -> bool {
    &&& forall|j: int|
        0 <= j < peaks.len() ==> {
            &&& is_peak(s, t.clip, (#[trigger] peaks[j]).index as int)
            &&& peaks[j].index < k
            &&& peaks[j].amplitude == gate(s[peaks[j].index as int] as int, t.clip)
            &&& peaks[j].has_wonder == (peaks[j].salience > t.threshold)
            &&& peaks[j].interval == peaks[j].index - previous_position(peaks, j)
            &&& 0 <= peaks[j].harmonic_score <= UNIT
        }
    &&& forall|a: int, b: int|
        0 <= a < b < peaks.len() ==> (#[trigger] peaks[a]).index < (#[trigger] peaks[b]).index
    &&& forall|i: int|
        1 <= i < k && #[trigger] is_peak(s, t.clip, i) ==> exists|j: int|
            0 <= j < peaks.len() && (#[trigger] peaks[j]).index == i
}

/// A scan finds every peak position and nothing else: its records sit on
/// the strict local maxima of the gated samples, in ascending order, and
/// each is marked exactly when its salience exceeds the threshold.
pub proof fn lemma_scan_positions(t: Tuning, m0: DetectorModel, s: Seq<i64>, k: int)
    requires
        s.len() <= usize::MAX,
    ensures
        peaks_match_positions(t, s, k, scan_prefix(t, m0, s, k).peaks),
        0 <= scan_prefix(t, m0, s, k).last < max(k, 1),
        scan_prefix(t, m0, s, k).last == previous_position(
            scan_prefix(t, m0, s, k).peaks,
            scan_prefix(t, m0, s, k).peaks.len() as int,
        ),
    decreases k,
{
    if k > 1 {
        lemma_scan_positions(t, m0, s, k - 1);
        let before = scan_prefix(t, m0, s, k - 1);
        let after = scan_prefix(t, m0, s, k);
        let i = k - 1;
        if is_peak(s, t.clip, i) {
            let g = gate(s[i] as int, t.clip);
            let p = peak_record(t, before.model, before.last, i, g);
            assert(after.peaks == before.peaks.push(p));
            assert(p.index == i);
            assert(p.amplitude == g);
            assert forall|a: int, b: int| 0 <= a < b < after.peaks.len() implies (
            #[trigger] after.peaks[a]).index < (#[trigger] after.peaks[b]).index by {
                if b < before.peaks.len() {
                    assert(after.peaks[a] == before.peaks[a]);
                    assert(after.peaks[b] == before.peaks[b]);
                } else {
                    assert(after.peaks[a] == before.peaks[a]);
                }
            }
            assert forall|x: int| 1 <= x < k && #[trigger] is_peak(s, t.clip, x) implies exists|
                j: int,
            |
                0 <= j < after.peaks.len() && (#[trigger] after.peaks[j]).index == x by {
                if x < k - 1 {
                    let j = choose|j: int|
                        0 <= j < before.peaks.len() && (#[trigger] before.peaks[j]).index == x;
                    assert(after.peaks[j] == before.peaks[j]);
                } else {
                    assert(after.peaks[before.peaks.len() as int].index == x);
                }
            }
            lemma_harmonic_alignment_bounds(i - before.last, t.grid);
            assert forall|j: int| 0 <= j < after.peaks.len() implies {
                &&& is_peak(s, t.clip, (#[trigger] after.peaks[j]).index as int)
                &&& after.peaks[j].index < k
                &&& after.peaks[j].amplitude == gate(s[after.peaks[j].index as int] as int, t.clip)
                &&& after.peaks[j].has_wonder == (after.peaks[j].salience > t.threshold)
                &&& after.peaks[j].interval == after.peaks[j].index - previous_position(
                    after.peaks,
                    j,
                )
                &&& 0 <= after.peaks[j].harmonic_score <= UNIT
            } by {
                if j < before.peaks.len() {
                    assert(after.peaks[j] == before.peaks[j]);
                    if j > 0 {
                        assert(after.peaks[j - 1] == before.peaks[j - 1]);
                    }
                } else {
                    if j > 0 {
                        assert(after.peaks[j - 1] == before.peaks[j - 1]);
                    }
                    assert(after.peaks[j] == p);
                    assert(before.last == previous_position(after.peaks, j));
                }
            }
        } else {
            assert(after == before);
        }
    }
}

/// Raising the threshold never raises the number of peaks above it.
pub proof fn lemma_count_above_monotone(peaks: Seq<PeakInfo>, n: int, low: int, high: int)
    requires
        low <= high,
    ensures
        count_above(peaks, n, high) <= count_above(peaks, n, low),
    decreases n,
{
    if n > 0 {
        lemma_count_above_monotone(peaks, n - 1, low, high);
    }
}

/// Where every mark says whether the salience exceeds `threshold`, the
/// marked peaks are the peaks above `threshold`.
pub proof fn lemma_wonder_count_is_count_above(peaks: Seq<PeakInfo>, n: int, threshold: int)
    requires
        n <= peaks.len(),
        forall|j: int|
            0 <= j < peaks.len() ==> (#[trigger] peaks[j]).has_wonder == (peaks[j].salience
                > threshold),
    ensures
        wonder_count(peaks, n) == count_above(peaks, n, threshold),
    decreases n,
{
    if n > 0 {
        lemma_wonder_count_is_count_above(peaks, n - 1, threshold);
    }
}

/// Whether two records agree in everything but the mark.
pub open spec fn same_but_mark(a: PeakInfo, b: PeakInfo) -> bool {
    &&& a.index == b.index
    &&& a.amplitude == b.amplitude
    &&& a.interval == b.interval
    &&& a.timing_jitter == b.timing_jitter
    &&& a.amplitude_jitter == b.amplitude_jitter
    &&& a.harmonic_score == b.harmonic_score
    &&& a.salience == b.salience
}

/// Whether two record sequences agree in everything but the marks.
pub open spec fn same_but_marks(a: Seq<PeakInfo>, b: Seq<PeakInfo>) -> bool {
    &&& a.len() == b.len()
    &&& forall|j: int| 0 <= j < a.len() ==> same_but_mark(#[trigger] a[j], b[j])
}

/// Whether two detector states agree in everything but the marks of their
/// recent peaks.
pub open spec fn same_but_marks_model(a: DetectorModel, b: DetectorModel) -> bool {
    &&& a.timing_ema == b.timing_ema
    &&& a.amplitude_ema == b.amplitude_ema
    &&& same_but_marks(a.recent, b.recent)
}

/// The tuning `t` with another wonder threshold.
pub open spec fn with_threshold(t: Tuning, threshold: int) -> Tuning {
    Tuning { clip: t.clip, grid: t.grid, weights: t.weights, threshold }
}

/// The golden steps depend on the intervals alone.
pub proof fn lemma_golden_count_ignores_marks(a: Seq<PeakInfo>, b: Seq<PeakInfo>, n: int)
    requires
        same_but_marks(a, b),
        n <= a.len(),
    ensures
        golden_count(a, n) == golden_count(b, n),
    decreases n,
{
    if n > 1 {
        lemma_golden_count_ignores_marks(a, b, n - 1);
        assert(same_but_mark(a[n - 2], b[n - 2]));
        assert(same_but_mark(a[n - 1], b[n - 1]));
    }
}

/// The peaks above a threshold depend on the saliences alone.
pub proof fn lemma_count_above_ignores_marks(
    a: Seq<PeakInfo>,
    b: Seq<PeakInfo>,
    n: int,
    threshold: int,
)
    requires
        same_but_marks(a, b),
        n <= a.len(),
    ensures
        count_above(a, n, threshold) == count_above(b, n, threshold),
    decreases n,
{
    if n > 0 {
        lemma_count_above_ignores_marks(a, b, n - 1, threshold);
        assert(same_but_mark(a[n - 1], b[n - 1]));
    }
}

/// The threshold decides the marks and nothing else: two scans of the same
/// samples that differ in the threshold alone find the same peaks with the
/// same scores, and leave the detector in the same state, marks aside.
pub proof fn lemma_scan_ignores_threshold(
    t: Tuning,
    other: int,
    m1: DetectorModel,
    m2: DetectorModel,
    s: Seq<i64>,
    k: int,
)
    requires
        same_but_marks_model(m1, m2),
    ensures
        same_but_marks(
            scan_prefix(t, m1, s, k).peaks,
            scan_prefix(with_threshold(t, other), m2, s, k).peaks,
        ),
        same_but_marks_model(
            scan_prefix(t, m1, s, k).model,
            scan_prefix(with_threshold(t, other), m2, s, k).model,
        ),
        scan_prefix(t, m1, s, k).last == scan_prefix(with_threshold(t, other), m2, s, k).last,
    decreases k,
{
    let t2 = with_threshold(t, other);
    if k > 1 {
        lemma_scan_ignores_threshold(t, other, m1, m2, s, k - 1);
        let b1 = scan_prefix(t, m1, s, k - 1);
        let b2 = scan_prefix(t2, m2, s, k - 1);
        let a1 = scan_prefix(t, m1, s, k);
        let a2 = scan_prefix(t2, m2, s, k);
        let i = k - 1;
        if is_peak(s, t.clip, i) {
            let g = gate(s[i] as int, t.clip);
            let pa = peak_record(t, b1.model, b1.last, i, g);
            let pb = peak_record(t2, b2.model, b2.last, i, g);
            lemma_golden_count_ignores_marks(
                b1.model.recent,
                b2.model.recent,
                b1.model.recent.len() as int,
            );
            assert(golden_bonus(b1.model.recent) == golden_bonus(b2.model.recent));
            assert(same_but_mark(pa, pb));
            assert(a1.peaks == b1.peaks.push(pa));
            assert(a2.peaks == b2.peaks.push(pb));
            assert forall|j: int| 0 <= j < a1.peaks.len() implies same_but_mark(
                #[trigger] a1.peaks[j],
                a2.peaks[j],
            ) by {
                if j < b1.peaks.len() {
                    assert(same_but_mark(b1.peaks[j], b2.peaks[j]));
                }
            }
            let r1 = ring_push(b1.model.recent, pa);
            let r2 = ring_push(b2.model.recent, pb);
            assert forall|j: int| 0 <= j < r1.len() implies same_but_mark(#[trigger] r1[j], r2[j]) by {
                if b1.model.recent.len() >= RING_CAPACITY {
                    if j < r1.len() - 1 {
                        assert(same_but_mark(b1.model.recent[j + 1], b2.model.recent[j + 1]));
                    }
                } else {
                    if j < r1.len() - 1 {
                        assert(same_but_mark(b1.model.recent[j], b2.model.recent[j]));
                    }
                }
            }
        }
    } else {
        assert(scan_prefix(t, m1, s, k).peaks =~= scan_prefix(t2, m2, s, k).peaks);
    }
}

/// Raising the wonder threshold never raises the number of marked peaks:
/// of two scans of the same samples from the same state, the one with the
/// higher threshold marks no more peaks than the other.
pub proof fn lemma_threshold_monotone(t: Tuning, higher: int, m0: DetectorModel, s: Seq<i64>)
    requires
        t.threshold <= higher,
        s.len() <= usize::MAX,
    ensures
        wonder_count(
            scan(with_threshold(t, higher), m0, s).peaks,
            scan(with_threshold(t, higher), m0, s).peaks.len() as int,
        ) <= wonder_count(scan(t, m0, s).peaks, scan(t, m0, s).peaks.len() as int),
{
    let t2 = with_threshold(t, higher);
    let k = s.len() - 1;
    let low = scan_prefix(t, m0, s, k).peaks;
    let high = scan_prefix(t2, m0, s, k).peaks;
    assert(same_but_marks(m0.recent, m0.recent));
    lemma_scan_ignores_threshold(t, higher, m0, m0, s, k);
    lemma_scan_positions(t, m0, s, k);
    lemma_scan_positions(t2, m0, s, k);
    lemma_wonder_count_is_count_above(low, low.len() as int, t.threshold);
    lemma_wonder_count_is_count_above(high, high.len() as int, higher);
    lemma_count_above_ignores_marks(low, high, low.len() as int, higher);
    lemma_count_above_monotone(low, low.len() as int, t.threshold, higher);
}

/// The signal that a wave gives the detector: the magnitude of each point.
pub open spec fn magnitudes(waves: Seq<WavePoint>) -> Seq<i64> {
    Seq::new(waves.len(), |i: int| point_magnitude(waves[i]))
}

/// Running average with a fixed smoothing factor.
struct ExponentialMovingAverage {
    value: u128,
    alpha: i64,
}

impl ExponentialMovingAverage {
    #[verifier::type_invariant]
    spec fn well_formed(self) -> bool {
        &&& 0 <= self.alpha <= UNIT
        &&& self.value <= EMA_LIMIT
    }

    /// The current average.
    closed spec fn value(self) -> int {
        self.value as int
    }

    /// The smoothing factor.
    closed spec fn alpha(self) -> int {
        self.alpha as int
    }

    /// An average at zero. A smoothing factor outside 0..=`UNIT` is pulled
    /// to the nearer end.
    fn new(alpha: i64) -> (e: Self)
        ensures
            e.value() == 0,
            e.alpha() == max(0, min(alpha as int, UNIT as int)),
    {
        let a: i64 = if alpha < 0 {
            0
        } else if alpha > UNIT {
            UNIT
        } else {
            alpha
        };
        ExponentialMovingAverage { value: 0, alpha: a }
    }

    /// Folds `x` into the average and returns the new average.
    fn update(&mut self, x: u128) -> (v: u128)
        requires
            x <= EMA_LIMIT,
        ensures
            final(self).value() == ema_next(old(self).value(), old(self).alpha(), x as int),
            final(self).alpha() == old(self).alpha(),
            v == final(self).value(),
            v <= max(old(self).value(), x as int),
    {
        proof {
            use_type_invariant(&*self);
        }
        let a: u128 = self.alpha as u128;
        let b: u128 = (UNIT - self.alpha) as u128;
        let old_value: u128 = self.value;
        assert(a * x + b * old_value <= 1_000_000 * 0x1_0000_0000_0000_0000_0000_0) by (nonlinear_arith)
            requires
                a + b == 1_000_000,
                x <= 0x1_0000_0000_0000_0000_0000_0,
                old_value <= 0x1_0000_0000_0000_0000_0000_0,
        ;
        assert(a * x <= 1_000_000 * 0x1_0000_0000_0000_0000_0000_0) by (nonlinear_arith)
            requires
                a <= 1_000_000,
                x <= 0x1_0000_0000_0000_0000_0000_0,
        ;
        assert(b * old_value <= 1_000_000 * 0x1_0000_0000_0000_0000_0000_0) by (nonlinear_arith)
            requires
                b <= 1_000_000,
                old_value <= 0x1_0000_0000_0000_0000_0000_0,
        ;
        let num: u128 = a * x + b * old_value;
        let next: u128 = num / (UNIT as u128);
        let ghost top: int = max(old_value as int, x as int);
        assert(num <= 1_000_000 * top) by (nonlinear_arith)
            requires
                num == a * x + b * old_value,
                a + b == 1_000_000,
                x <= top,
                old_value <= top,
        ;
        assert(next <= top) by (nonlinear_arith)
            requires
                next == num / 1_000_000,
                num <= 1_000_000 * top,
        ;
        self.value = next;
        next
    }
}


/// Distance between two unsigned values.
fn distance(a: u128, b: u128) -> (d: u128)
    ensures
        d == abs(a as int - b as int),
{
    if a >= b {
        a - b
    } else {
        b - a
    }
}

/// Executable `gate`.
fn gate_sample(x: i64, clip: i64) -> (g: i64)
    ensures
        g == gate(x as int, clip as int),
{
    if clip > 0 && magnitude(x) < clip as u128 {
        0
    } else {
        x
    }
}

/// Executable `ratio_score`.
fn ratio_score_of(interval: usize, grid: i64, h: i64) -> (r: i64)
    requires
        grid > 0,
        1_000_000 <= h <= 2_000_000,
    ensures
        r == ratio_score(interval as int, grid as int, h as int),
        0 <= r <= UNIT,
{
    let g: u128 = grid as u128;
    let hh: u128 = h as u128;
    assert(0 < g * hh <= 0x8000_0000_0000_0000 * 2_000_000) by (nonlinear_arith)
        requires
            0 < g <= 0x8000_0000_0000_0000,
            1_000_000 <= hh <= 2_000_000,
    ;
    let d: u128 = g * hh;
    let n: u128 = (interval as u128) * 1_000_000_000_000;
    assert(n as int == (interval as int) * UNIT * UNIT) by (nonlinear_arith)
        requires
            n as int == (interval as int) * 1_000_000_000_000,
            UNIT == 1_000_000,
    ;
    let r: u128 = n % d;
    let m: u128 = if r <= d - r {
        r
    } else {
        d - r
    };
    assert(m as int == min(r as int, d as int - r as int));
    assert((d - m) * 1_000_000 <= d * 1_000_000) by (nonlinear_arith)
        requires
            m <= d,
    ;
    let num: u128 = (d - m) * 1_000_000;
    let q: u128 = num / d;
    assert(q <= 1_000_000) by (nonlinear_arith)
        requires
            q == num / d,
            d > 0,
            num <= d * 1_000_000,
    ;
    q as i64
}

/// Executable `jitter_score`.
fn jitter_score_of(timing_jitter: u128, amplitude_jitter: u128) -> (j: u128)
    requires
        timing_jitter <= EMA_LIMIT,
        amplitude_jitter <= EMA_LIMIT,
    ensures
        j == jitter_score(timing_jitter as int, amplitude_jitter as int),
        j <= UNIT,
{
    let den: u128 = 1_000_000 + timing_jitter + amplitude_jitter;
    let j: u128 = 1_000_000_000_000 / den;
    assert(j <= 1_000_000) by (nonlinear_arith)
        requires
            j == 1_000_000_000_000u128 / den,
            den >= 1_000_000,
    ;
    j
}

/// Executable `golden_bonus`.
fn golden_bonus_of(recent: &VecDeque<PeakInfo>) -> (b: u128)
    ensures
        b == golden_bonus(recent@),
        b <= UNIT / 2,
{
    let n: usize = recent.len();
    if n < 3 {
        return 0;
    }
    let mut count: u128 = 0;
    let mut j: usize = 1;
    while j < n
        invariant
            1 <= j <= n,
            n == recent@.len(),
            count == golden_count(recent@, j as int),
            count <= j - 1,
        decreases n - j,
    {
        let prev: u128 = recent[j - 1].interval as u128;
        let next: u128 = recent[j].interval as u128;
        if 1518 * prev < 1000 * next && 1000 * next < 1718 * prev {
            count = count + 1;
        }
        j = j + 1;
    }
    let num: u128 = count * 1_000_000;
    let den: u128 = 2 * (n as u128);
    let b: u128 = num / den;
    assert(b <= 500_000) by (nonlinear_arith)
        requires
            b == num / den,
            num == count * 1_000_000,
            den == 2 * n,
            count <= n,
            n >= 3,
    ;
    b
}

/// The mutable part of a detector: both running averages and the ring of
/// recent peaks.
pub struct DetectorState {
    timing_ema: ExponentialMovingAverage,
    amplitude_ema: ExponentialMovingAverage,
    recent_peaks: VecDeque<PeakInfo>,
}

impl DetectorState {
    /// Both averages smooth by `EMA_ALPHA` and are within their ranges, and
    /// the ring holds at most `RING_CAPACITY` peaks.
    #[verifier::type_invariant]
    spec fn well_formed(self) -> bool {
        &&& self.timing_ema.alpha() == EMA_ALPHA
        &&& self.amplitude_ema.alpha() == EMA_ALPHA
        &&& self.timing_ema.value() <= EMA_LIMIT
        &&& self.amplitude_ema.value() <= 0x8000_0000_0000_0000
        &&& self.recent_peaks@.len() <= RING_CAPACITY
    }

    /// The state as a mathematical value.
    pub closed spec fn model(self) -> DetectorModel {
        DetectorModel {
            timing_ema: self.timing_ema.value(),
            amplitude_ema: self.amplitude_ema.value(),
            recent: self.recent_peaks@,
        }
    }

    /// A fresh state: both averages at zero, no recent peak.
    pub fn new() -> (s: Self)
        ensures
            s.model() == fresh_model(),
    {
        DetectorState {
            timing_ema: ExponentialMovingAverage::new(EMA_ALPHA),
            amplitude_ema: ExponentialMovingAverage::new(EMA_ALPHA),
            recent_peaks: VecDeque::with_capacity(RING_CAPACITY),
        }
    }

    /// A fresh state that allocates nothing, to stand in while the real one
    /// is being worked on.
    fn idle() -> (s: Self)
        ensures
            s.model() == fresh_model(),
    {
        DetectorState {
            timing_ema: ExponentialMovingAverage::new(EMA_ALPHA),
            amplitude_ema: ExponentialMovingAverage::new(EMA_ALPHA),
            recent_peaks: VecDeque::new(),
        }
    }
}

/// Streaming peak detector. One instance serves one analysis stream: its
/// running averages and recent peaks carry over from scan to scan.
pub struct MarineProcessor {
    /// Samples with a magnitude under this value count as zero.
    pub clip_threshold: i64,
    /// Rate against which intervals are measured for harmonic alignment.
    pub grid_tick_rate: i64,
    /// Weights of the four salience terms.
    pub weights: SalienceWeights,
    /// A peak is marked when its salience exceeds this value.
    pub wonder_threshold: i64,
    /// Running averages and recent peaks, carried from scan to scan.
    pub state: DetectorState,
}

impl MarineProcessor {
    /// The parameters as mathematical values.
    pub open spec fn tuning(&self) -> Tuning {
        Tuning {
            clip: self.clip_threshold as int,
            grid: self.grid_tick_rate as int,
            weights: self.weights,
            threshold: self.wonder_threshold as int,
        }
    }

    /// The carried state as a mathematical value.
    pub open spec fn model(&self) -> DetectorModel {
        self.state.model()
    }

    /// A detector with the default parameters and a fresh state.
    pub fn new() -> (p: Self)
        ensures
            p.tuning() == default_tuning(),
            p.model() == fresh_model(),
    {
        MarineProcessor {
            clip_threshold: 100_000,
            grid_tick_rate: 100_000_000,
            weights: SalienceWeights::default(),
            wonder_threshold: 800_000,
            state: DetectorState::new(),
        }
    }

    /// Best fit of `interval` to the harmonic table.
    fn calculate_harmonic_alignment(&self, interval: usize) -> (h: i64)
        ensures
            h == harmonic_alignment(interval as int, self.grid_tick_rate as int),
            0 <= h <= UNIT,
    {
        let grid: i64 = self.grid_tick_rate;
        if grid <= 0 {
            return 0;
        }
        let a: i64 = ratio_score_of(interval, grid, 1_000_000);
        let b: i64 = ratio_score_of(interval, grid, 2_000_000);
        let c: i64 = ratio_score_of(interval, grid, 1_500_000);
        let d: i64 = ratio_score_of(interval, grid, 1_333_000);
        let e: i64 = ratio_score_of(interval, grid, 1_250_000);
        let f: i64 = ratio_score_of(interval, grid, 1_618_000);
        let ab: i64 = if a >= b { a } else { b };
        let cd: i64 = if c >= d { c } else { d };
        let ef: i64 = if e >= f { e } else { f };
        let abcd: i64 = if ab >= cd { ab } else { cd };
        if abcd >= ef {
            abcd
        } else {
            ef
        }
    }

    /// The wonder term for a peak of the given energy and jitter score.
    fn calculate_wonder_factor(
        &self,
        energy: u128,
        jitter: u128,
        recent: &VecDeque<PeakInfo>,
    ) -> (w: u128)
        requires
            energy <= 0x8000_0000_0000_0000,
            jitter <= UNIT,
        ensures
            w == wonder_factor(energy as int, jitter as int, recent@),
            w <= WIDE_LIMIT,
    {
        assert(energy * jitter <= energy * 1_000_000 <= 0x8000_0000_0000_0000 * 1_000_000)
            by (nonlinear_arith)
            requires
                energy <= 0x8000_0000_0000_0000,
                jitter <= 1_000_000,
        ;
        let power: u128 = (energy * jitter) / 1_000_000;
        assert(power <= energy) by (nonlinear_arith)
            requires
                power == (energy * jitter) / 1_000_000,
                energy * jitter <= energy * 1_000_000,
        ;
        let golden: u128 = golden_bonus_of(recent);
        power + golden
    }

    /// The weighted salience, before saturation.
    fn calculate_salience(
        &self,
        energy: u128,
        timing_jitter: u128,
        amplitude_jitter: u128,
        harmonic: i64,
        recent: &VecDeque<PeakInfo>,
    ) -> (s: i128)
        requires
            energy <= 0x8000_0000_0000_0000,
            timing_jitter <= EMA_LIMIT,
            amplitude_jitter <= EMA_LIMIT,
            0 <= harmonic <= UNIT,
        ensures
            s == salience_score(
                self.weights,
                energy as int,
                timing_jitter as int,
                amplitude_jitter as int,
                harmonic as int,
                recent@,
            ),
    {
        let js: u128 = jitter_score_of(timing_jitter, amplitude_jitter);
        let wonder: u128 = self.calculate_wonder_factor(energy, js, recent);
        let e: i128 = mul_fixed(self.weights.energy, energy);
        let j: i128 = mul_fixed(self.weights.jitter, js);
        let h: i128 = mul_fixed(self.weights.harmonic, harmonic as u128);
        let w: i128 = mul_fixed(self.weights.wonder, wonder);
        e + j + h + w
    }

    /// A detector tuned for audio at `sample_rate` (in millionths of a
    /// hertz): the grid is `sample_rate / 441`, rounded towards zero, the
    /// clip threshold 0.05 and the wonder threshold 0.7.
    pub fn for_audio(sample_rate: i64) -> (p: Self)
        ensures
            p.grid_tick_rate == grid_of(sample_rate),
            p.clip_threshold == 50_000,
            p.wonder_threshold == 700_000,
            p.weights == default_tuning().weights,
            p.model() == fresh_model(),
    {
        let mut processor = Self::new();
        let grid: i64 = if sample_rate >= 0 {
            sample_rate / 441
        } else {
            let m: u128 = magnitude(sample_rate);
            let q: u128 = m / 441;
            -(q as i64)
        };
        processor.grid_tick_rate = grid;
        processor.clip_threshold = 50_000;
        processor.wonder_threshold = 700_000;
        processor
    }

    /// Scans `samples` for salient peaks.
    ///
    /// The peaks come out in ascending position; each is the record that
    /// `peak_record` describes for the state the detector was in when the
    /// scan reached it. Fewer than three samples hold no candidate position,
    /// so the result is empty and the detector unchanged.
    pub fn process_samples(&mut self, samples: &[i64]) -> (peaks: Vec<PeakInfo>)
        ensures
            peaks@ == scan(old(self).tuning(), old(self).model(), samples@).peaks,
            final(self).model() == scan(old(self).tuning(), old(self).model(), samples@).model,
            final(self).tuning() == old(self).tuning(),
            samples@.len() < 3 ==> peaks@.len() == 0 && final(self).model() == old(self).model(),
            peaks_match_positions(old(self).tuning(), samples@, samples@.len() as int, peaks@),
            final(self).model().recent.len() <= RING_CAPACITY,
    {
        let ghost t = self.tuning();
        let ghost m0 = self.model();
        let ghost s = samples@;
        let mut peaks: Vec<PeakInfo> = Vec::new();
        let n: usize = samples.len();
        proof {
            lemma_scan_positions(t, m0, s, s.len() - 1);
        }
        if n < 3 {
            proof {
                use_type_invariant(&self.state);
            }
            assert(peaks@ == Seq::<PeakInfo>::empty());
            return peaks;
        }
        // The state is taken out for the scan and put back at its end.
        let mut taken = DetectorState::idle();
        core::mem::swap(&mut self.state, &mut taken);
        proof {
            use_type_invariant(&taken);
        }
        let DetectorState {
            timing_ema: mut timing_ema,
            amplitude_ema: mut amplitude_ema,
            recent_peaks: mut recent_peaks,
        } = taken;
        let mut last_peak_index: usize = 0;
        let mut i: usize = 1;
        while i < n - 1
            invariant
                n == samples@.len(),
                n >= 3,
                s == samples@,
                1 <= i <= n - 1,
                last_peak_index < i,
                self.tuning() == t,
                timing_ema.alpha() == EMA_ALPHA,
                amplitude_ema.alpha() == EMA_ALPHA,
                timing_ema.value() <= EMA_LIMIT,
                amplitude_ema.value() <= 0x8000_0000_0000_0000,
                recent_peaks@.len() <= RING_CAPACITY,
                peaks@ == scan_prefix(t, m0, s, i as int).peaks,
                scan_prefix(t, m0, s, i as int).model == (DetectorModel {
                    timing_ema: timing_ema.value(),
                    amplitude_ema: amplitude_ema.value(),
                    recent: recent_peaks@,
                }),
                last_peak_index == scan_prefix(t, m0, s, i as int).last,
            decreases n - i,
        {
            let ghost before = scan_prefix(t, m0, s, i as int);
            let prev: i64 = gate_sample(samples[i - 1], self.clip_threshold);
            let cur: i64 = gate_sample(samples[i], self.clip_threshold);
            let next: i64 = gate_sample(samples[i + 1], self.clip_threshold);
            if prev < cur && cur > next && cur != 0 {
                assert(is_peak(s, t.clip, i as int));
                let interval: usize = i - last_peak_index;
                let interval_fx: u128 = (interval as u128) * 1_000_000;
                let energy: u128 = magnitude(cur);
                let expected_timing: u128 = timing_ema.update(interval_fx);
                let expected_amplitude: u128 = amplitude_ema.update(energy);
                let timing_jitter: u128 = distance(interval_fx, expected_timing);
                let amplitude_jitter: u128 = distance(energy, expected_amplitude);
                let harmonic_score: i64 = self.calculate_harmonic_alignment(interval);
                let salience: i64 = saturate_i64(
                    self.calculate_salience(
                        energy,
                        timing_jitter,
                        amplitude_jitter,
                        harmonic_score,
                        &recent_peaks,
                    ),
                );
                let peak = PeakInfo {
                    index: i,
                    amplitude: cur,
                    interval,
                    timing_jitter: saturate_u64(timing_jitter),
                    amplitude_jitter: amplitude_jitter as u64,
                    harmonic_score,
                    salience,
                    has_wonder: salience > self.wonder_threshold,
                };
                assert(peak == peak_record(t, before.model, before.last, i as int, cur as int));
                if recent_peaks.len() >= RING_CAPACITY {
                    recent_peaks.pop_front();
                }
                recent_peaks.push_back(peak);
                peaks.push(peak);
                last_peak_index = i;
            } else {
                assert(!is_peak(s, t.clip, i as int));
            }
            i = i + 1;
        }
        self.state = DetectorState { timing_ema, amplitude_ema, recent_peaks };
        peaks
    }

    /// Scans the magnitudes of a wave for salient peaks.
    pub fn process_waves(&mut self, waves: &[WavePoint]) -> (peaks: Vec<PeakInfo>)
        ensures
            peaks@ == scan(old(self).tuning(), old(self).model(), magnitudes(waves@)).peaks,
            final(self).model() == scan(
                old(self).tuning(),
                old(self).model(),
                magnitudes(waves@),
            ).model,
            final(self).tuning() == old(self).tuning(),
            peaks_match_positions(
                old(self).tuning(),
                magnitudes(waves@),
                waves@.len() as int,
                peaks@,
            ),
            final(self).model().recent.len() <= RING_CAPACITY,
    {
        let n: usize = waves.len();
        let mut samples: Vec<i64> = Vec::with_capacity(n);
        let mut i: usize = 0;
        while i < n
            invariant
                n == waves@.len(),
                0 <= i <= n,
                samples@.len() == i,
                forall|j: int| 0 <= j < i ==> samples@[j] == point_magnitude(waves@[j]),
            decreases n - i,
        {
            samples.push(waves[i].magnitude());
            i = i + 1;
        }
        assert(samples@ =~= magnitudes(waves@));
        self.process_samples(samples.as_slice())
    }
}

/// Aggregate description of a peak sequence.
#[derive(Debug, Clone)]
pub struct MarineMetadata {
    /// Number of peaks.
    pub total_peaks: usize,
    /// Number of peaks marked as high-salience.
    pub wonder_count: usize,
    /// Mean salience, rounded towards minus infinity; 0 without peaks.
    pub average_salience: i64,
    /// Largest salience; 0 without peaks.
    pub max_salience: i64,
    /// Whether the peaks are evenly spaced.
    pub has_rhythm: bool,
    /// Coarse label of the sequence.
    pub emotional_signature: String,
}

/// Number of marked peaks among the first `n`.
pub open spec fn wonder_count(peaks: Seq<PeakInfo>, n: int) -> int
    decreases n,
{
    if n <= 0 {
        0
    } else {
        wonder_count(peaks, n - 1) + if peaks[n - 1].has_wonder {
            1int
        } else {
            0int
        }
    }
}

/// Number of peaks among the first `n` whose salience exceeds `threshold`.
pub open spec fn count_above(peaks: Seq<PeakInfo>, n: int, threshold: int) -> int
    decreases n,
{
    if n <= 0 {
        0
    } else {
        count_above(peaks, n - 1, threshold) + if peaks[n - 1].salience > threshold {
            1int
        } else {
            0int
        }
    }
}

/// Sum of the salience of the first `n` peaks.
pub open spec fn salience_sum(peaks: Seq<PeakInfo>, n: int) -> int
    decreases n,
{
    if n <= 0 {
        0
    } else {
        salience_sum(peaks, n - 1) + peaks[n - 1].salience
    }
}

/// Sum of the amplitude magnitudes of the first `n` peaks.
pub open spec fn amplitude_sum(peaks: Seq<PeakInfo>, n: int) -> int
    decreases n,
{
    if n <= 0 {
        0
    } else {
        amplitude_sum(peaks, n - 1) + abs(peaks[n - 1].amplitude as int)
    }
}

/// Largest salience among the first `n` peaks; 0 where there is none.
pub open spec fn salience_peak(peaks: Seq<PeakInfo>, n: int) -> int
    decreases n,
{
    if n <= 0 {
        0
    } else if n == 1 {
        peaks[0].salience as int
    } else {
        max(salience_peak(peaks, n - 1), peaks[n - 1].salience as int)
    }
}

/// Mean salience of the sequence; 0 when it is empty.
pub open spec fn average_salience(peaks: Seq<PeakInfo>) -> int {
    floor_div(salience_sum(peaks, peaks.len() as int), max(peaks.len() as int, 1))
}

/// Distance from peak `k` to the next one.
pub open spec fn delta(peaks: Seq<PeakInfo>, k: int) -> int {
    peaks[k + 1].index - peaks[k].index
}

/// Sum of the first `n` distances.
pub open spec fn delta_sum(peaks: Seq<PeakInfo>, n: int) -> int
    decreases n,
{
    if n <= 0 {
        0
    } else {
        delta_sum(peaks, n - 1) + delta(peaks, n - 1)
    }
}

/// Sum of the squares of the first `n` distances.
pub open spec fn delta_square_sum(peaks: Seq<PeakInfo>, n: int) -> int
    decreases n,
{
    if n <= 0 {
        0
    } else {
        delta_square_sum(peaks, n - 1) + delta(peaks, n - 1) * delta(peaks, n - 1)
    }
}

/// Whether the peaks are evenly spaced: there are at least four, and the
/// variance of the distances between neighbours is under the square of a
/// fifth of their mean. With `n` distances of sum `S` and square sum `Q`,
/// `Q/n - (S/n)^2 < (S/(5n))^2` is `25 n Q < 26 S^2`.
pub open spec fn has_rhythm(peaks: Seq<PeakInfo>) -> bool {
    let n = peaks.len() - 1;
    let q = delta_square_sum(peaks, n);
    let s = delta_sum(peaks, n);
    &&& peaks.len() >= 4
    &&& 25 * (n * q) < 26 * (s * s)
}

/// The label of a peak sequence. With `n` the number of peaks (1 if there
/// are none), `w` the share of marked peaks and `a` the mean amplitude
/// magnitude, the first rule that applies decides: `w > 0.5`, then
/// `a > 0.8`, then `w > 0.3`; where none applies, the default label.
pub open spec fn emotion_label(peaks: Seq<PeakInfo>) -> Seq<char> {
    let n = max(peaks.len() as int, 1);
    let w = wonder_count(peaks, peaks.len() as int);
    let a = amplitude_sum(peaks, peaks.len() as int);
    if 2 * w > n {
        "✨ Wondrous"@
    } else if a > 800_000 * n {
        "🔥 Energetic"@
    } else if 10 * w > 3 * n {
        "🎵 Musical"@
    } else {
        "🌊 Flowing"@
    }
}

/// The distances add up to the way from the first peak to the last.
pub proof fn lemma_delta_sum_telescopes(peaks: Seq<PeakInfo>, n: int)
    requires
        0 <= n < peaks.len(),
    ensures
        delta_sum(peaks, n) == peaks[n].index - peaks[0].index,
    decreases n,
{
    if n > 0 {
        lemma_delta_sum_telescopes(peaks, n - 1);
    }
}

/// The square sum grows with the number of distances.
pub proof fn lemma_delta_square_sum_grows(peaks: Seq<PeakInfo>, j: int, n: int)
    requires
        0 <= j <= n,
    ensures
        0 <= delta_square_sum(peaks, j) <= delta_square_sum(peaks, n),
    decreases n,
{
    if n > 0 {
        assert(delta(peaks, n - 1) * delta(peaks, n - 1) >= 0) by (nonlinear_arith);
        if j < n {
            lemma_delta_square_sum_grows(peaks, j, n - 1);
        } else {
            lemma_delta_square_sum_grows(peaks, j - 1, n - 1);
        }
    }
}

/// The marked peaks are never more than the peaks.
pub proof fn lemma_wonder_count_bounded(peaks: Seq<PeakInfo>, n: int)
    requires
        0 <= n,
    ensures
        0 <= wonder_count(peaks, n) <= n,
    decreases n,
{
    if n > 0 {
        lemma_wonder_count_bounded(peaks, n - 1);
    }
}

/// The salience peak is the largest salience: it is the salience of one of
/// the peaks, and none of them has more.
pub proof fn lemma_salience_peak_is_largest(peaks: Seq<PeakInfo>, n: int)
    requires
        1 <= n <= peaks.len(),
    ensures
        forall|k: int| 0 <= k < n ==> (#[trigger] peaks[k]).salience <= salience_peak(peaks, n),
        exists|k: int| 0 <= k < n && (#[trigger] peaks[k]).salience == salience_peak(peaks, n),
    decreases n,
{
    if n == 1 {
        assert(peaks[0].salience == salience_peak(peaks, n));
    } else {
        lemma_salience_peak_is_largest(peaks, n - 1);
        let before = choose|k: int|
            0 <= k < n - 1 && (#[trigger] peaks[k]).salience == salience_peak(peaks, n - 1);
        if peaks[n - 1].salience >= salience_peak(peaks, n - 1) {
            assert(peaks[n - 1].salience == salience_peak(peaks, n));
        } else {
            assert(peaks[before].salience == salience_peak(peaks, n));
        }
    }
}

/// The saliences of the first `n` peaks add up to at most `n` times the
/// largest of them.
pub proof fn lemma_salience_sum_bounded(peaks: Seq<PeakInfo>, n: int)
    requires
        1 <= n <= peaks.len(),
    ensures
        salience_sum(peaks, n) <= n * salience_peak(peaks, n),
    decreases n,
{
    if n > 1 {
        lemma_salience_sum_bounded(peaks, n - 1);
        let top = salience_peak(peaks, n);
        let before = salience_peak(peaks, n - 1);
        assert((n - 1) * before <= (n - 1) * top) by (nonlinear_arith)
            requires
                before <= top,
                n >= 1,
        ;
        assert(n * top == (n - 1) * top + top) by (nonlinear_arith);
    } else {
        assert(salience_sum(peaks, 1) == salience_sum(peaks, 0) + peaks[0].salience);
    }
}

/// The mean salience is no more than the largest salience.
pub proof fn lemma_average_within_peak(peaks: Seq<PeakInfo>)
    requires
        peaks.len() >= 1,
    ensures
        average_salience(peaks) <= salience_peak(peaks, peaks.len() as int),
{
    let n = peaks.len() as int;
    lemma_salience_sum_bounded(peaks, n);
    let sum = salience_sum(peaks, n);
    let top = salience_peak(peaks, n);
    assert(sum / n <= top) by (nonlinear_arith)
        requires
            n >= 1,
            sum <= n * top,
    ;
}

/// Whether `25 n q < 26 a`, for operands whose products may not fit 128
/// bits.
fn within_rhythm_bound(n: u128, q: u128, a: u128) -> (within: bool)
    requires
        3 <= n <= 0xffff_ffff_ffff_ffff,
    ensures
        within == (25 * (n * q) < 26 * a),
{
    if a == 0 {
        assert(25 * (n * q) >= 0) by (nonlinear_arith)
            requires
                n >= 0,
                q >= 0,
        ;
        return false;
    }
    let ghost nq: int = n * q;
    match n.checked_mul(q) {
        Some(product) => {
            // 25 n q < 26 a is 25 (n q - a) < a.
            if product < a {
                true
            } else {
                let excess: u128 = product - a;
                match excess.checked_mul(25) {
                    None => false,
                    Some(scaled) => scaled < a,
                }
            }
        },
        None => {
            // n q is 2^128 or more: write it as 2^128 + y, or find that it
            // is 2^129 or more, which is beyond 26 a / 25.
            let half: u128 = q / 2;
            let odd: u128 = q % 2;
            let rest: u128 = if odd == 1 {
                n
            } else {
                0
            };
            assert(nq == 2 * (n * half) + rest) by (nonlinear_arith)
                requires
                    nq == n * q,
                    q == 2 * half + odd,
                    rest == if odd == 1 { n } else { 0 },
                    odd == 0 || odd == 1,
            ;
            match n.checked_mul(half) {
                None => false,
                Some(h) => {
                    let over: Option<u128> = if h >= 0x8000_0000_0000_0000_0000_0000_0000_0000 {
                        ((h - 0x8000_0000_0000_0000_0000_0000_0000_0000) * 2).checked_add(rest)
                    } else {
                        let gap: u128 = (u128::MAX - 2 * h) + 1;
                        Some(rest - gap)
                    };
                    match over {
                        None => false,
                        Some(y) => {
                            assert(nq == 0x1_0000_0000_0000_0000_0000_0000_0000_0000 + y);
                            // 25 (2^128 + y) < 26 a is 25 y + 25 (2^128 - a) < a.
                            let short: u128 = (u128::MAX - a) + 1;
                            match short.checked_mul(25) {
                                None => false,
                                Some(lack) => {
                                    if lack >= a {
                                        false
                                    } else {
                                        let room: u128 = a - lack;
                                        match y.checked_mul(25) {
                                            None => false,
                                            Some(scaled) => scaled < room,
                                        }
                                    }
                                },
                            }
                        },
                    }
                },
            }
        },
    }
}

impl MarineProcessor {
    /// Reduces a peak sequence to its aggregate description.
    pub fn extract_metadata(&self, peaks: &[PeakInfo]) -> (meta: MarineMetadata)
        ensures
            meta.total_peaks == peaks@.len(),
            meta.wonder_count == wonder_count(peaks@, peaks@.len() as int),
            meta.average_salience == average_salience(peaks@),
            meta.max_salience == salience_peak(peaks@, peaks@.len() as int),
            meta.has_rhythm == has_rhythm(peaks@),
            meta.emotional_signature@ == emotion_label(peaks@),
    {
        let n: usize = peaks.len();
        let mut wonder: usize = 0;
        let mut sum: i128 = 0;
        let mut top: i64 = 0;
        let mut k: usize = 0;
        while k < n
            invariant
                n == peaks@.len(),
                0 <= k <= n,
                wonder == wonder_count(peaks@, k as int),
                wonder <= k,
                sum == salience_sum(peaks@, k as int),
                -(k as int) * 0x8000_0000_0000_0000 <= sum <= (k as int) * 0x7fff_ffff_ffff_ffff,
                top == salience_peak(peaks@, k as int),
            decreases n - k,
        {
            let p: PeakInfo = peaks[k];
            if p.has_wonder {
                wonder = wonder + 1;
            }
            assert(-((k + 1) as int) * 0x8000_0000_0000_0000 <= sum + p.salience <= ((k + 1) as int)
                * 0x7fff_ffff_ffff_ffff) by (nonlinear_arith)
                requires
                    -(k as int) * 0x8000_0000_0000_0000 <= sum <= (k as int) * 0x7fff_ffff_ffff_ffff,
                    -0x8000_0000_0000_0000 <= p.salience <= 0x7fff_ffff_ffff_ffff,
            ;
            assert(((k + 1) as int) * 0x7fff_ffff_ffff_ffff <= 0x1_0000_0000_0000_0000
                * 0x7fff_ffff_ffff_ffff) by (nonlinear_arith)
                requires
                    k + 1 <= 0x1_0000_0000_0000_0000,
            ;
            assert(-((k + 1) as int) * 0x8000_0000_0000_0000 >= -0x1_0000_0000_0000_0000
                * 0x8000_0000_0000_0000) by (nonlinear_arith)
                requires
                    k + 1 <= 0x1_0000_0000_0000_0000,
            ;
            sum = sum + p.salience as i128;
            if k == 0 || p.salience > top {
                top = p.salience;
            }
            k = k + 1;
        }
        let count: u128 = if n == 0 {
            1
        } else {
            n as u128
        };
        let negative: bool = sum < 0;
        let size: u128 = if negative {
            (-sum) as u128
        } else {
            sum as u128
        };
        let mean: i128 = floor_div_signed(negative, size, count);
        assert(-0x8000_0000_0000_0000 <= mean <= 0x7fff_ffff_ffff_ffff) by (nonlinear_arith)
            requires
                mean == (sum as int) / (count as int),
                count >= 1,
                count >= n,
                -(n as int) * 0x8000_0000_0000_0000 <= sum <= (n as int) * 0x7fff_ffff_ffff_ffff,
        ;
        MarineMetadata {
            total_peaks: n,
            wonder_count: wonder,
            average_salience: mean as i64,
            max_salience: top,
            has_rhythm: self.detect_rhythm(peaks),
            emotional_signature: self.detect_emotion(peaks),
        }
    }

    /// Whether the peaks are evenly spaced.
    pub fn detect_rhythm(&self, peaks: &[PeakInfo]) -> (rhythm: bool)
        ensures
            rhythm == has_rhythm(peaks@),
    {
        let len: usize = peaks.len();
        if len < 4 {
            return false;
        }
        let n: usize = len - 1;
        let first: i128 = peaks[0].index as i128;
        let last: i128 = peaks[n].index as i128;
        let total: i128 = last - first;
        proof {
            lemma_delta_sum_telescopes(peaks@, n as int);
        }
        let reach: u128 = if total < 0 {
            (-total) as u128
        } else {
            total as u128
        };
        assert(reach * reach <= 0xffff_ffff_ffff_ffff * 0xffff_ffff_ffff_ffff) by (nonlinear_arith)
            requires
                reach <= 0xffff_ffff_ffff_ffff,
        ;
        let square: u128 = reach * reach;
        assert(square as int == delta_sum(peaks@, n as int) * delta_sum(peaks@, n as int))
            by (nonlinear_arith)
            requires
                square as int == reach * reach,
                reach as int == abs(total as int),
                total as int == delta_sum(peaks@, n as int),
        ;
        let ghost q_all = delta_square_sum(peaks@, n as int);
        let mut q: u128 = 0;
        let mut k: usize = 0;
        while k < n
            invariant
                len == peaks@.len(),
                n == len - 1,
                0 <= k <= n,
                q == delta_square_sum(peaks@, k as int),
                q_all == delta_square_sum(peaks@, n as int),
                square as int == delta_sum(peaks@, n as int) * delta_sum(peaks@, n as int),
                n >= 3,
            decreases n - k,
        {
            let here: i128 = peaks[k].index as i128;
            let there: i128 = peaks[k + 1].index as i128;
            let step: i128 = there - here;
            let width: u128 = if step < 0 {
                (-step) as u128
            } else {
                step as u128
            };
            assert(width * width <= 0xffff_ffff_ffff_ffff * 0xffff_ffff_ffff_ffff)
                by (nonlinear_arith)
                requires
                    width <= 0xffff_ffff_ffff_ffff,
            ;
            let sq: u128 = width * width;
            assert(sq as int == delta(peaks@, k as int) * delta(peaks@, k as int))
                by (nonlinear_arith)
                requires
                    sq as int == width * width,
                    width as int == abs(step as int),
                    step as int == delta(peaks@, k as int),
            ;
            match q.checked_add(sq) {
                Some(next) => {
                    q = next;
                },
                None => {
                    proof {
                        lemma_delta_square_sum_grows(peaks@, k as int + 1, n as int);
                        assert(25 * ((n as int) * q_all) >= 26 * (square as int)) by (nonlinear_arith)
                            requires
                                n >= 3,
                                q_all >= 0x1_0000_0000_0000_0000_0000_0000_0000_0000,
                                square < 0x1_0000_0000_0000_0000_0000_0000_0000_0000,
                        ;
                    }
                    return false;
                },
            }
            k = k + 1;
        }
        within_rhythm_bound(n as u128, q, square)
    }

    /// The label of a peak sequence.
    pub fn detect_emotion(&self, peaks: &[PeakInfo]) -> (label: String)
        ensures
            label@ == emotion_label(peaks@),
    {
        let n: usize = peaks.len();
        let mut wonder: u128 = 0;
        let mut level: u128 = 0;
        let mut k: usize = 0;
        while k < n
            invariant
                n == peaks@.len(),
                0 <= k <= n,
                wonder == wonder_count(peaks@, k as int),
                wonder <= k,
                level == amplitude_sum(peaks@, k as int),
                level <= (k as int) * 0x8000_0000_0000_0000,
            decreases n - k,
        {
            let p: PeakInfo = peaks[k];
            if p.has_wonder {
                wonder = wonder + 1;
            }
            let m: u128 = magnitude(p.amplitude);
            assert(level + m <= ((k + 1) as int) * 0x8000_0000_0000_0000 <= 0x1_0000_0000_0000_0000
                * 0x8000_0000_0000_0000) by (nonlinear_arith)
                requires
                    level <= (k as int) * 0x8000_0000_0000_0000,
                    m <= 0x8000_0000_0000_0000,
                    k + 1 <= 0x1_0000_0000_0000_0000,
            ;
            level = level + m;
            k = k + 1;
        }
        let count: u128 = if n == 0 {
            1
        } else {
            n as u128
        };
        if 2 * wonder > count {
            "✨ Wondrous".to_owned()
        } else if level > 800_000 * count {
            "🔥 Energetic".to_owned()
        } else if 10 * wonder > 3 * count {
            "🎵 Musical".to_owned()
        } else {
            "🌊 Flowing".to_owned()
        }
    }
}

/// The peaks that a fresh detector with the default parameters finds in the
/// magnitudes of a wave.
pub open spec fn wave_peaks(waves: Seq<WavePoint>) -> Seq<PeakInfo> {
    scan(default_tuning(), fresh_model(), magnitudes(waves)).peaks
}

/// Describes a wave: scans its magnitudes with a fresh detector at the
/// default parameters and reduces the peaks.
pub fn analyze_waves(waves: &[WavePoint]) -> (meta: MarineMetadata)
    ensures
        meta.total_peaks == wave_peaks(waves@).len(),
        meta.wonder_count == wonder_count(wave_peaks(waves@), wave_peaks(waves@).len() as int),
        meta.average_salience == average_salience(wave_peaks(waves@)),
        meta.max_salience == salience_peak(wave_peaks(waves@), wave_peaks(waves@).len() as int),
        meta.has_rhythm == has_rhythm(wave_peaks(waves@)),
        meta.emotional_signature@ == emotion_label(wave_peaks(waves@)),
{
    let mut processor = MarineProcessor::new();
    let peaks = processor.process_waves(waves);
    processor.extract_metadata(peaks.as_slice())
}

} // verus!
