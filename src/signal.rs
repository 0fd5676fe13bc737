//! Signals, their moving-average filter, statistics and peak detection.
use vstd::prelude::*;

use crate::arith::{
    Fraction,
    ints,
    lemma_spread_nonneg,
    lemma_sum_subrange,
    lemma_sums_take,
    spread,
    sum,
    sum_sq,
};

verus! {

/// The largest number of samples a signal may hold: all sums, squared
/// sums and threshold comparisons then fit in 128-bit arithmetic.
pub const MAX_SAMPLES: usize = 0x4000_0000;

/// Window length of the moving average used by `process`.
pub const DEFAULT_WINDOW: usize = 5;

/// A sampled signal: integer readings and the number of samples per second.
pub struct SignalData {
    pub samples: Vec<i32>,
    pub sample_rate: u32,
}

/// Why an analysis could not be carried out.
#[derive(Clone, Copy, Debug, PartialEq, Eq, Structural)]
pub enum SignalError {
    /// An empty sample array, or a moving-average window of length zero.
    InvalidInput,
    /// Peaks whose mean spacing is zero.
    DegenerateResult,
}

/// Running sums of a signal, from which its mean and population variance
/// follow exactly.
#[derive(Clone, Copy, Debug, PartialEq, Eq, Structural)]
pub struct Statistics {
    pub count: u64,
    pub sum: i64,
    pub sum_sq: i128,
}

/// The result of the whole pipeline.
pub struct ProcessedSignal {
    pub filtered: Vec<Fraction>,
    pub mean: Fraction,
    /// The population variance; the standard deviation is its square root.
    pub variance: Fraction,
    pub peaks: Vec<usize>,
}

/// First index of the causal window of length `w` that ends at `i`.
pub open spec fn window_start(i: int, w: int) -> int {
    if i < w {
        0
    } else {
        i - w + 1
    }
}

/// Sum of the readings in the window of length `w` that ends at `i`.
pub open spec fn window_sum(s: Seq<i32>, w: int, i: int) -> int {
    sum(ints(s).subrange(window_start(i, w), i + 1))
}

/// The moving average at `i`, as a fraction: window sum over window length.
pub open spec fn is_window_average(f: Fraction, s: Seq<i32>, w: int, i: int) -> bool {
    f.num == window_sum(s, w, i) && f.den == i + 1 - window_start(i, w)
}

/// Index `i` is a peak: an interior strict local maximum of the raw
/// readings that lies strictly above mean plus one standard deviation of
/// `st`.
pub open spec fn is_peak(s: Seq<i32>, st: Statistics, i: int) -> bool {
    &&& 1 <= i < s.len() - 1
    &&& s[i] > s[i - 1]
    &&& s[i] > s[i + 1]
    &&& st.exceeds(s[i] as int)
}

/// The peaks among the indices below `k`, in increasing order.
pub open spec fn peaks_below(s: Seq<i32>, st: Statistics, k: int) -> Seq<usize>
    decreases k,
{
    if k <= 1 {
        Seq::empty()
    } else {
        let prev = peaks_below(s, st, k - 1);
        if is_peak(s, st, k - 1) {
            prev.push((k - 1) as usize)
        } else {
            prev
        }
    }
}

/// All peaks of `s`, in increasing order.
pub open spec fn peak_indices(s: Seq<i32>, st: Statistics) -> Seq<usize> {
    peaks_below(s, st, s.len() - 1)
}

/// Strictly increasing indices, each in `[1, n - 2]`.
pub open spec fn is_peak_sequence(p: Seq<usize>, n: int) -> bool {
    &&& forall|a: int, b: int| 0 <= a < b < p.len() ==> p[a] < p[b]
    &&& forall|a: int| 0 <= a < p.len() ==> 1 <= #[trigger] p[a] <= n - 2
}

/// The peaks below `k` are exactly the peak indices in `[1, k)`, listed
/// in strictly increasing order.
pub proof fn lemma_peaks_below(s: Seq<i32>, st: Statistics, k: int)
    requires
        s.len() <= usize::MAX,
    ensures
        forall|a: int, b: int|
            0 <= a < b < peaks_below(s, st, k).len() ==> peaks_below(s, st, k)[a] < peaks_below(
                s,
                st,
                k,
            )[b],
        forall|a: int|
            0 <= a < peaks_below(s, st, k).len() ==> 1 <= #[trigger] peaks_below(s, st, k)[a] < k
                && is_peak(s, st, peaks_below(s, st, k)[a] as int),
        forall|i: int| 1 <= i < k && is_peak(s, st, i) ==> peaks_below(s, st, k).contains(i as usize),
    decreases k,
{
    if k > 1 {
        lemma_peaks_below(s, st, k - 1);
        let prev = peaks_below(s, st, k - 1);
        if is_peak(s, st, k - 1) {
            let cur = prev.push((k - 1) as usize);
            assert forall|i: int| 1 <= i < k && is_peak(s, st, i) implies cur.contains(i as usize) by {
                if i < k - 1 {
                    let a = choose|a: int| 0 <= a < prev.len() && prev[a] == i as usize;
                    assert(cur[a] == i as usize);
                } else {
                    assert(cur[prev.len() as int] == i as usize);
                }
            }
        }
    }
}

/// A signal whose readings are all equal has no peaks, whatever the
/// threshold: no reading is strictly above its neighbours.
pub proof fn lemma_constant_signal_has_no_peaks(s: Seq<i32>, st: Statistics)
    requires
        s.len() <= usize::MAX,
        forall|i: int, j: int| 0 <= i < s.len() && 0 <= j < s.len() ==> s[i] == s[j],
    ensures
        peak_indices(s, st) == Seq::<usize>::empty(),
{
    lemma_peaks_below(s, st, s.len() - 1);
    let p = peak_indices(s, st);
    if p.len() > 0 {
        assert(is_peak(s, st, p[0] as int));
    }
}

/// `r` is what the pipeline owes for readings `s` and window length `w`:
/// `InvalidInput` exactly when `s` is empty or `w` is zero, and otherwise
/// the moving averages, the mean, the population variance and the peaks.
pub open spec fn processes(s: Seq<i32>, w: int, r: Result<ProcessedSignal, SignalError>) -> bool {
    match r {
        Err(e) => (s.len() == 0 || w == 0) && e == SignalError::InvalidInput,
        Ok(p) => {
            let st = Statistics { count: s.len() as u64, sum: sum(ints(s)) as i64, sum_sq: sum_sq(ints(s)) as i128 };
            &&& s.len() > 0 && w > 0
            &&& p.filtered.len() == s.len()
            &&& forall|i: int| 0 <= i < s.len() ==> is_window_average(#[trigger] p.filtered@[i], s, w, i)
            &&& p.mean.num == sum(ints(s)) && p.mean.den == s.len()
            &&& p.variance.num == spread(ints(s)) && p.variance.den == s.len() * s.len()
            &&& p.peaks@ == peak_indices(s, st)
        },
    }
}

/// Running the pipeline twice on the same readings gives the same result.
pub proof fn lemma_process_idempotent(
    s: Seq<i32>,
    w: int,
    r1: Result<ProcessedSignal, SignalError>,
    r2: Result<ProcessedSignal, SignalError>,
)
    requires
        processes(s, w, r1),
        processes(s, w, r2),
    ensures
        r1.is_ok() == r2.is_ok(),
        r1 matches Err(e1) ==> r2 == Err::<ProcessedSignal, SignalError>(e1),
        r1 matches Ok(p1) ==> r2 matches Ok(p2) && p1.filtered@ == p2.filtered@ && p1.mean == p2.mean
            && p1.variance == p2.variance && p1.peaks@ == p2.peaks@,
{
    if let (Ok(p1), Ok(p2)) = (r1, r2) {
        assert(p1.filtered@ =~= p2.filtered@);
    }
}

impl Statistics {
    /// Sums that could stem from at most `MAX_SAMPLES` readings.
    pub open spec fn wf(&self) -> bool {
        &&& 1 <= self.count <= MAX_SAMPLES
        &&& -self.count * 0x8000_0000 <= self.sum <= self.count * 0x8000_0000
        &&& 0 <= self.sum_sq <= self.count * 0x4000_0000_0000_0000
        &&& self.count * self.sum_sq - self.sum * self.sum >= 0
    }

    /// The statistics describe exactly the readings `s`.
    pub open spec fn describes(&self, s: Seq<i32>) -> bool {
        &&& self.count == s.len()
        &&& self.sum == sum(ints(s))
        &&& self.sum_sq == sum_sq(ints(s))
    }

    /// `n * sum(x^2) - sum(x)^2`, which is `n^2` times the variance.
    pub open spec fn spread(&self) -> int {
        self.count * self.sum_sq - self.sum * self.sum
    }

    /// Whether `x` lies strictly above mean plus one standard deviation:
    /// `x > S/n + sqrt(V)/n` with `V` the spread, decided without roots.
    pub open spec fn exceeds(&self, x: int) -> bool {
        let d = self.count * x - self.sum;
        d > 0 && d * d > self.spread()
    }

    /// The mean, `sum / count`.
    pub fn mean(&self) -> (r: Fraction)
        requires
            self.wf(),
        ensures
            r.num == self.sum,
            r.den == self.count,
    {
        Fraction { num: self.sum as i128, den: self.count as u128 }
    }

    /// The population variance, `spread / count^2`.
    pub fn variance(&self) -> (r: Fraction)
        requires
            self.wf(),
        ensures
            r.num == self.spread(),
            r.den == self.count * self.count,
            r.num >= 0,
    {
        let n = self.count as i128;
        let t = self.sum as i128;
        assert(n * self.sum_sq <= 0x4000_0000 * 0x4000_0000 * 0x4000_0000_0000_0000)
            by (nonlinear_arith)
            requires
                0 <= n <= 0x4000_0000,
                0 <= self.sum_sq <= 0x4000_0000 * 0x4000_0000_0000_0000,
        ;
        assert(0 <= t * t <= 0x4000_0000 * 0x8000_0000 * 0x4000_0000 * 0x8000_0000)
            by (nonlinear_arith)
            requires
                -0x4000_0000 * 0x8000_0000 <= t <= 0x4000_0000 * 0x8000_0000,
        ;
        assert(n * self.sum_sq >= 0) by (nonlinear_arith)
            requires
                n >= 0,
                self.sum_sq >= 0,
        ;
        assert(n * n <= 0x4000_0000 * 0x4000_0000) by (nonlinear_arith)
            requires
                0 <= n <= 0x4000_0000,
        ;
        let num = n * self.sum_sq - t * t;
        Fraction { num, den: (self.count as u128) * (self.count as u128) }
    }

    /// Exact test of `x > mean + standard deviation`.
    pub fn is_above(&self, x: i32) -> (r: bool)
        requires
            self.wf(),
        ensures
            r == self.exceeds(x as int),
    {
        let n = self.count as i128;
        let t = self.sum as i128;
        assert(-0x4000_0000 * 0x8000_0000 <= n * (x as i128) <= 0x4000_0000 * 0x8000_0000)
            by (nonlinear_arith)
            requires
                0 <= n <= 0x4000_0000,
                -0x8000_0000 <= x < 0x8000_0000,
        ;
        let d = n * (x as i128) - t;
        if d <= 0 {
            return false;
        }
        assert(d * d <= 0x8000_0000_0000_0000 * 0x8000_0000_0000_0000) by (nonlinear_arith)
            requires
                0 < d <= 0x8000_0000_0000_0000,
        ;
        assert(0 <= n * self.sum_sq <= 0x4000_0000 * 0x4000_0000 * 0x4000_0000_0000_0000)
            by (nonlinear_arith)
            requires
                0 <= n <= 0x4000_0000,
                0 <= self.sum_sq <= 0x4000_0000 * 0x4000_0000_0000_0000,
        ;
        assert(0 <= t * t <= 0x4000_0000 * 0x8000_0000 * 0x4000_0000 * 0x8000_0000)
            by (nonlinear_arith)
            requires
                -0x4000_0000 * 0x8000_0000 <= t <= 0x4000_0000 * 0x8000_0000,
        ;
        d * d > n * self.sum_sq - t * t
    }
}

impl SignalData {
    pub fn new(samples: Vec<i32>, sample_rate: u32) -> (r: Self)
        ensures
            r.samples@ == samples@,
            r.sample_rate == sample_rate,
    {
        SignalData { samples, sample_rate }
    }

    /// Causal moving average: entry `i` averages the readings in
    /// `[max(0, i - window_size + 1), i]`, so the window grows from one
    /// reading at the start up to `window_size`.
    pub fn moving_average_filter(&self, window_size: usize) -> (r: Result<Vec<Fraction>, SignalError>)
        requires
            self.samples.len() <= MAX_SAMPLES,
        ensures
            r.is_err() <==> (self.samples.len() == 0 || window_size == 0),
            r.is_err() ==> r == Err::<Vec<Fraction>, SignalError>(SignalError::InvalidInput),
            r matches Ok(f) ==> f.len() == self.samples.len(),
            r matches Ok(f) ==> forall|i: int|
                0 <= i < f.len() ==> is_window_average(#[trigger] f[i], self.samples@, window_size as int, i),
    {
        let n = self.samples.len();
        if n == 0 || window_size == 0 {
            return Err(SignalError::InvalidInput);
        }
        let ghost s = self.samples@;
        let ghost w = window_size as int;
        let mut filtered: Vec<Fraction> = Vec::new();
        let mut i: usize = 0;
        while i < n
            invariant
                n == s.len(),
                s == self.samples@,
                w == window_size,
                n <= MAX_SAMPLES,
                0 <= i <= n,
                filtered.len() == i,
                forall|k: int| 0 <= k < i ==> is_window_average(#[trigger] filtered[k], s, w, k),
            decreases n - i,
        {
            let start: usize = if i < window_size { 0 } else { i - window_size + 1 };
            let mut acc: i64 = 0;
            let mut j: usize = start;
            while j <= i
                invariant
                    n == s.len(),
                    s == self.samples@,
                    i < n <= MAX_SAMPLES,
                    start == window_start(i as int, w),
                    start <= j <= i + 1,
                    acc == sum(ints(s).subrange(start as int, j as int)),
                    -(j - start) * 0x8000_0000 <= acc <= (j - start) * 0x8000_0000,
                decreases i + 1 - j,
            {
                proof {
                    lemma_sum_subrange(ints(s), start as int, j as int);
                }
                acc = acc + self.samples[j] as i64;
                j = j + 1;
            }
            let avg = Fraction { num: acc as i128, den: (i + 1 - start) as u128 };
            filtered.push(avg);
            i = i + 1;
        }
        Ok(filtered)
    }

    /// Indices `i` in `[1, n - 2]` whose reading is strictly above both
    /// neighbours and strictly above mean plus one standard deviation of
    /// `threshold`. Fewer than three readings give no peaks.
    pub fn detect_peaks(&self, threshold: &Statistics) -> (r: Vec<usize>)
        requires
            threshold.wf(),
        ensures
            r@ == peak_indices(self.samples@, *threshold),
            is_peak_sequence(r@, self.samples.len() as int),
            forall|i: usize| is_peak(self.samples@, *threshold, i as int) <==> r@.contains(i),
            self.samples.len() < 2 ==> r@.len() == 0,
    {
        let ghost s = self.samples@;
        let n = self.samples.len();
        let mut peaks: Vec<usize> = Vec::new();
        let mut i: usize = 1;
        while i + 1 < n
            invariant
                n == s.len(),
                s == self.samples@,
                threshold.wf(),
                1 <= i,
                i + 1 <= n || i == 1,
                peaks@ == peaks_below(s, *threshold, i as int),
            decreases n - i,
        {
            let x = self.samples[i];
            if x > self.samples[i - 1] && x > self.samples[i + 1] && threshold.is_above(x) {
                peaks.push(i);
            }
            i = i + 1;
        }
        proof {
            if n >= 2 {
                assert(i == n - 1);
            }
            lemma_peaks_below(s, *threshold, s.len() - 1);
            let p = peaks@;
            assert forall|i: usize| is_peak(s, *threshold, i as int) <==> p.contains(i) by {
                if p.contains(i) {
                    let a = choose|a: int| 0 <= a < p.len() && p[a] == i;
                    assert(is_peak(s, *threshold, p[a] as int));
                }
            }
        }
        peaks
    }

    /// The pipeline with the default window of `DEFAULT_WINDOW` readings.
    pub fn process(&self) -> (r: Result<ProcessedSignal, SignalError>)
        requires
            self.samples.len() <= MAX_SAMPLES,
        ensures
            processes(self.samples@, DEFAULT_WINDOW as int, r),
            r matches Ok(p) ==> p.filtered.len() == self.samples.len(),
            r matches Ok(p) ==> is_peak_sequence(p.peaks@, self.samples.len() as int),
    {
        self.process_with_window(DEFAULT_WINDOW)
    }

    /// Moving average over `window_size` readings, statistics of the raw
    /// readings, and the peaks of the raw readings above mean plus one
    /// standard deviation.
    pub fn process_with_window(&self, window_size: usize) -> (r: Result<ProcessedSignal, SignalError>)
        requires
            self.samples.len() <= MAX_SAMPLES,
        ensures
            processes(self.samples@, window_size as int, r),
            r matches Ok(p) ==> p.filtered.len() == self.samples.len(),
            r matches Ok(p) ==> is_peak_sequence(p.peaks@, self.samples.len() as int),
    {
        let filtered = match self.moving_average_filter(window_size) {
            Ok(f) => f,
            Err(e) => {
                return Err(e);
            },
        };
        let stats = match self.statistics() {
            Ok(st) => st,
            Err(e) => {
                return Err(e);
            },
        };
        let peaks = self.detect_peaks(&stats);
        let mean = stats.mean();
        let variance = stats.variance();
        Ok(ProcessedSignal { filtered, mean, variance, peaks })
    }

    /// Count, sum and sum of squares of the readings, from which the
    /// population mean and variance follow.
    pub fn statistics(&self) -> (r: Result<Statistics, SignalError>)
        requires
            self.samples.len() <= MAX_SAMPLES,
        ensures
            r.is_err() <==> self.samples.len() == 0,
            r.is_err() ==> r == Err::<Statistics, SignalError>(SignalError::InvalidInput),
            r matches Ok(st) ==> st.wf() && st.describes(self.samples@),
    {
        let n = self.samples.len();
        if n == 0 {
            return Err(SignalError::InvalidInput);
        }
        let ghost s = ints(self.samples@);
        let mut total: i64 = 0;
        let mut total_sq: i128 = 0;
        let mut i: usize = 0;
        while i < n
            invariant
                n == self.samples.len(),
                s == ints(self.samples@),
                n <= MAX_SAMPLES,
                0 <= i <= n,
                total == sum(s.take(i as int)),
                total_sq == sum_sq(s.take(i as int)),
                -i * 0x8000_0000 <= total <= i * 0x8000_0000,
                0 <= total_sq <= i * 0x4000_0000_0000_0000,
            decreases n - i,
        {
            proof {
                lemma_sums_take(s, i as int);
            }
            let x = self.samples[i] as i128;
            assert(0 <= x * x <= 0x4000_0000_0000_0000) by (nonlinear_arith)
                requires
                    -0x8000_0000 <= x < 0x8000_0000,
            ;
            total = total + self.samples[i] as i64;
            total_sq = total_sq + x * x;
            i = i + 1;
        }
        proof {
            assert(s.take(n as int) =~= s);
            lemma_spread_nonneg(s);
            assert(spread(s) == n * total_sq - total * total);
        }
        Ok(Statistics { count: n as u64, sum: total, sum_sq: total_sq })
    }
}

} // verus!
