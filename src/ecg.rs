//! Heart rate and rhythm regularity from the spacing of detected peaks.
use vstd::prelude::*;

use crate::arith::{Fraction, lemma_spread_nonneg, lemma_sums_take, spread, sum, sum_sq};
use crate::signal::{MAX_SAMPLES, SignalData, SignalError};

verus! {

/// The gaps between consecutive peaks, in samples.
pub open spec fn intervals(p: Seq<usize>) -> Seq<int> {
    if p.len() == 0 {
        Seq::empty()
    } else {
        Seq::new((p.len() - 1) as nat, |j: int| p[j + 1] - p[j])
    }
}

/// Peaks listed in non-decreasing order.
pub open spec fn is_sorted(p: Seq<usize>) -> bool {
    forall|a: int, b: int| 0 <= a <= b < p.len() ==> p[a] <= p[b]
}

/// Peaks that can index a signal of at most `MAX_SAMPLES` readings.
pub open spec fn fits_signal(p: Seq<usize>) -> bool {
    &&& p.len() <= MAX_SAMPLES
    &&& forall|a: int| 0 <= a < p.len() ==> #[trigger] p[a] < MAX_SAMPLES
}

/// The gaps between the first `j + 1` peaks add up to `p[j] - p[0]`.
pub proof fn lemma_intervals_telescope(p: Seq<usize>, j: int)
    requires
        0 <= j < p.len(),
    ensures
        sum(intervals(p.take(j + 1))) == p[j] - p[0],
    decreases j,
{
    if j > 0 {
        lemma_intervals_telescope(p, j - 1);
        assert(intervals(p.take(j + 1)).drop_last() =~= intervals(p.take(j)));
    } else {
        assert(intervals(p.take(1)) =~= Seq::<int>::empty());
    }
}

/// Beats per minute: 60 over the mean gap in seconds, which is
/// `60 * sample_rate * (number of gaps) / (sum of gaps)`. Fewer than two
/// peaks give exactly zero; a zero mean gap is `DegenerateResult`.
pub fn calculate_heart_rate(signal: &SignalData, peaks: &[usize]) -> (r: Result<Fraction, SignalError>)
    requires
        is_sorted(peaks@),
    ensures
        peaks.len() < 2 ==> r == Ok::<Fraction, SignalError>(Fraction { num: 0, den: 1 }),
        peaks.len() >= 2 ==> (r.is_err() <==> sum(intervals(peaks@)) == 0),
        r.is_err() ==> r == Err::<Fraction, SignalError>(SignalError::DegenerateResult),
        peaks.len() >= 2 ==> (r matches Ok(f) ==> f.num == 60 * signal.sample_rate * (peaks.len() - 1)
            && f.den == sum(intervals(peaks@))),
{
    let n = peaks.len();
    if n < 2 {
        return Ok(Fraction { num: 0, den: 1 });
    }
    let total = peaks[n - 1] - peaks[0];
    proof {
        lemma_intervals_telescope(peaks@, n - 1);
        assert(peaks@.take(n as int) =~= peaks@);
    }
    if total == 0 {
        return Err(SignalError::DegenerateResult);
    }
    let gaps = (n - 1) as i128;
    let rate = signal.sample_rate as i128;
    assert(60 * rate * gaps <= 60 * 0x1_0000_0000 * 0x1_0000_0000_0000_0000) by (nonlinear_arith)
        requires
            0 <= rate < 0x1_0000_0000,
            0 <= gaps < 0x1_0000_0000_0000_0000,
    ;
    Ok(Fraction { num: 60 * rate * gaps, den: total as u128 })
}

/// The squared coefficient of variation of the peak gaps, as the ratio
/// `dispersion / scale`: the variance of the gaps over their squared mean.
#[derive(Clone, Copy, Debug, PartialEq, Eq, Structural)]
pub struct Regularity {
    pub dispersion: u128,
    pub scale: u128,
}

/// The rhythm of a sequence of peaks.
#[derive(Clone, Copy, Debug, PartialEq, Eq, Structural)]
pub enum Rhythm {
    NoPeaks,
    Regular,
    MildlyIrregular,
    Irregular,
}

impl Regularity {
    /// Terms small enough to compare against the class limits.
    pub open spec fn wf(&self) -> bool {
        self.dispersion <= 0x0100_0000_0000_0000_0000_0000_0000_0000 && self.scale
            <= 0x0100_0000_0000_0000_0000_0000_0000_0000
    }
}

/// The class of a squared coefficient of variation `dispersion / scale`:
/// below `0.1` (squared: `1/100`) regular, below `0.3` (squared:
/// `9/100`) mildly irregular, irregular otherwise. A zero mean gap
/// (`scale == 0`) is irregular.
pub open spec fn class_of(dispersion: int, scale: int) -> Rhythm {
    if 100 * dispersion < scale {
        Rhythm::Regular
    } else if 100 * dispersion < 9 * scale {
        Rhythm::MildlyIrregular
    } else {
        Rhythm::Irregular
    }
}

/// The rhythm of peaks `p`: no peaks, regular with fewer than three peaks
/// (a regularity of zero), and otherwise the class of the gaps' variation.
pub open spec fn rhythm_of(p: Seq<usize>) -> Rhythm {
    if p.len() == 0 {
        Rhythm::NoPeaks
    } else if p.len() < 3 {
        class_of(0, 1)
    } else {
        class_of(spread(intervals(p)), sum(intervals(p)) * sum(intervals(p)))
    }
}

/// The text of a rhythm class.
pub open spec fn label_of(r: Rhythm) -> Seq<char> {
    match r {
        Rhythm::NoPeaks => "no peaks detected"@,
        Rhythm::Regular => "regular rhythm"@,
        Rhythm::MildlyIrregular => "mildly irregular rhythm"@,
        Rhythm::Irregular => "irregular rhythm"@,
    }
}

impl Rhythm {
    pub fn label(&self) -> (r: String)
        ensures
            r@ == label_of(*self),
    {
        match self {
            Rhythm::NoPeaks => "no peaks detected".to_string(),
            Rhythm::Regular => "regular rhythm".to_string(),
            Rhythm::MildlyIrregular => "mildly irregular rhythm".to_string(),
            Rhythm::Irregular => "irregular rhythm".to_string(),
        }
    }
}

/// The regularity of the gaps between peaks. With fewer than three peaks
/// it is zero (`0 / 1`); otherwise `dispersion` is `m * sum(g^2) - sum(g)^2`
/// over the `m` gaps `g` and `scale` is `sum(g)^2`, so that
/// `dispersion / scale` is the gaps' variance over their squared mean.
pub fn calculate_regularity(peaks: &[usize]) -> (r: Regularity)
    requires
        is_sorted(peaks@),
        fits_signal(peaks@),
    ensures
        r.wf(),
        peaks.len() < 3 ==> r == (Regularity { dispersion: 0, scale: 1 }),
        peaks.len() >= 3 ==> r.dispersion == spread(intervals(peaks@)) && r.scale == sum(
            intervals(peaks@),
        ) * sum(intervals(peaks@)),
{
    let n = peaks.len();
    if n < 3 {
        return Regularity { dispersion: 0, scale: 1 };
    }
    let ghost g = intervals(peaks@);
    let m = n - 1;
    let mut total: u128 = 0;
    let mut total_sq: u128 = 0;
    let mut j: usize = 0;
    while j < m
        invariant
            m == n - 1,
            n == peaks.len(),
            g == intervals(peaks@),
            g.len() == m,
            is_sorted(peaks@),
            fits_signal(peaks@),
            0 <= j <= m,
            total == sum(g.take(j as int)),
            total_sq == sum_sq(g.take(j as int)),
            total <= j * 0x4000_0000,
            total_sq <= j * 0x1000_0000_0000_0000,
        decreases m - j,
    {
        proof {
            lemma_sums_take(g, j as int);
        }
        assert(peaks@[j as int] <= peaks@[j + 1]);
        assert(peaks@[j + 1] < MAX_SAMPLES);
        let d = (peaks[j + 1] - peaks[j]) as u128;
        assert(d * d <= 0x1000_0000_0000_0000) by (nonlinear_arith)
            requires
                d < 0x4000_0000,
        ;
        total = total + d;
        total_sq = total_sq + d * d;
        j = j + 1;
    }
    proof {
        assert(g.take(m as int) =~= g);
        lemma_spread_nonneg(g);
    }
    let count = m as u128;
    assert(count * total_sq <= 0x4000_0000 * 0x4000_0000 * 0x1000_0000_0000_0000)
        by (nonlinear_arith)
        requires
            count <= 0x4000_0000,
            total_sq <= 0x4000_0000 * 0x1000_0000_0000_0000,
    ;
    assert(total * total <= 0x1000_0000_0000_0000 * 0x1000_0000_0000_0000)
        by (nonlinear_arith)
        requires
            total <= 0x4000_0000 * 0x4000_0000,
    ;
    Regularity { dispersion: count * total_sq - total * total, scale: total * total }
}

/// The class of a regularity, decided exactly in integers.
pub fn classify_regularity(r: &Regularity) -> (c: Rhythm)
    requires
        r.wf(),
    ensures
        c == class_of(r.dispersion as int, r.scale as int),
{
    if 100 * r.dispersion < r.scale {
        Rhythm::Regular
    } else if 100 * r.dispersion < 9 * r.scale {
        Rhythm::MildlyIrregular
    } else {
        Rhythm::Irregular
    }
}

/// The rhythm class of a sequence of peaks.
pub fn classify_rhythm(peaks: &[usize]) -> (c: Rhythm)
    requires
        is_sorted(peaks@),
        fits_signal(peaks@),
    ensures
        c == rhythm_of(peaks@),
{
    if peaks.len() == 0 {
        return Rhythm::NoPeaks;
    }
    let r = calculate_regularity(peaks);
    classify_regularity(&r)
}

/// The rhythm label of the peaks of a signal: "no peaks detected",
/// "regular rhythm", "mildly irregular rhythm" or "irregular rhythm".
pub fn analyze_rhythm(_signal: &SignalData, peaks: &[usize]) -> (r: String)
    requires
        is_sorted(peaks@),
        fits_signal(peaks@),
    ensures
        r@ == label_of(rhythm_of(peaks@)),
{
    classify_rhythm(peaks).label()
}

} // verus!
