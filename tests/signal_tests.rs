use biomed_rust::ecg::{analyze_rhythm, calculate_heart_rate, calculate_regularity, classify_rhythm, Regularity, Rhythm};
use biomed_rust::{Fraction, SignalData, SignalError};

fn value(f: &Fraction) -> f64 {
    f.num as f64 / f.den as f64
}

fn frac(num: i128, den: u128) -> Fraction {
    Fraction { num, den }
}

/// A 1 Hz sine of unit amplitude, sampled at 1000 Hz for two seconds, with
/// the deterministic perturbation `sin((12345 + i) * 0.1) * 0.1`, read out
/// in thousandths.
fn noisy_sine_counts() -> Vec<i32> {
    let sample_rate = 1000.0f64;
    let n = (sample_rate * 2.0) as usize;
    let mut out = Vec::new();
    for i in 0..n {
        let t = i as f64 / sample_rate;
        let clean = (2.0 * std::f64::consts::PI * 1.0 * t).sin();
        let noise = ((12345.0 + i as f64) * 0.1).sin() * 0.1;
        out.push(((clean + noise) * 1000.0).round() as i32);
    }
    out
}

#[test]
fn test_signal_processing() {
    let samples = vec![1, 2, 3, 2, 1];
    let signal = SignalData::new(samples, 1000);

    let processed = signal.process().unwrap();
    assert_eq!(processed.filtered.len(), 5);
    let mean = value(&processed.mean);
    assert!(mean >= 1.8 && mean < 2.2);
}

#[test]
fn test_ecg_analysis() {
    let signal = SignalData::new(noisy_sine_counts(), 1000);

    let processed = signal.process().unwrap();
    let heart_rate = calculate_heart_rate(&signal, &processed.peaks).unwrap();
    let rhythm = analyze_rhythm(&signal, &processed.peaks);

    assert!(value(&heart_rate) >= 0.0);
    assert!(!rhythm.is_empty());
}

#[test]
fn filter_keeps_length() {
    for n in 1..12usize {
        let samples: Vec<i32> = (0..n as i32).map(|x| x * 7 - 20).collect();
        let signal = SignalData::new(samples, 250);
        for w in 1..8usize {
            assert_eq!(signal.moving_average_filter(w).unwrap().len(), n);
        }
    }
}

#[test]
fn filter_uses_causal_truncated_window() {
    let signal = SignalData::new(vec![1, 2, 3, 2, 1], 1000);
    let f = signal.moving_average_filter(2).unwrap();
    assert_eq!(f, vec![frac(1, 1), frac(3, 2), frac(5, 2), frac(5, 2), frac(3, 2)]);
    let g = signal.moving_average_filter(5).unwrap();
    assert_eq!(g, vec![frac(1, 1), frac(3, 2), frac(6, 3), frac(8, 4), frac(9, 5)]);
    let h = signal.moving_average_filter(100).unwrap();
    assert_eq!(h, g);
}

#[test]
fn filter_rejects_zero_window_and_empty_signal() {
    let signal = SignalData::new(vec![4, 5], 1000);
    assert_eq!(signal.moving_average_filter(0), Err(SignalError::InvalidInput));
    let empty = SignalData::new(vec![], 1000);
    assert_eq!(empty.moving_average_filter(3), Err(SignalError::InvalidInput));
}

#[test]
fn statistics_are_population_statistics() {
    let signal = SignalData::new(vec![1, 2, 3, 2, 1], 1000);
    let st = signal.statistics().unwrap();
    assert_eq!(st.count, 5);
    assert_eq!(st.sum, 9);
    assert_eq!(st.sum_sq, 19);
    assert_eq!(st.mean(), frac(9, 5));
    // variance = (5 * 19 - 81) / 25 = 0.56
    assert_eq!(st.variance(), frac(14, 25));
}

#[test]
fn statistics_of_empty_signal_is_invalid() {
    let empty = SignalData::new(vec![], 1000);
    assert_eq!(empty.statistics(), Err(SignalError::InvalidInput));
    assert!(matches!(empty.process(), Err(SignalError::InvalidInput)));
}

#[test]
fn threshold_is_mean_plus_std_dev() {
    // mean 2, standard deviation 1: the threshold is exactly 3
    let signal = SignalData::new(vec![1, 3, 1, 3], 1000);
    let st = signal.statistics().unwrap();
    assert!(!st.is_above(3));
    assert!(st.is_above(4));
    assert!(!st.is_above(2));
}

#[test]
fn peaks_of_small_signal() {
    let signal = SignalData::new(vec![1, 2, 3, 2, 1], 1000);
    assert_eq!(signal.process().unwrap().peaks, vec![2]);
    let three = SignalData::new(vec![1, 3, 1], 1000);
    assert_eq!(three.process().unwrap().peaks, vec![1]);
}

#[test]
fn plateaus_and_threshold_ties_are_not_peaks() {
    let plateau = SignalData::new(vec![0, 0, 9, 9, 0, 0], 1000);
    assert!(plateau.process().unwrap().peaks.is_empty());
    // the maxima equal mean plus std dev (3), so none is strictly above
    let ties = SignalData::new(vec![1, 3, 1, 3, 1, 3, 1, 3], 1000);
    let st = ties.statistics().unwrap();
    assert_eq!(st.mean(), frac(16, 8));
    assert!(ties.detect_peaks(&st).is_empty());
}

#[test]
fn peaks_are_increasing_and_interior() {
    let samples = noisy_sine_counts();
    let n = samples.len();
    let signal = SignalData::new(samples, 1000);
    let peaks = signal.process().unwrap().peaks;
    assert!(!peaks.is_empty());
    for w in peaks.windows(2) {
        assert!(w[0] < w[1]);
    }
    for &p in &peaks {
        assert!(p >= 1 && p <= n - 2);
    }
}

#[test]
fn process_twice_gives_the_same_result() {
    let signal = SignalData::new(vec![3, -1, 4, 1, -5, 9, 2, -6, 5, 3], 360);
    let a = signal.process().unwrap();
    let b = signal.process().unwrap();
    assert_eq!(a.filtered, b.filtered);
    assert_eq!(a.mean, b.mean);
    assert_eq!(a.variance, b.variance);
    assert_eq!(a.peaks, b.peaks);
}

#[test]
fn constant_signal_has_no_peaks() {
    let signal = SignalData::new(vec![7; 20], 1000);
    let st = signal.statistics().unwrap();
    assert!(signal.detect_peaks(&st).is_empty());
    assert_eq!(st.variance(), frac(0, 400));
}

#[test]
fn short_signals_have_no_peaks() {
    let st = SignalData::new(vec![1, 5, 1], 1000).statistics().unwrap();
    let empty = SignalData::new(vec![], 1000);
    assert!(empty.detect_peaks(&st).is_empty());
    let one = SignalData::new(vec![100], 1000);
    assert!(one.detect_peaks(&st).is_empty());
    let two = SignalData::new(vec![1, 100], 1000);
    assert!(two.detect_peaks(&st).is_empty());
}

#[test]
fn process_with_window_uses_given_window() {
    let signal = SignalData::new(vec![2, 4, 6], 1000);
    let p = signal.process_with_window(1).unwrap();
    assert_eq!(p.filtered, vec![frac(2, 1), frac(4, 1), frac(6, 1)]);
    assert!(matches!(signal.process_with_window(0), Err(SignalError::InvalidInput)));
}

#[test]
fn heart_rate_of_few_peaks_is_zero() {
    let signal = SignalData::new(vec![0, 1, 0], 1000);
    assert_eq!(calculate_heart_rate(&signal, &[]), Ok(frac(0, 1)));
    assert_eq!(calculate_heart_rate(&signal, &[42]), Ok(frac(0, 1)));
}

#[test]
fn heart_rate_from_mean_interval() {
    let signal = SignalData::new(vec![0], 1000);
    // mean gap 10 samples = 0.01 s, so 6000 beats per minute
    let hr = calculate_heart_rate(&signal, &[10, 20, 30]).unwrap();
    assert_eq!(hr, frac(120000, 20));
    assert_eq!(value(&hr), 6000.0);
    let slow = SignalData::new(vec![0], 250);
    // gaps of 200 and 300 samples: mean 250 samples = 1 s, 60 beats per minute
    let hr2 = calculate_heart_rate(&slow, &[100, 300, 600]).unwrap();
    assert_eq!(value(&hr2), 60.0);
}

#[test]
fn heart_rate_of_coincident_peaks_is_degenerate() {
    let signal = SignalData::new(vec![0], 1000);
    assert_eq!(calculate_heart_rate(&signal, &[5, 5]), Err(SignalError::DegenerateResult));
}

#[test]
fn evenly_spaced_peaks_are_regular() {
    for rate in [1u32, 250, 360, 1000] {
        let signal = SignalData::new(vec![0], rate);
        assert_eq!(analyze_rhythm(&signal, &[10, 20, 30]), "regular rhythm");
    }
    assert_eq!(calculate_regularity(&[10, 20, 30]), Regularity { dispersion: 0, scale: 400 });
}

#[test]
fn no_peaks_detected() {
    let signal = SignalData::new(vec![0], 1000);
    assert_eq!(analyze_rhythm(&signal, &[]), "no peaks detected");
    assert_eq!(classify_rhythm(&[]), Rhythm::NoPeaks);
    assert_eq!(value(&calculate_heart_rate(&signal, &[]).unwrap()), 0.0);
}

#[test]
fn fewer_than_three_peaks_are_regular() {
    let signal = SignalData::new(vec![0], 1000);
    assert_eq!(analyze_rhythm(&signal, &[7]), "regular rhythm");
    assert_eq!(analyze_rhythm(&signal, &[7, 500]), "regular rhythm");
    assert_eq!(calculate_regularity(&[7, 500]), Regularity { dispersion: 0, scale: 1 });
}

#[test]
fn rhythm_classes_follow_coefficient_of_variation() {
    let signal = SignalData::new(vec![0], 1000);
    // gaps 10, 12: mean 11, std dev 1, variation 0.09
    assert_eq!(analyze_rhythm(&signal, &[0, 10, 22]), "regular rhythm");
    assert_eq!(calculate_regularity(&[0, 10, 22]), Regularity { dispersion: 4, scale: 484 });
    // gaps 10, 14: mean 12, std dev 2, variation 0.17
    assert_eq!(analyze_rhythm(&signal, &[0, 10, 24]), "mildly irregular rhythm");
    // gaps 10, 30: mean 20, std dev 10, variation 0.5
    assert_eq!(analyze_rhythm(&signal, &[0, 10, 40]), "irregular rhythm");
    // gaps 0, 0: the mean gap is zero
    assert_eq!(classify_rhythm(&[3, 3, 3]), Rhythm::Irregular);
}

#[test]
fn rhythm_class_boundaries() {
    // gaps 9, 11: mean 10, std dev 1, variation exactly 0.1
    assert_eq!(classify_rhythm(&[0, 9, 20]), Rhythm::MildlyIrregular);
    // gaps 7, 13: mean 10, std dev 3, variation exactly 0.3
    assert_eq!(classify_rhythm(&[0, 7, 20]), Rhythm::Irregular);
}

#[test]
fn rhythm_labels() {
    assert_eq!(Rhythm::NoPeaks.label(), "no peaks detected");
    assert_eq!(Rhythm::Regular.label(), "regular rhythm");
    assert_eq!(Rhythm::MildlyIrregular.label(), "mildly irregular rhythm");
    assert_eq!(Rhythm::Irregular.label(), "irregular rhythm");
}
