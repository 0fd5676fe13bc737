//! Exact analysis of sampled signals: causal moving-average filtering,
//! population statistics, threshold peak detection, and heart-rate and
//! rhythm estimation from the spacing of the detected peaks.
//!
//! Samples are integer readings (for instance ADC counts) and the sample
//! rate is a whole number of samples per second. Every derived quantity
//! is reported as an exact `Fraction`, and every comparison against a
//! threshold that involves a square root is decided exactly in integer
//! arithmetic.
pub mod arith;
pub mod ecg;
pub mod signal;

pub use arith::Fraction;
pub use signal::{ProcessedSignal, SignalData, SignalError, Statistics};

