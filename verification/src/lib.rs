//! Core of an HTTP benchmarking tool: expansion of parameterized experiment
//! descriptions into concrete trials, and statistical analysis of the
//! measured latencies (confidence intervals and pairwise equivalence tests).
//!
//! All latency statistics are carried in fixed-point integers (thousandths
//! of a millisecond), so every computation here is exact and verified; the
//! unverified shell around this library converts measured durations to
//! whole milliseconds before handing them in, and turns fixed-point results
//! back into readable numbers.

pub mod config;
pub mod distributions;
pub mod math;
pub mod trial;
