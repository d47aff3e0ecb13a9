use perf_analyzer::trial::{Trial, TrialAnalysis, TrialResult, TrialResultSet};

fn dummy_trial() -> Trial {
    Trial {
        name: "t".to_string(),
        url: "http://localhost".to_string(),
        headers: vec![],
        query: vec![],
        params: vec![],
        samples: 25,
        warmup: 10,
    }
}

fn result_set(durations: &[u64]) -> TrialResultSet {
    TrialResultSet {
        trial: dummy_trial(),
        results: durations
            .iter()
            .map(|d| TrialResult {
                duration_ms: *d,
                status: 200,
            })
            .collect(),
    }
}

fn analysis_with(mean_fp: u64, stddev_fp: u64, n: usize) -> TrialAnalysis {
    TrialAnalysis {
        result_set: result_set(&vec![1u64; n]),
        mean: mean_fp,
        stddev: stddev_fp,
        confidence_interval: (0, 0),
    }
}

#[test]
fn test_analyze_textbook_confidence_interval() {
    // 25 samples: 100, 102, ..., 148 ms.
    let durations: Vec<u64> = (0..25).map(|i| 100 + 2 * i).collect();
    let analysis = TrialAnalysis::analyze(result_set(&durations));

    // Textbook values, in milliseconds.
    let n = 25.0f64;
    let mean = durations.iter().sum::<u64>() as f64 / n;
    let var = durations
        .iter()
        .map(|d| (*d as f64 - mean) * (*d as f64 - mean))
        .sum::<f64>()
        / (n - 1.0);
    let stddev = var.sqrt();
    let err = 2.064 * stddev / n.sqrt();

    let got_mean = analysis.mean as f64 / 1000.0;
    let got_stddev = analysis.stddev as f64 / 1000.0;
    let got_low = analysis.confidence_interval.0 as f64 / 1000.0;
    let got_high = analysis.confidence_interval.1 as f64 / 1000.0;
    assert!((got_mean - mean).abs() < 0.01);
    assert!((got_stddev - stddev).abs() < 0.01);
    assert!((got_low - (mean - err)).abs() < 0.01);
    assert!((got_high - (mean + err)).abs() < 0.01);
}

#[test]
fn test_analyze_exact_fixed_point_values() {
    let durations: Vec<u64> = (0..25).map(|i| 100 + 2 * i).collect();
    let analysis = TrialAnalysis::analyze(result_set(&durations));
    // mean 124 ms exactly; variance 5.2e9 / 24 in fixed point squared,
    // rounded down under the integer square root.
    assert_eq!(analysis.mean, 124000);
    assert_eq!(analysis.stddev, 14719);
    // err = 2064 * 14719 / 5000 = 6076 thousandths of a millisecond.
    assert_eq!(analysis.confidence_interval, (117924, 130076));
}

#[test]
fn test_analyze_two_samples() {
    let analysis = TrialAnalysis::analyze(result_set(&[10, 20]));
    assert_eq!(analysis.mean, 15000);
    // stddev = sqrt((5^2 + 5^2) / 1) = 7.0710... ms
    assert_eq!(analysis.stddev, 7071);
    // dof 1 at alpha 0.025: t = 12.706; err = 12706 * 7071 / isqrt(2e6),
    // with isqrt(2_000_000) = 1414.
    let err = 12706i64 * 7071 / 1414;
    assert_eq!(err, 63538);
    assert_eq!(analysis.confidence_interval, (15000 - err, 15000 + err));
}

#[test]
fn test_identical_analyses_are_equivalent() {
    let a = analysis_with(150_000, 5_000, 25);
    let b = analysis_with(150_000, 5_000, 25);
    assert!(a.is_statistically_equivalent_to(&b));
    // A trial is always equivalent to itself.
    assert!(a.is_statistically_equivalent_to(&a));
}

#[test]
fn test_far_apart_analyses_are_not_equivalent() {
    // Ten standard deviations apart with tight variance.
    let a = analysis_with(100_000, 1_000, 25);
    let b = analysis_with(110_000, 1_000, 25);
    assert!(!a.is_statistically_equivalent_to(&b));
    assert!(!b.is_statistically_equivalent_to(&a));
}

#[test]
fn test_close_analyses_are_equivalent() {
    // A tenth of a standard deviation apart.
    let a = analysis_with(100_000, 10_000, 25);
    let b = analysis_with(101_000, 10_000, 25);
    assert!(a.is_statistically_equivalent_to(&b));
    assert!(b.is_statistically_equivalent_to(&a));
}

#[test]
fn test_equivalence_is_symmetric() {
    let cases = [
        (100_000u64, 1_000u64, 25usize, 101_000u64, 2_000u64, 25usize),
        (100_000, 1_000, 25, 110_000, 1_000, 25),
        (50_000, 20_000, 10, 52_000, 30_000, 40),
        (1_000, 1, 2, 2_000, 1, 3),
        (7_000, 0, 12, 7_500, 3_000, 12),
        (123_456, 7_890, 100, 123_456, 7_890, 100),
    ];
    for (m1, s1, n1, m2, s2, n2) in cases {
        let a = analysis_with(m1, s1, n1);
        let b = analysis_with(m2, s2, n2);
        assert_eq!(
            a.is_statistically_equivalent_to(&b),
            b.is_statistically_equivalent_to(&a)
        );
    }
}

#[test]
fn test_reflexive_over_varied_statistics() {
    for (m, s, n) in [
        (1_000u64, 1u64, 2usize),
        (100_000, 10_000, 25),
        (4_294_967_295_000, 8_589_934_590_000, 4096),
    ] {
        let a = analysis_with(m, s, n);
        assert!(a.is_statistically_equivalent_to(&a));
    }
}
