use perf_analyzer::distributions::{
    index_for_alpha, key_for_dof, lookup_value, DistributionLookupError, DofKey,
};

#[test]
fn test_lookup_standard_values() {
    // dof 24 at alpha 0.025: the familiar 2.064.
    assert_eq!(lookup_value(24, 250), Ok(2064));
    // Any dof of 1000 or more uses the large-sample row: 1.960.
    assert_eq!(lookup_value(1000, 250), Ok(1960));
    assert_eq!(lookup_value(5000, 250), Ok(1960));
    // dof 45 rounds up to the 50 bucket: 2.009, not the 40 bucket's 2.021.
    assert_eq!(lookup_value(45, 250), Ok(2009));
    assert_eq!(lookup_value(44, 250), Ok(2021));
}

#[test]
fn test_lookup_rejects_out_of_range_alpha() {
    // alpha = 0.3 lies outside the tabulated range.
    assert_eq!(
        lookup_value(24, 3000),
        Err(DistributionLookupError::AlphaOutOfRange)
    );
    // alpha = 0.25 itself is already outside [0, 0.25).
    assert_eq!(
        lookup_value(24, 2500),
        Err(DistributionLookupError::AlphaOutOfRange)
    );
}

#[test]
fn test_key_for_dof_buckets() {
    assert_eq!(key_for_dof(1), DofKey::Bucket(1));
    assert_eq!(key_for_dof(30), DofKey::Bucket(30));
    // 31..=60 round to the nearest ten, halves upward.
    assert_eq!(key_for_dof(31), DofKey::Bucket(30));
    assert_eq!(key_for_dof(35), DofKey::Bucket(40));
    assert_eq!(key_for_dof(45), DofKey::Bucket(50));
    assert_eq!(key_for_dof(60), DofKey::Bucket(60));
    // Above 60 the bucket snaps strictly upward.
    assert_eq!(key_for_dof(61), DofKey::Bucket(80));
    assert_eq!(key_for_dof(79), DofKey::Bucket(80));
    assert_eq!(key_for_dof(80), DofKey::Bucket(100));
    assert_eq!(key_for_dof(99), DofKey::Bucket(100));
    assert_eq!(key_for_dof(100), DofKey::Bucket(1000));
    assert_eq!(key_for_dof(999), DofKey::Bucket(1000));
    assert_eq!(key_for_dof(1000), DofKey::LargeSample);
}

#[test]
fn test_index_for_alpha_columns() {
    // The smallest tabulated level at least as tight as the request.
    assert_eq!(index_for_alpha(0), Some(11));
    assert_eq!(index_for_alpha(5), Some(11));
    assert_eq!(index_for_alpha(6), Some(10));
    assert_eq!(index_for_alpha(250), Some(5));
    assert_eq!(index_for_alpha(300), Some(4));
    assert_eq!(index_for_alpha(2000), Some(1));
    assert_eq!(index_for_alpha(2499), Some(0));
    assert_eq!(index_for_alpha(2500), None);
}
