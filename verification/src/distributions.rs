//! Student's t distribution table.
//!
//! The table stores critical values for the one-tailed significance levels
//! .25, .20, .15, .10, .05, .025, .02, .01, .005, .0025, .001 and .0005
//! (columns 0 through 11), for degrees of freedom 1..=30 and the buckets
//! 40, 50, 60, 80, 100 and 1000, plus a large-sample ("z") row.
//!
//! Significance levels are passed as integers in ten-thousandths (so 250
//! stands for 0.025), and critical values are returned in thousandths (so
//! 2064 stands for 2.064); neither needs any floating point.

use vstd::prelude::*;

verus! {

/// Row selector of the embedded t table: either one of the tabulated
/// degrees-of-freedom buckets, or the large-sample ("z") row.
#[derive(Clone, Copy, Debug, PartialEq, Eq, Structural)]
pub enum DofKey {
    Bucket(u32),
    LargeSample,
}

/// Failure of a table lookup, per the error taxonomy: the only way a lookup
/// can fail is a significance level outside the tabulated range.
#[derive(Clone, Copy, Debug, PartialEq, Eq, Structural)]
pub enum DistributionLookupError {
    AlphaOutOfRange,
}

/// Row bucketing of the printed t table: degrees of freedom up to 30 map to
/// their own row, 31..=60 round to the nearest multiple of ten (halves round
/// up), anything above snaps upward through 80, 100 and 1000, and 1000 or
/// more uses the large-sample row.
pub open spec fn spec_key_for_dof(dof: u32) -> DofKey {
    if dof <= 30 {
        DofKey::Bucket(dof)
    } else if dof <= 60 {
        DofKey::Bucket((((dof + 5) / 10) * 10) as u32)
    } else if dof < 80 {
        DofKey::Bucket(80)
    } else if dof < 100 {
        DofKey::Bucket(100)
    } else if dof < 1000 {
        DofKey::Bucket(1000)
    } else {
        DofKey::LargeSample
    }
}

/// Select the table row for a degrees-of-freedom count.
pub fn key_for_dof(dof: u32) -> (key: DofKey)
    ensures
        key == spec_key_for_dof(dof),
{
    if dof <= 30 {
        DofKey::Bucket(dof)
    } else if dof <= 60 {
        DofKey::Bucket(((dof + 5) / 10) * 10)
    } else if dof < 80 {
        DofKey::Bucket(80)
    } else if dof < 100 {
        DofKey::Bucket(100)
    } else if dof < 1000 {
        DofKey::Bucket(1000)
    } else {
        DofKey::LargeSample
    }
}

/// Column of the smallest tabulated significance level that is at least
/// `alpha` (given in ten-thousandths), or `None` for an alpha outside the
/// tabulated range [0, 0.25).
pub open spec fn spec_index_for_alpha(alpha: u32) -> Option<usize> {
    if alpha <= 5 {
        Some(11usize)
    } else if alpha <= 10 {
        Some(10usize)
    } else if alpha <= 25 {
        Some(9usize)
    } else if alpha <= 50 {
        Some(8usize)
    } else if alpha <= 100 {
        Some(7usize)
    } else if alpha <= 200 {
        Some(6usize)
    } else if alpha <= 250 {
        Some(5usize)
    } else if alpha <= 500 {
        Some(4usize)
    } else if alpha <= 1000 {
        Some(3usize)
    } else if alpha <= 1500 {
        Some(2usize)
    } else if alpha <= 2000 {
        Some(1usize)
    } else if alpha < 2500 {
        Some(0usize)
    } else {
        None
    }
}

/// Select the table column for a significance level in ten-thousandths.
pub fn index_for_alpha(alpha: u32) -> (col: Option<usize>)
    ensures
        col == spec_index_for_alpha(alpha),
{
    if alpha <= 5 {
        Some(11)
    } else if alpha <= 10 {
        Some(10)
    } else if alpha <= 25 {
        Some(9)
    } else if alpha <= 50 {
        Some(8)
    } else if alpha <= 100 {
        Some(7)
    } else if alpha <= 200 {
        Some(6)
    } else if alpha <= 250 {
        Some(5)
    } else if alpha <= 500 {
        Some(4)
    } else if alpha <= 1000 {
        Some(3)
    } else if alpha <= 1500 {
        Some(2)
    } else if alpha <= 2000 {
        Some(1)
    } else if alpha < 2500 {
        Some(0)
    } else {
        None
    }
}

/// The embedded table: one row of twelve critical values (in thousandths)
/// per row selector. A bucket that the table does not print falls back to
/// the large-sample row; `spec_key_for_dof` never produces such a bucket.
pub open spec fn spec_t_table_row(key: DofKey) -> Seq<u32> {
    match key {
        DofKey::Bucket(d) => {
            if d == 1 {
                seq![1000u32, 1376, 1963, 3078, 6314, 12706, 15894, 31821, 63657, 127321, 318309, 636619]
            } else if d == 2 {
                seq![816u32, 1061, 1386, 1886, 2920, 4303, 4849, 6965, 9925, 14089, 22327, 31599]
            } else if d == 3 {
                seq![765u32, 978, 1250, 1638, 2353, 3182, 3482, 4541, 5841, 7453, 10215, 12924]
            } else if d == 4 {
                seq![741u32, 941, 1190, 1533, 2132, 2776, 2999, 3747, 4604, 5598, 7173, 8610]
            } else if d == 5 {
                seq![727u32, 920, 1156, 1476, 2015, 2571, 2757, 3365, 4032, 4773, 5893, 6869]
            } else if d == 6 {
                seq![718u32, 906, 1134, 1440, 1943, 2447, 2612, 3143, 3707, 4317, 5208, 5959]
            } else if d == 7 {
                seq![711u32, 896, 1119, 1415, 1895, 2365, 2517, 2998, 3499, 4029, 4785, 5408]
            } else if d == 8 {
                seq![706u32, 889, 1108, 1397, 1860, 2306, 2449, 2896, 3355, 3833, 4501, 5041]
            } else if d == 9 {
                seq![703u32, 883, 1100, 1383, 1833, 2262, 2398, 2821, 3250, 3690, 4297, 4781]
            } else if d == 10 {
                seq![700u32, 879, 1093, 1372, 1812, 2228, 2359, 2764, 3169, 3581, 4144, 4587]
            } else if d == 11 {
                seq![697u32, 876, 1088, 1363, 1796, 2201, 2328, 2718, 3106, 3497, 4025, 4437]
            } else if d == 12 {
                seq![695u32, 873, 1083, 1356, 1782, 2179, 2303, 2681, 3055, 3428, 3930, 4318]
            } else if d == 13 {
                seq![694u32, 870, 1079, 1350, 1771, 2160, 2282, 2650, 3012, 3372, 3852, 4221]
            } else if d == 14 {
                seq![692u32, 868, 1076, 1345, 1761, 2145, 2264, 2624, 2977, 3326, 3787, 4140]
            } else if d == 15 {
                seq![691u32, 866, 1074, 1341, 1753, 2131, 2249, 2602, 2947, 3286, 3733, 4073]
            } else if d == 16 {
                seq![690u32, 865, 1071, 1337, 1746, 2120, 2235, 2583, 2921, 3252, 3686, 4015]
            } else if d == 17 {
                seq![689u32, 863, 1069, 1333, 1740, 2110, 2224, 2567, 2898, 3222, 3646, 3965]
            } else if d == 18 {
                seq![688u32, 862, 1067, 1330, 1734, 2101, 2214, 2552, 2878, 3197, 3610, 3922]
            } else if d == 19 {
                seq![688u32, 861, 1066, 1328, 1729, 2093, 2205, 2539, 2861, 3174, 3579, 3883]
            } else if d == 20 {
                seq![687u32, 860, 1064, 1325, 1725, 2086, 2197, 2528, 2845, 3153, 3552, 3850]
            } else if d == 21 {
                seq![686u32, 859, 1063, 1323, 1721, 2080, 2189, 2518, 2831, 3135, 3527, 3819]
            } else if d == 22 {
                seq![686u32, 858, 1061, 1321, 1717, 2074, 2183, 2508, 2819, 3119, 3505, 3792]
            } else if d == 23 {
                seq![685u32, 858, 1060, 1319, 1714, 2069, 2177, 2500, 2807, 3104, 3485, 3768]
            } else if d == 24 {
                seq![685u32, 857, 1059, 1318, 1711, 2064, 2172, 2492, 2797, 3091, 3467, 3745]
            } else if d == 25 {
                seq![684u32, 856, 1058, 1316, 1708, 2060, 2167, 2485, 2787, 3078, 3450, 3725]
            } else if d == 26 {
                seq![684u32, 856, 1058, 1315, 1706, 2056, 2162, 2479, 2779, 3067, 3435, 3707]
            } else if d == 27 {
                seq![684u32, 855, 1057, 1314, 1703, 2052, 2158, 2473, 2771, 3057, 3421, 3690]
            } else if d == 28 {
                seq![683u32, 855, 1056, 1313, 1701, 2048, 2154, 2467, 2763, 3047, 3408, 3674]
            } else if d == 29 {
                seq![683u32, 854, 1055, 1311, 1699, 2045, 2150, 2462, 2756, 3038, 3396, 3659]
            } else if d == 30 {
                seq![683u32, 854, 1055, 1310, 1697, 2042, 2147, 2457, 2750, 3030, 3385, 3646]
            } else if d == 40 {
                seq![681u32, 851, 1050, 1303, 1684, 2021, 2123, 2423, 2704, 2971, 3307, 3551]
            } else if d == 50 {
                seq![679u32, 849, 1047, 1299, 1676, 2009, 2109, 2403, 2678, 2937, 3261, 3496]
            } else if d == 60 {
                seq![679u32, 848, 1045, 1296, 1671, 2000, 2099, 2390, 2660, 2915, 3232, 3460]
            } else if d == 80 {
                seq![678u32, 846, 1043, 1292, 1664, 1990, 2088, 2374, 2639, 2887, 3195, 3416]
            } else if d == 100 {
                seq![677u32, 845, 1042, 1290, 1660, 1984, 2081, 2364, 2626, 2871, 3174, 3390]
            } else if d == 1000 {
                seq![675u32, 842, 1037, 1282, 1646, 1962, 2056, 2330, 2581, 2813, 3098, 3300]
            } else {
                seq![674u32, 841, 1036, 1282, 1645, 1960, 2054, 2326, 2576, 2807, 3090, 3291]
            }
        },
        DofKey::LargeSample => {
            seq![674u32, 841, 1036, 1282, 1645, 1960, 2054, 2326, 2576, 2807, 3090, 3291]
        },
    }
}

/// Every value of the table lies between the loosest large-sample entry and
/// the tightest single-degree entry.
#[verifier::rlimit(100)]
pub proof fn lemma_t_table_row_bounds(key: DofKey)
    ensures
        forall|c: int| 0 <= c < 12 ==> 674 <= #[trigger] spec_t_table_row(key)[c] <= 636619,
{
}

/// Fetch one row of the embedded table.
#[verifier::rlimit(40)]
fn t_table_row(key: DofKey) -> (row: [u32; 12])
    ensures
        row@ == spec_t_table_row(key),
{
    match key {
        DofKey::Bucket(d) => {
            if d == 1 {
                [1000, 1376, 1963, 3078, 6314, 12706, 15894, 31821, 63657, 127321, 318309, 636619]
            } else if d == 2 {
                [816, 1061, 1386, 1886, 2920, 4303, 4849, 6965, 9925, 14089, 22327, 31599]
            } else if d == 3 {
                [765, 978, 1250, 1638, 2353, 3182, 3482, 4541, 5841, 7453, 10215, 12924]
            } else if d == 4 {
                [741, 941, 1190, 1533, 2132, 2776, 2999, 3747, 4604, 5598, 7173, 8610]
            } else if d == 5 {
                [727, 920, 1156, 1476, 2015, 2571, 2757, 3365, 4032, 4773, 5893, 6869]
            } else if d == 6 {
                [718, 906, 1134, 1440, 1943, 2447, 2612, 3143, 3707, 4317, 5208, 5959]
            } else if d == 7 {
                [711, 896, 1119, 1415, 1895, 2365, 2517, 2998, 3499, 4029, 4785, 5408]
            } else if d == 8 {
                [706, 889, 1108, 1397, 1860, 2306, 2449, 2896, 3355, 3833, 4501, 5041]
            } else if d == 9 {
                [703, 883, 1100, 1383, 1833, 2262, 2398, 2821, 3250, 3690, 4297, 4781]
            } else if d == 10 {
                [700, 879, 1093, 1372, 1812, 2228, 2359, 2764, 3169, 3581, 4144, 4587]
            } else if d == 11 {
                [697, 876, 1088, 1363, 1796, 2201, 2328, 2718, 3106, 3497, 4025, 4437]
            } else if d == 12 {
                [695, 873, 1083, 1356, 1782, 2179, 2303, 2681, 3055, 3428, 3930, 4318]
            } else if d == 13 {
                [694, 870, 1079, 1350, 1771, 2160, 2282, 2650, 3012, 3372, 3852, 4221]
            } else if d == 14 {
                [692, 868, 1076, 1345, 1761, 2145, 2264, 2624, 2977, 3326, 3787, 4140]
            } else if d == 15 {
                [691, 866, 1074, 1341, 1753, 2131, 2249, 2602, 2947, 3286, 3733, 4073]
            } else if d == 16 {
                [690, 865, 1071, 1337, 1746, 2120, 2235, 2583, 2921, 3252, 3686, 4015]
            } else if d == 17 {
                [689, 863, 1069, 1333, 1740, 2110, 2224, 2567, 2898, 3222, 3646, 3965]
            } else if d == 18 {
                [688, 862, 1067, 1330, 1734, 2101, 2214, 2552, 2878, 3197, 3610, 3922]
            } else if d == 19 {
                [688, 861, 1066, 1328, 1729, 2093, 2205, 2539, 2861, 3174, 3579, 3883]
            } else if d == 20 {
                [687, 860, 1064, 1325, 1725, 2086, 2197, 2528, 2845, 3153, 3552, 3850]
            } else if d == 21 {
                [686, 859, 1063, 1323, 1721, 2080, 2189, 2518, 2831, 3135, 3527, 3819]
            } else if d == 22 {
                [686, 858, 1061, 1321, 1717, 2074, 2183, 2508, 2819, 3119, 3505, 3792]
            } else if d == 23 {
                [685, 858, 1060, 1319, 1714, 2069, 2177, 2500, 2807, 3104, 3485, 3768]
            } else if d == 24 {
                [685, 857, 1059, 1318, 1711, 2064, 2172, 2492, 2797, 3091, 3467, 3745]
            } else if d == 25 {
                [684, 856, 1058, 1316, 1708, 2060, 2167, 2485, 2787, 3078, 3450, 3725]
            } else if d == 26 {
                [684, 856, 1058, 1315, 1706, 2056, 2162, 2479, 2779, 3067, 3435, 3707]
            } else if d == 27 {
                [684, 855, 1057, 1314, 1703, 2052, 2158, 2473, 2771, 3057, 3421, 3690]
            } else if d == 28 {
                [683, 855, 1056, 1313, 1701, 2048, 2154, 2467, 2763, 3047, 3408, 3674]
            } else if d == 29 {
                [683, 854, 1055, 1311, 1699, 2045, 2150, 2462, 2756, 3038, 3396, 3659]
            } else if d == 30 {
                [683, 854, 1055, 1310, 1697, 2042, 2147, 2457, 2750, 3030, 3385, 3646]
            } else if d == 40 {
                [681, 851, 1050, 1303, 1684, 2021, 2123, 2423, 2704, 2971, 3307, 3551]
            } else if d == 50 {
                [679, 849, 1047, 1299, 1676, 2009, 2109, 2403, 2678, 2937, 3261, 3496]
            } else if d == 60 {
                [679, 848, 1045, 1296, 1671, 2000, 2099, 2390, 2660, 2915, 3232, 3460]
            } else if d == 80 {
                [678, 846, 1043, 1292, 1664, 1990, 2088, 2374, 2639, 2887, 3195, 3416]
            } else if d == 100 {
                [677, 845, 1042, 1290, 1660, 1984, 2081, 2364, 2626, 2871, 3174, 3390]
            } else if d == 1000 {
                [675, 842, 1037, 1282, 1646, 1962, 2056, 2330, 2581, 2813, 3098, 3300]
            } else {
                [674, 841, 1036, 1282, 1645, 1960, 2054, 2326, 2576, 2807, 3090, 3291]
            }
        },
        DofKey::LargeSample => {
            [674, 841, 1036, 1282, 1645, 1960, 2054, 2326, 2576, 2807, 3090, 3291]
        },
    }
}

/// What a successful lookup returns: the entry of the bucketed row at the
/// column of the requested significance level.
pub open spec fn spec_lookup_value(dof: u32, alpha: u32) -> u32
    recommends
        spec_index_for_alpha(alpha) is Some,
{
    spec_t_table_row(spec_key_for_dof(dof))[spec_index_for_alpha(alpha)->Some_0 as int]
}

/// Critical value of the t distribution (in thousandths) for the given
/// degrees of freedom and one-tailed significance level (in
/// ten-thousandths). Succeeds exactly when the significance level lies in
/// the tabulated range [0, 0.25); every value in the table is positive.
pub fn lookup_value(dof: u32, alpha: u32) -> (r: Result<u32, DistributionLookupError>)
    requires
        dof >= 1,
    ensures
        spec_index_for_alpha(alpha) is Some ==> r == Ok::<u32, DistributionLookupError>(
            spec_lookup_value(dof, alpha),
        ),
        spec_index_for_alpha(alpha) is None ==> r == Err::<u32, DistributionLookupError>(
            DistributionLookupError::AlphaOutOfRange,
        ),
        r matches Ok(v) ==> 674 <= v <= 636619,
{
    let key = key_for_dof(dof);
    match index_for_alpha(alpha) {
        Some(col) => {
            let row = t_table_row(key);
            proof {
                lemma_t_table_row_bounds(key);
            }
            Ok(row[col])
        },
        None => Err(DistributionLookupError::AlphaOutOfRange),
    }
}

} // verus!
