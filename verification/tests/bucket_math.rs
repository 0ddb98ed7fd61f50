//! Bucket arithmetic against the shared corpus: equal weights, bucket
//! ranges, variation choice, and namespace inclusion.

use growthbook_rust_sdk::bucket::{
    choose_variation, get_bucket_ranges, get_equal_weights, in_namespace, BucketRange, Namespace,
};

const PPB: u64 = 1_000_000_000;

fn range(lo_ppb: u64, hi_ppb: u64) -> BucketRange {
    BucketRange {
        lo: lo_ppb * PPB,
        hi: hi_ppb * PPB,
    }
}

#[test]
fn equal_weights_cases() {
    assert_eq!(get_equal_weights(0), Vec::<u64>::new());
    assert_eq!(get_equal_weights(1), vec![1_000_000_000]);
    assert_eq!(get_equal_weights(2), vec![500_000_000, 500_000_000]);
    assert_eq!(get_equal_weights(3), vec![333_333_333, 333_333_333, 333_333_333]);
    assert_eq!(get_equal_weights(4), vec![250_000_000, 250_000_000, 250_000_000, 250_000_000]);
}

#[test]
fn bucket_ranges_normal_half() {
    let r = get_bucket_ranges(2, 1_000_000_000, None);
    assert_eq!(r, vec![range(0, 500_000_000), range(500_000_000, 1_000_000_000)]);
}

#[test]
fn bucket_ranges_reduced_coverage() {
    let r = get_bucket_ranges(2, 500_000_000, None);
    assert_eq!(r[0], range(0, 250_000_000));
    assert_eq!(r[1].lo, 500_000_000 * PPB);
    assert_eq!(r[1].hi, 750_000_000 * PPB);
}

#[test]
fn bucket_ranges_zero_coverage() {
    let r = get_bucket_ranges(2, 0, None);
    assert_eq!(r, vec![range(0, 0), range(500_000_000, 500_000_000)]);
}

#[test]
fn bucket_ranges_four_variations() {
    let r = get_bucket_ranges(4, 1_000_000_000, None);
    assert_eq!(
        r,
        vec![
            range(0, 250_000_000),
            range(250_000_000, 500_000_000),
            range(500_000_000, 750_000_000),
            range(750_000_000, 1_000_000_000),
        ]
    );
}

#[test]
fn bucket_ranges_uneven_weights() {
    let w = vec![400_000_000u64, 600_000_000u64];
    let r = get_bucket_ranges(2, 1_000_000_000, Some(&w));
    assert_eq!(r, vec![range(0, 400_000_000), range(400_000_000, 1_000_000_000)]);
}

#[test]
fn bucket_ranges_uneven_three_variations() {
    let w = vec![200_000_000u64, 300_000_000u64, 500_000_000u64];
    let r = get_bucket_ranges(3, 1_000_000_000, Some(&w));
    assert_eq!(
        r,
        vec![range(0, 200_000_000), range(200_000_000, 500_000_000), range(500_000_000, 1_000_000_000)]
    );
}

#[test]
fn bucket_ranges_uneven_reduced_three_variations() {
    let w = vec![200_000_000u64, 300_000_000u64, 500_000_000u64];
    let r = get_bucket_ranges(3, 200_000_000, Some(&w));
    assert_eq!(r[0], range(0, 40_000_000));
    assert_eq!(r[1].lo, 200_000_000 * PPB);
    assert_eq!(r[1].hi, 260_000_000 * PPB);
    assert_eq!(r[2].lo, 500_000_000 * PPB);
    assert_eq!(r[2].hi, 600_000_000 * PPB);
}

#[test]
fn bucket_ranges_negative_coverage_clamps_to_zero() {
    let r = get_bucket_ranges(2, -200_000_000, None);
    assert_eq!(r, vec![range(0, 0), range(500_000_000, 500_000_000)]);
}

#[test]
fn bucket_ranges_coverage_above_one_clamps() {
    let r = get_bucket_ranges(2, 1_500_000_000, None);
    assert_eq!(r, vec![range(0, 500_000_000), range(500_000_000, 1_000_000_000)]);
}

#[test]
fn bucket_ranges_weights_sum_below_one_replaced() {
    let w = vec![400_000_000u64, 100_000_000u64];
    let r = get_bucket_ranges(2, 1_000_000_000, Some(&w));
    assert_eq!(r, vec![range(0, 500_000_000), range(500_000_000, 1_000_000_000)]);
}

#[test]
fn bucket_ranges_weights_sum_above_one_replaced() {
    let w = vec![700_000_000u64, 600_000_000u64];
    let r = get_bucket_ranges(2, 1_000_000_000, Some(&w));
    assert_eq!(r, vec![range(0, 500_000_000), range(500_000_000, 1_000_000_000)]);
}

#[test]
fn bucket_ranges_weights_length_mismatch_replaced() {
    let w = vec![400_000_000u64, 400_000_000u64, 200_000_000u64];
    let r = get_bucket_ranges(4, 1_000_000_000, Some(&w));
    assert_eq!(r.len(), 4);
    assert_eq!(r[0], range(0, 250_000_000));
    assert_eq!(r[3], range(750_000_000, 1_000_000_000));
}

#[test]
fn bucket_ranges_weights_sum_almost_one_kept() {
    let w = vec![400_000_000u64, 599_900_000u64];
    let r = get_bucket_ranges(2, 1_000_000_000, Some(&w));
    assert_eq!(r[0], range(0, 400_000_000));
    assert_eq!(r[1].lo, 400_000_000 * PPB);
    assert_eq!(r[1].hi, 999_900_000 * PPB);
}

#[test]
fn choose_variation_even_ranges() {
    let ranges = vec![range(0, 500_000_000), range(500_000_000, 1_000_000_000)];
    assert_eq!(choose_variation(200_000_000, &ranges), 0);
    assert_eq!(choose_variation(400_000_000, &ranges), 0);
    assert_eq!(choose_variation(600_000_000, &ranges), 1);
    assert_eq!(choose_variation(800_000_000, &ranges), 1);
    assert_eq!(choose_variation(0, &ranges), 0);
    assert_eq!(choose_variation(500_000_000, &ranges), 1);
}

#[test]
fn choose_variation_reduced_ranges() {
    let ranges = vec![range(0, 250_000_000), range(500_000_000, 750_000_000)];
    assert_eq!(choose_variation(200_000_000, &ranges), 0);
    assert_eq!(choose_variation(400_000_000, &ranges), -1);
    assert_eq!(choose_variation(600_000_000, &ranges), 1);
    assert_eq!(choose_variation(800_000_000, &ranges), -1);
    assert_eq!(choose_variation(250_000_000, &ranges), -1);
    assert_eq!(choose_variation(500_000_000, &ranges), 1);
}

#[test]
fn choose_variation_zero_width_range_skipped() {
    let ranges = vec![
        range(0, 500_000_000),
        range(500_000_000, 500_000_000),
        range(500_000_000, 1_000_000_000),
    ];
    assert_eq!(choose_variation(500_000_000, &ranges), 2);
}

#[test]
fn namespace_inclusion_cases() {
    // (user, namespace id, lo, hi, expected)
    let cases: Vec<(&str, &str, u64, u64, bool)> = vec![
        ("1", "namespace1", 0, 400_000_000, false),
        ("1", "namespace1", 400_000_000, 1_000_000_000, true),
        ("1", "namespace2", 0, 400_000_000, false),
        ("1", "namespace2", 400_000_000, 1_000_000_000, true),
        ("2", "namespace1", 0, 400_000_000, false),
        ("2", "namespace1", 400_000_000, 1_000_000_000, true),
        ("2", "namespace2", 0, 400_000_000, false),
        ("2", "namespace2", 400_000_000, 1_000_000_000, true),
        ("3", "namespace1", 0, 400_000_000, false),
        ("3", "namespace1", 400_000_000, 1_000_000_000, true),
        ("3", "namespace2", 0, 400_000_000, true),
        ("3", "namespace2", 400_000_000, 1_000_000_000, false),
        ("4", "namespace1", 0, 400_000_000, false),
        ("4", "namespace1", 400_000_000, 1_000_000_000, true),
        ("4", "namespace2", 0, 400_000_000, true),
        ("4", "namespace2", 400_000_000, 1_000_000_000, false),
    ];
    for (user, id, lo, hi, expected) in cases {
        let ns = Namespace {
            id: id.to_string(),
            lo,
            hi,
        };
        assert_eq!(in_namespace(user, &ns), expected, "user={user} id={id} lo={lo}");
    }
}

#[test]
fn range_widths_sum_to_coverage() {
    // With weights that sum to exactly one, the widths of the ranges sum
    // to exactly the clamped coverage, with no rounding at all.
    let w = vec![200_000_000u64, 300_000_000u64, 500_000_000u64];
    for coverage in [0i64, 250_000_000, 500_000_000, 1_000_000_000, 1_500_000_000] {
        let ranges = get_bucket_ranges(3, coverage, Some(&w));
        let sum: u64 = ranges.iter().map(|r| r.hi - r.lo).sum();
        let clamped = coverage.clamp(0, 1_000_000_000) as u64;
        assert_eq!(sum, clamped * PPB, "coverage={coverage}");
    }
}
