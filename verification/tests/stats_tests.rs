use sonar_presence::stats::{
    mad_zscore, median, median_and_mad, percentile, rank_select, zscore_against,
};

#[test]
fn percentile_takes_the_nearest_rank() {
    let v = vec![50, 10, 40, 20, 30];
    assert_eq!(percentile(&v, 0), 10);
    assert_eq!(percentile(&v, 500_000), 30);
    assert_eq!(percentile(&v, 750_000), 40);
    assert_eq!(percentile(&v, 850_000), 40);
    assert_eq!(percentile(&v, 875_000), 50);
    assert_eq!(percentile(&v, 1_000_000), 50);
    assert_eq!(percentile(&v, 4_000_000_000), 50);
    assert_eq!(percentile(&Vec::new(), 500_000), 0);
    assert_eq!(percentile(&vec![-7], 999_999), -7);
}

#[test]
fn median_of_odd_and_even_counts() {
    assert_eq!(median(&vec![5, 1, 3]), 3);
    assert_eq!(median(&vec![5, 1, 3, 4]), 3);
    assert_eq!(median(&vec![5, 1, 2, 4]), 3);
    assert_eq!(median(&vec![-5, -2]), -4);
    assert_eq!(median(&vec![i64::MAX, i64::MAX]), i64::MAX);
    assert_eq!(median(&vec![i64::MIN, i64::MIN]), i64::MIN);
    assert_eq!(median(&Vec::new()), 0);
}

#[test]
fn median_absolute_deviation() {
    // Median 3000, deviations 2000 1000 0 1000 6000, their median 1000.
    assert_eq!(median_and_mad(&vec![1000, 2000, 3000, 4000, 9000]), (3000, 1000));
    assert_eq!(median_and_mad(&vec![7, 7, 7]), (7, 0));
}

#[test]
fn zscore_is_the_distance_over_the_scaled_deviation() {
    let xs = vec![1000, 2000, 3000, 4000, 9000];
    // (9000 - 3000) / (1.4826 * 1000) = 4.04694...
    assert_eq!(mad_zscore(&xs, 9000), 4046);
    assert_eq!(mad_zscore(&xs, 3000), 0);
    assert_eq!(mad_zscore(&xs, 1000), -1348);
    assert_eq!(zscore_against(3000, 1000, 9000), 4046);
}

#[test]
fn zscore_without_spread_uses_the_floor() {
    // One thousandth over 1.4826 millionths is 674.4907...
    assert_eq!(mad_zscore(&vec![7, 7, 7], 8), 674_490);
    assert_eq!(mad_zscore(&vec![7, 7, 7], 7), 0);
    assert_eq!(mad_zscore(&vec![7, 7, 7], 5), -1_348_981);
    assert_eq!(mad_zscore(&Vec::new(), 5), 0);
}

#[test]
fn rank_select_reads_sorted_positions() {
    let band = vec![5, -3, 9, 5, 0, 7];
    assert_eq!(rank_select(&band, 0), -3);
    assert_eq!(rank_select(&band, 1), 0);
    assert_eq!(rank_select(&band, 2), 5);
    assert_eq!(rank_select(&band, 3), 5);
    assert_eq!(rank_select(&band, 4), 7);
    assert_eq!(rank_select(&band, 5), 9);
}
