use sonar_presence::impulse::{analyze_window, find_correlation_peaks, pick_reflection};

#[test]
fn peaks_are_local_maxima_above_the_threshold() {
    let mut c = vec![0u32; 100];
    c[5] = 900_000;
    c[10] = 400_000; // too close to the peak at lag 5
    c[30] = 100_000; // below the threshold
    c[40] = 300_000;
    c[41] = 300_000; // a plateau is no peak
    c[70] = 200_000;
    c[99] = 999_999; // the last lag has no neighbour behind it
    assert_eq!(find_correlation_peaks(&c, 150_000), vec![(5, 900_000), (70, 200_000)]);
    c[26] = 160_000;
    assert_eq!(
        find_correlation_peaks(&c, 150_000),
        vec![(5, 900_000), (26, 160_000), (70, 200_000)]
    );
    c[25] = 160_000;
    assert_eq!(find_correlation_peaks(&c, 150_000), vec![(5, 900_000), (70, 200_000)]);
}

#[test]
fn short_correlations_have_no_peaks() {
    assert!(find_correlation_peaks(&Vec::new(), 0).is_empty());
    assert!(find_correlation_peaks(&vec![5], 0).is_empty());
    assert!(find_correlation_peaks(&vec![1, 5], 0).is_empty());
    assert_eq!(find_correlation_peaks(&vec![1, 5, 1], 4), vec![(1, 5)]);
    assert!(find_correlation_peaks(&vec![1, 5, 1], 5).is_empty());
}

#[test]
fn the_first_peak_is_the_direct_sound() {
    // At 48 kHz a lag of 140 samples is 0.5 m, one of 280 samples 1 m.
    let peaks = vec![(140, 900_000), (280, 1_200_000), (300, 500_000)];
    assert_eq!(pick_reflection(&peaks, 48_000, 300, 1_500), Some((1_000, 1_000_000)));
    assert_eq!(pick_reflection(&peaks, 48_000, 1_050, 1_500), Some((1_072, 500_000)));
    assert_eq!(pick_reflection(&peaks, 48_000, 1_100, 1_500), None);
    assert_eq!(pick_reflection(&peaks[..1].to_vec(), 48_000, 0, 5_000), None);
    assert_eq!(pick_reflection(&Vec::new(), 48_000, 0, 5_000), None);
    assert_eq!(pick_reflection(&peaks, 0, 0, 5_000), None);
}

#[test]
fn range_limits_are_exact() {
    // Lag 280 at 48 kHz is 1000.4 mm.
    let peaks = vec![(0, 1), (280, 700_000)];
    assert_eq!(pick_reflection(&peaks, 48_000, 1_000, 1_000), None);
    assert_eq!(pick_reflection(&peaks, 48_000, 1_000, 1_001), Some((1_000, 700_000)));
    assert_eq!(pick_reflection(&peaks, 48_000, 1_001, 2_000), None);
}

#[test]
fn half_of_the_probes_make_a_window_present() {
    assert!(analyze_window(10, 20));
    assert!(!analyze_window(9, 20));
    assert!(analyze_window(1, 1));
    assert!(!analyze_window(0, 1));
    assert!(analyze_window(1, 0));
    assert!(!analyze_window(0, 0));
    assert!(analyze_window(usize::MAX, usize::MAX));
}
