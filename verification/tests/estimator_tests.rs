use sonar_presence::config::Config;
use sonar_presence::estimator::{
    echo_lag_samples, estimate_from_ref, pick_echo, pipeline_lag_samples, rms_is_above,
    rms_is_below,
};

fn cfg() -> Config {
    Config::new(String::from("Detection.log"), String::from("SongScan.csv"))
}

/// Uniform noise of root mean square `rms`, from a fixed seed.
fn noise(n: usize, rms: f64, seed: u64) -> Vec<i16> {
    let amp = rms * 3f64.sqrt();
    let mut state = seed.wrapping_mul(0x9E37_79B9_7F4A_7C15).wrapping_add(1);
    let mut out = Vec::with_capacity(n);
    for _ in 0..n {
        state ^= state << 13;
        state ^= state >> 7;
        state ^= state << 17;
        let unit = ((state >> 11) as f64) / ((1u64 << 53) as f64);
        out.push(((unit * 2.0 - 1.0) * amp).round() as i16);
    }
    out
}

#[test]
fn echo_lags_round_to_the_nearest_sample() {
    assert_eq!(echo_lag_samples(300, 48_000), 84);
    assert_eq!(echo_lag_samples(1500, 48_000), 420);
    assert_eq!(echo_lag_samples(300, 8_000), 14);
    assert_eq!(echo_lag_samples(1500, 8_000), 70);
    assert_eq!(echo_lag_samples(1000, 8_000), 47);
    assert_eq!(echo_lag_samples(0, 48_000), 0);
    assert_eq!(echo_lag_samples(1500, 0), 0);
}

#[test]
fn pipeline_lag_is_a_fifth_of_a_second() {
    assert_eq!(pipeline_lag_samples(48_000), 9600);
    assert_eq!(pipeline_lag_samples(8_000), 1600);
    assert_eq!(pipeline_lag_samples(7), 1);
    assert_eq!(pipeline_lag_samples(2), 0);
}

#[test]
fn rms_gates_compare_against_full_scale() {
    let flat = vec![328i16; 2048];
    assert!(rms_is_below(&flat, 2048, 10_011));
    assert!(!rms_is_below(&flat, 2048, 10_009));
    assert!(rms_is_above(&flat, 2048, 10_009));
    assert!(!rms_is_above(&flat, 2048, 10_011));
    let silence = vec![0i16; 2048];
    assert!(rms_is_below(&silence, 2048, 1));
    assert!(!rms_is_below(&silence, 2048, 0));
    assert!(!rms_is_above(&silence, 2048, 0));
}

#[test]
fn pick_echo_reads_distance_and_strength() {
    // Direct path at lag 2; band is lags 4..=22 with its peak at lag 12.
    let mut rs = vec![0i32; 40];
    rs[2] = 900_000;
    for k in 4..=22 {
        rs[k] = 1000 * (k as i32 - 4);
    }
    rs[12] = 500_000;
    rs[20] = 100_000;
    // Sorted band: 0, 1000, .., 7000, 9000, .., 15000, 17000, 18000, 100000, 500000.
    // Positions 14 (75th) and 18 (95th) of 19 hold 15000 and 500000.
    let vote = pick_echo(&rs, 2, 20, 8_000, 1_500);
    // Ten lags at 8 kHz are 10 * 343000 / 16000 = 214.375 mm.
    // (500000 - 100000) / (500000 - 15000) = 0.824742...
    assert_eq!(vote, Some((214, 824_742)));
}

#[test]
fn pick_echo_caps_the_distance() {
    let mut rs = vec![0i32; 40];
    rs[0] = 900_000;
    rs[30] = 500_000;
    assert_eq!(pick_echo(&rs, 2, 35, 8_000, 500), Some((500, 1_000_000)));
    assert_eq!(pick_echo(&rs, 2, 35, 8_000, 5_000), Some((643, 1_000_000)));
}

#[test]
fn pick_echo_halves_a_peak_below_the_band() {
    // A flat band of negative correlations: the peak is below nothing, the
    // spread is one millionth, and the runner-up is floored at zero.
    let mut rs = vec![-10i32; 30];
    rs[0] = 1_000;
    assert_eq!(pick_echo(&rs, 1, 20, 8_000, 1_500), Some((21, 0)));
    // A band whose peak is its only low value above the floor of zero.
    let mut rs = vec![50i32; 30];
    rs[0] = 1_000;
    for k in 1..=8 {
        rs[k] = 60;
    }
    // Peak 60 at lag 1, runner-up 60 (lag 8 is outside the neighbourhood).
    assert_eq!(pick_echo(&rs, 1, 20, 8_000, 1_500), Some((21, 0)));
}

#[test]
fn pick_echo_needs_a_band_of_two_lags() {
    let mut rs = vec![0i32; 10];
    rs[9] = 5;
    assert_eq!(pick_echo(&rs, 0, 5, 8_000, 1_500), None);
    rs[9] = 0;
    rs[8] = 5;
    assert_eq!(pick_echo(&rs, 1, 5, 8_000, 1_500), None);
    // Band of lags 8 and 9, peak at lag 8 itself: no distance, and a spread
    // of one millionth under a lift of five.
    assert_eq!(pick_echo(&rs, 0, 5, 8_000, 1_500), Some((0, 1_000_000)));
    assert_eq!(pick_echo(&Vec::new(), 0, 5, 8_000, 1_500), None);
    assert_eq!(pick_echo(&vec![0, 1, 2], 0, 5, 0, 1_500), None);
}

#[test]
fn estimator_with_short_frames_gives_nothing() {
    let c = cfg();
    let x = noise(1023, 3000.0, 1);
    assert_eq!(estimate_from_ref(&x, &x, 8_000, &c), None);
    let long = noise(4096, 3000.0, 2);
    assert_eq!(estimate_from_ref(&long, &x, 8_000, &c), None);
    assert_eq!(estimate_from_ref(&x, &long, 8_000, &c), None);
    assert_eq!(estimate_from_ref(&[], &[], 8_000, &c), None);
}

#[test]
fn estimator_with_silence_gives_nothing() {
    let c = cfg();
    let zeros = vec![0i16; 4096];
    assert_eq!(estimate_from_ref(&zeros, &zeros, 8_000, &c), None);
}

#[test]
fn estimator_needs_an_echo_band_that_fits() {
    let mut c = cfg();
    let x = noise(4096, 3000.0, 3);
    c.front_min_mm = 1500;
    c.front_max_mm = 1500;
    assert_eq!(estimate_from_ref(&x, &x, 8_000, &c), None);
    c.front_min_mm = 300;
    c.front_max_mm = 90_000;
    assert_eq!(estimate_from_ref(&x, &x, 8_000, &c), None);
    c.front_max_mm = 1500;
    assert_eq!(estimate_from_ref(&x, &x, 0, &c), None);
    assert!(estimate_from_ref(&x, &x, 8_000, &c).is_some());
}

#[test]
fn estimator_with_identical_frames_finds_no_distinct_echo() {
    let c = cfg();
    let x = noise(4096, 3277.0, 4);
    let (d, s) = estimate_from_ref(&x, &x, 8_000, &c).unwrap();
    // The direct path is lag 0 and the band starts 14 lags behind it, so the
    // distance is within the band and the strength is what noise gives.
    assert!(d >= 300 && d <= 1500, "distance {}", d);
    assert!(s <= 1_000_000);
}

#[test]
fn estimator_with_strong_reference_and_silent_mic_has_no_strength() {
    let c = cfg();
    let reference = noise(4096, 3277.0, 5);
    let mic = vec![0i16; 4096];
    assert_eq!(estimate_from_ref(&reference, &mic, 8_000, &c), Some((300, 0)));
}

#[test]
fn estimator_finds_a_synthetic_echo_at_one_metre() {
    let c = cfg();
    let n = 4096;
    let delay = 47;
    let reference = noise(n, 3277.0, 6);
    let hiss = noise(n, 3277.0, 7);
    let mut mic = vec![0i16; n];
    for i in 0..n {
        let echo = if i >= delay { 0.6 * reference[i - delay] as f64 } else { 0.0 };
        mic[i] = (reference[i] as f64 + echo + 0.05 * hiss[i] as f64).round() as i16;
    }
    let (d, s) = estimate_from_ref(&reference, &mic, 8_000, &c).unwrap();
    assert_eq!(d, 1008);
    assert_eq!(s, 1_000_000);
}

#[test]
fn estimator_absorbs_the_pipeline_delay() {
    let c = cfg();
    let n = 4096;
    let pipeline = 300;
    let delay = 47;
    let reference = noise(n, 3277.0, 8);
    let mut mic = vec![0i16; n];
    for i in pipeline..n {
        let direct = reference[i - pipeline] as f64;
        let echo = if i >= pipeline + delay { 0.6 * reference[i - pipeline - delay] as f64 } else { 0.0 };
        mic[i] = (direct + echo).round() as i16;
    }
    let (d, s) = estimate_from_ref(&reference, &mic, 8_000, &c).unwrap();
    assert_eq!(d, 1008);
    assert!(s >= 900_000, "strength {}", s);
}

#[test]
fn estimator_results_stay_in_range() {
    let mut c = cfg();
    c.dist_max_mm = 700;
    for seed in 10..20 {
        let a = noise(2048, 2000.0, seed);
        let b = noise(2048, 500.0, seed + 100);
        if let Some((d, s)) = estimate_from_ref(&a, &b, 8_000, &c) {
            assert!(d <= 700);
            assert!(s <= 1_000_000);
        }
    }
}

#[test]
fn estimator_with_identical_smooth_frames_puts_the_echo_at_the_near_end() {
    let c = cfg();
    // A signal whose differences are strongly correlated over many lags, as
    // those of music are: the correlation falls steadily behind the direct
    // path, so the band's peak is its first lag.
    let drive = noise(4096, 300.0, 9);
    let mut d = 0.0f64;
    let mut level = 0.0f64;
    let mut x = Vec::with_capacity(4096);
    for w in drive {
        d = 0.995 * d + w as f64;
        level = 0.999 * level + d * 0.01;
        x.push(level.round().max(-30_000.0).min(30_000.0) as i16);
    }
    let (dist, strength) = estimate_from_ref(&x, &x, 8_000, &c).unwrap();
    // Fourteen lags at 8 kHz are 300 mm.
    assert!(dist >= 300 && dist <= 322, "distance {}", dist);
    assert!(strength <= 1_000_000);
}
