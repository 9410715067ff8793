use sonar_presence::fingerprint::{
    assemble_fingerprint, band_peak, band_peaks, fp_similarity, make_fingerprint,
    plan_fingerprint, Fingerprint, FingerprintPlan,
};

fn fp(bins: Vec<u8>, hop_us: u32) -> Fingerprint {
    Fingerprint { fp_type: String::from("bandpeak_v1"), bands: 32, hop_us, offset_ms: 0, bins }
}

fn pattern(n: usize, seed: u32) -> Vec<u8> {
    let mut x = seed;
    (0..n)
        .map(|_| {
            x = x.wrapping_mul(1_664_525).wrapping_add(1_013_904_223);
            ((x >> 24) % 32) as u8
        })
        .collect()
}

#[test]
fn a_fingerprint_is_wholly_similar_to_itself() {
    assert_eq!(fp_similarity(&fp(pattern(400, 1), 10_667), &fp(pattern(400, 1), 10_667)), 1_000_000);
    assert_eq!(fp_similarity(&fp(vec![3, 4], 1), &fp(vec![3, 4], 1)), 1_000_000);
    assert_eq!(fp_similarity(&fp(vec![3, 4], 2_000_000), &fp(vec![3, 4], 2_000_000)), 1_000_000);
    // A hop whose half falls on the lag grid.
    assert_eq!(fp_similarity(&fp(pattern(50, 2), 200_000), &fp(pattern(50, 2), 200_000)), 1_000_000);
}

#[test]
fn similarity_is_zero_on_mismatch_or_empty_input() {
    let a = fp(pattern(100, 3), 10_667);
    let mut other_type = fp(pattern(100, 3), 10_667);
    other_type.fp_type = String::from("bandpeak_v2");
    assert_eq!(fp_similarity(&a, &other_type), 0);
    let mut other_bands = fp(pattern(100, 3), 10_667);
    other_bands.bands = 16;
    assert_eq!(fp_similarity(&a, &other_bands), 0);
    assert_eq!(fp_similarity(&a, &fp(Vec::new(), 10_667)), 0);
    assert_eq!(fp_similarity(&fp(Vec::new(), 10_667), &a), 0);
    assert_eq!(fp_similarity(&a, &fp(pattern(100, 3), 0)), 0);
}

#[test]
fn a_single_frame_is_compared_once() {
    assert_eq!(fp_similarity(&fp(vec![7], 10_667), &fp(vec![7], 10_667)), 1_000_000);
    assert_eq!(fp_similarity(&fp(vec![7], 10_667), &fp(vec![8], 10_667)), 0);
    assert_eq!(fp_similarity(&fp(vec![7], 10_667), &fp(vec![7, 9, 9], 10_667)), 1_000_000);
    assert_eq!(fp_similarity(&fp(vec![7], 3_000_000), &fp(vec![7], 3_000_000)), 1_000_000);
    // A hop that divides a second an odd number of times puts the lags
    // nearest to zero half a hop away; the earlier one still reads the frame.
    assert_eq!(fp_similarity(&fp(vec![7], 200_000), &fp(vec![7], 200_000)), 1_000_000);
    assert_eq!(fp_similarity(&fp(vec![7], 200_000), &fp(vec![8], 200_000)), 0);
    assert_eq!(fp_similarity(&fp(vec![7, 7], 200_000), &fp(vec![7, 7], 200_000)), 1_000_000);
}

#[test]
fn similarity_finds_a_shifted_copy() {
    let whole = pattern(500, 4);
    let a = fp(whole[0..400].to_vec(), 10_000);
    // Thirty frames later: 0.3 s, within the lag sweep.
    let b = fp(whole[30..430].to_vec(), 10_000);
    assert_eq!(fp_similarity(&a, &b), 1_000_000);
    assert_eq!(fp_similarity(&b, &a), 1_000_000);
    // Sixty frames later: 0.6 s, beyond the sweep; only chance coincidences.
    let c = fp(whole[60..460].to_vec(), 10_000);
    assert!(fp_similarity(&c, &a) < 200_000);
    assert!(fp_similarity(&a, &c) < 200_000);
}

#[test]
fn similarity_counts_coincidences() {
    // With a hop of a second the lags tried are half a second either way.
    // The earlier one reads the same frame of both, five times; the later
    // one reads the next frame of the other, and nothing coincides there.
    let a = fp(vec![1, 2, 3, 4, 5], 1_000_000);
    let b = fp(vec![9, 2, 3, 9, 5], 1_000_000);
    assert_eq!(fp_similarity(&a, &b), 600_000);
    assert_eq!(fp_similarity(&b, &a), 600_000);
    let c = fp(vec![9, 9, 9, 9, 5], 1_000_000);
    assert_eq!(fp_similarity(&a, &c), 200_000);
}

#[test]
fn similarity_of_unrelated_fingerprints_is_low_either_way() {
    let a = fp(pattern(400, 5), 10_667);
    let b = fp(pattern(400, 6), 10_667);
    let ab = fp_similarity(&a, &b);
    let ba = fp_similarity(&b, &a);
    assert!(ab < 150_000, "{}", ab);
    assert!(ba < 150_000, "{}", ba);
}

#[test]
fn similarity_is_the_same_either_way_on_a_whole_hop_grid() {
    // Hops that divide half a second, and as many frames on both sides.
    for (hop, seed) in [(10_000u32, 7u32), (20_000, 8), (125_000, 9), (500_000, 10)] {
        let a = fp(pattern(120, seed), hop);
        let b = fp(pattern(120, seed + 100), hop);
        assert_eq!(fp_similarity(&a, &b), fp_similarity(&b, &a), "hop {}", hop);
    }
    let a = fp(vec![1, 2, 3, 1, 2, 3], 250_000);
    let b = fp(vec![3, 1, 2, 3, 9, 9], 250_000);
    // One frame later `b` repeats `a` on three of five frames; two frames
    // earlier it does so on all four: the same from either side.
    assert_eq!(fp_similarity(&a, &b), 1_000_000);
    assert_eq!(fp_similarity(&b, &a), 1_000_000);
}

#[test]
fn similarity_depends_on_the_side_where_no_lag_has_its_opposite() {
    // With a hop of a second the later lag reads the next frame of the other
    // track, and no lag reads the one before.
    let a = fp(vec![1, 2], 1_000_000);
    let b = fp(vec![3, 1], 1_000_000);
    assert_eq!(fp_similarity(&a, &b), 1_000_000);
    assert_eq!(fp_similarity(&b, &a), 0);
}

#[test]
fn band_peak_takes_the_loudest_band_and_the_lowest_among_equals() {
    let mut power = vec![0u64; 128];
    assert_eq!(band_peak(&power, 96, 3), 0);
    power[10] = 5;
    power[11] = 5;
    power[40] = 9;
    power[41] = 1;
    // Bands of three bins: bins 9..12 hold 10, bins 39..42 hold 10 as well.
    assert_eq!(band_peak(&power, 96, 3), 3);
    power[41] = 2;
    assert_eq!(band_peak(&power, 96, 3), 13);
    // Bins from k_max on are not read; bins beyond the last band join it.
    power[100] = 1000;
    assert_eq!(band_peak(&power, 96, 3), 13);
    assert_eq!(band_peak(&power, 128, 3), 31);
    assert_eq!(band_peak(&power, 128, 1), 31);
    assert_eq!(band_peak(&[], 96, 3), 0);
    assert_eq!(band_peak(&[u64::MAX, u64::MAX, 1, u64::MAX], 4, 2), 0);
}

#[test]
fn plan_picks_the_most_energetic_window() {
    let sr = 8_000u32;
    let mut x = vec![0i16; 10 * sr as usize];
    // Loudest second from 2.5 s on; a louder one that starts beyond the
    // seven seconds searched.
    for i in 20_000..28_000 {
        x[i] = if i % 2 == 0 { 1000 } else { -1000 };
    }
    for i in 70_000..78_000 {
        x[i] = if i % 2 == 0 { 3000 } else { -3000 };
    }
    let plan = plan_fingerprint(&x, sr, 1_000).unwrap();
    assert_eq!(
        plan,
        FingerprintPlan {
            start: 20_000,
            win_len: 8_000,
            frame_len: 256,
            hop_len: 128,
            k_max: 127,
            band_size: 3,
            frames: 61,
        }
    );
}

#[test]
fn plan_layout_at_48_khz() {
    let x = vec![1i16; 300_000];
    let plan = plan_fingerprint(&x, 48_000, 5_000).unwrap();
    assert_eq!(plan.start, 0);
    assert_eq!(plan.win_len, 240_000);
    assert_eq!(plan.frame_len, 2048);
    assert_eq!(plan.hop_len, 1024);
    assert_eq!(plan.k_max, 256);
    assert_eq!(plan.band_size, 8);
    assert_eq!(plan.frames, 233);
}

#[test]
fn plan_needs_enough_audio() {
    let x = vec![1i16; 7_999];
    assert_eq!(plan_fingerprint(&x, 8_000, 1_000), None);
    assert_eq!(plan_fingerprint(&[], 8_000, 1_000), None);
    assert_eq!(plan_fingerprint(&x, 0, 1_000), None);
    assert_eq!(plan_fingerprint(&x, 8_000, 63), None);
    assert!(plan_fingerprint(&x, 8_000, 64).is_some());
    let y = vec![1i16; 8_000];
    assert!(plan_fingerprint(&y, 8_000, 1_000).is_some());
}

#[test]
fn the_same_samples_give_the_same_plan() {
    let x: Vec<i16> = (0..40_000).map(|i| ((i * 7919) % 2001) as i16 - 1000).collect();
    assert_eq!(plan_fingerprint(&x, 8_000, 2_000), plan_fingerprint(&x.clone(), 8_000, 2_000));
}

#[test]
fn assembled_fingerprint_carries_hop_and_offset() {
    let plan = FingerprintPlan {
        start: 96_000,
        win_len: 240_000,
        frame_len: 2048,
        hop_len: 1024,
        k_max: 256,
        band_size: 8,
        frames: 233,
    };
    let f = assemble_fingerprint(&plan, 48_000, vec![1, 2, 3]).unwrap();
    assert_eq!(f.fp_type, "bandpeak_v1");
    assert_eq!(f.bands, 32);
    assert_eq!(f.hop_us, 21_333);
    assert_eq!(f.offset_ms, 2_000);
    assert_eq!(f.bins, vec![1, 2, 3]);
    assert!(assemble_fingerprint(&plan, 48_000, Vec::new()).is_none());
    assert!(assemble_fingerprint(&plan, 0, vec![1]).is_none());
}

#[test]
fn the_same_spectra_give_the_same_bins() {
    let plan = FingerprintPlan {
        start: 0,
        win_len: 8_000,
        frame_len: 256,
        hop_len: 128,
        k_max: 127,
        band_size: 3,
        frames: 3,
    };
    let mut a = vec![0u64; 129];
    a[30] = 9;
    let mut b = vec![0u64; 129];
    b[100] = 4;
    b[5] = 4;
    let spectra = vec![a, b, vec![0u64; 129]];
    assert_eq!(band_peaks(&spectra, &plan), vec![10, 1, 0]);
    assert_eq!(band_peaks(&spectra, &plan), band_peaks(&spectra.clone(), &plan));
    assert!(band_peaks(&Vec::new(), &plan).is_empty());
    let f = make_fingerprint(&plan, 8_000, &spectra).unwrap();
    assert_eq!(f.bins, vec![10, 1, 0]);
    assert_eq!((f.hop_us, f.offset_ms, f.bands), (16_000, 0, 32));
    assert!(make_fingerprint(&plan, 8_000, &Vec::new()).is_none());
    // One spectrum for every frame of the plan, no more and no fewer.
    assert!(make_fingerprint(&plan, 8_000, &spectra[..2].to_vec()).is_none());
    let mut more = spectra.clone();
    more.push(vec![0u64; 129]);
    assert!(make_fingerprint(&plan, 8_000, &more).is_none());
}
