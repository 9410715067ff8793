use sonar_presence::prescan::{
    analyze, rms, hf_share, rolloff_bin, scan_layout, score_windows, select_segments, window_frames,
    window_score, window_span, FeatZ, ScanLayout, ScanParams, Segment, WindowFeat,
};

fn params() -> ScanParams {
    ScanParams {
        sr: 48_000,
        frame_ms: 23,
        window_ms: 3_000,
        stride_ms: 200,
        hf_split_hz: 2_500,
        top_n: 20,
        min_percentile: 850_000,
        nms_radius_ms: 1_000,
        merge_gap_ms: 3_000,
        clamp_min_ms: 3_000,
        clamp_max_ms: 60_000,
    }
}

fn zero_z() -> FeatZ {
    FeatZ {
        flux_z: 0,
        flatness_z: 0,
        crest_z: 0,
        bandwidth_z: 0,
        hf_ratio_z: 0,
        dynrange_z: 0,
        tonality_z: 0,
    }
}

fn win(start_ms: u32, end_ms: u32, score: i64) -> WindowFeat {
    WindowFeat {
        start_ms,
        end_ms,
        flux: 0,
        flatness: 0,
        crest_db: 0,
        bandwidth_hz_95: 0,
        hf_ratio: 0,
        dyn_range: 0,
        tonality: 0,
        loudness_dbfs: -20_000,
        score,
        z: zero_z(),
    }
}

#[test]
fn layout_at_48_khz() {
    let l = scan_layout(480_000, &params()).unwrap();
    assert_eq!(
        l,
        ScanLayout {
            frame_len: 2048,
            hop_len: 1024,
            frames: 467,
            frames_per_win: 141,
            stride_frames: 9,
            windows: 37,
            hf_bin: 106,
        }
    );
    assert_eq!(window_frames(0, &l), (0, 70, 141));
    assert_eq!(window_frames(36, &l), (324, 394, 465));
    assert_eq!(window_span(0, &l, 48_000), Some((0, 3_008)));
    assert_eq!(window_span(1, &l, 48_000), Some((192, 3_200)));
}

#[test]
fn layout_needs_a_second_of_audio_and_a_window() {
    assert_eq!(scan_layout(47_999, &params()), None);
    assert_eq!(scan_layout(48_000, &params()), None);
    let mut p = params();
    p.sr = 0;
    assert_eq!(scan_layout(480_000, &p), None);
    let mut short = params();
    short.window_ms = 100;
    let l = scan_layout(48_000, &short).unwrap();
    assert_eq!((l.frames, l.frames_per_win, l.windows), (45, 5, 5));
    let mut still = params();
    still.stride_ms = 0;
    still.window_ms = 0;
    let l = scan_layout(48_000, &still).unwrap();
    assert_eq!((l.frames_per_win, l.stride_frames, l.windows), (1, 1, 45));
    let mut far = params();
    far.stride_ms = 4_000_000_000;
    let l = scan_layout(480_000, &far).unwrap();
    assert_eq!((l.stride_frames, l.windows), (467, 1));
}

#[test]
fn rolloff_is_where_95_percent_of_the_power_is_reached() {
    assert_eq!(rolloff_bin(&[]), 0);
    assert_eq!(rolloff_bin(&[0, 0, 0]), 0);
    assert_eq!(rolloff_bin(&[10, 10, 10, 10]), 3);
    assert_eq!(rolloff_bin(&[95, 5]), 0);
    assert_eq!(rolloff_bin(&[94, 1, 5]), 1);
    assert_eq!(rolloff_bin(&[0, 0, 7]), 2);
    assert_eq!(rolloff_bin(&[u64::MAX, u64::MAX, u64::MAX]), 2);
}

#[test]
fn hf_share_is_the_power_above_the_split() {
    assert_eq!(hf_share(&[1, 1, 1, 1], 2), 500_000);
    assert_eq!(hf_share(&[1, 1, 1], 2), 333_333);
    assert_eq!(hf_share(&[1, 1, 1], 0), 1_000_000);
    assert_eq!(hf_share(&[1, 1, 1], 3), 0);
    assert_eq!(hf_share(&[1, 1, 1], 99), 0);
    assert_eq!(hf_share(&[0, 0], 1), 0);
    assert_eq!(hf_share(&[], 0), 0);
}

#[test]
fn score_weights_the_z_scores() {
    let z = FeatZ {
        flux_z: 1_000,
        flatness_z: 2_000,
        crest_z: 3_000,
        bandwidth_z: 4_000,
        hf_ratio_z: 5_000,
        dynrange_z: 6_000,
        tonality_z: 7_000,
    };
    // 0.25 + 0.4 + 0.6 + 0.6 + 0.5 + 0.6 - 1.4 = 1.55
    assert_eq!(window_score(&z, -20_000), 1_550);
    assert_eq!(window_score(&z, -45_000), 1_550);
    assert_eq!(window_score(&z, -45_001), 1_050);
    assert_eq!(window_score(&z, -60_000), 1_050);
    assert_eq!(window_score(&z, -60_001), 50);
    let mut neg = zero_z();
    neg.tonality_z = 1_999;
    // -0.3998 rounds towards zero.
    assert_eq!(window_score(&neg, 0), -399);
}

#[test]
fn windows_are_scored_against_each_other() {
    let mut wins = Vec::new();
    for (i, flux) in [1000, 2000, 3000, 4000, 9000].iter().enumerate() {
        let mut w = win(i as u32 * 200, i as u32 * 200 + 3000, 0);
        w.flux = *flux;
        w.tonality = 500;
        wins.push(w);
    }
    wins[4].loudness_dbfs = -50_000;
    let out = score_windows(&wins);
    assert_eq!(out.len(), 5);
    assert_eq!(out[4].z.flux_z, 4_046);
    assert_eq!(out[0].z.flux_z, -1_348);
    assert_eq!(out[2].z.flux_z, 0);
    assert_eq!(out[2].z.tonality_z, 0);
    // 0.25 * 4.046 = 1.0115, less 0.5 for the low loudness.
    assert_eq!(out[4].score, 511);
    assert_eq!(out[0].score, -337);
    assert_eq!(out[2].score, 0);
    assert_eq!(out[1].start_ms, 200);
    assert_eq!(out[1].flux, 2000);
    assert!(score_windows(&Vec::new()).is_empty());
}

#[test]
fn peaks_are_picked_merged_and_clamped() {
    let mut wins = Vec::new();
    let scores = [0, 1, 5, 1, 0, 0, 0, 0, 0, 0, 0, 0, 9, 0, 0, 0, 0, 0, 0, 0, 0, 0, 0, 0, 0, 0, 0,
        0, 0, 0, 0, 0, 0, 0, 0, 0, 0, 0, 0, 0, 0, 0, 0, 0, 0, 7, 0];
    for (i, s) in scores.iter().enumerate() {
        wins.push(win(i as u32 * 200, i as u32 * 200 + 3000, *s));
    }
    let mut p = params();
    p.min_percentile = 900_000;
    let segs = select_segments(&wins, &p);
    // Peaks at windows 2, 12 and 45. The second starts within three seconds
    // of the first one's end and the two merge; the last stands alone.
    assert_eq!(
        segs,
        vec![
            Segment { start_ms: 400, end_ms: 5_400, peak: wins[12] },
            Segment { start_ms: 9_000, end_ms: 12_000, peak: wins[45] },
        ]
    );
    p.top_n = 2;
    let segs = select_segments(&wins, &p);
    assert_eq!(
        segs,
        vec![
            Segment { start_ms: 2_400, end_ms: 5_400, peak: wins[12] },
            Segment { start_ms: 9_000, end_ms: 12_000, peak: wins[45] },
        ]
    );
    p.top_n = 0;
    assert!(select_segments(&wins, &p).is_empty());
}

#[test]
fn neighbours_with_equal_scores_suppress_each_other() {
    let mut wins = Vec::new();
    for (i, s) in [5, 5, 0, 0, 0, 0, 0, 0, 0, 0, 0, 5].iter().enumerate() {
        wins.push(win(i as u32 * 200, i as u32 * 200 + 3000, *s));
    }
    let mut p = params();
    p.min_percentile = 0;
    p.clamp_min_ms = 0;
    let segs = select_segments(&wins, &p);
    assert_eq!(segs, vec![Segment { start_ms: 2_200, end_ms: 5_200, peak: wins[11] }]);
}

#[test]
fn durations_are_clamped() {
    let wins = vec![win(1_000, 1_500, 3), win(20_000, 20_001, 0), win(50_000, 200_000, 4)];
    let mut p = params();
    p.min_percentile = 0;
    p.nms_radius_ms = 0;
    p.merge_gap_ms = 0;
    let segs = select_segments(&wins, &p);
    assert_eq!((segs[0].start_ms, segs[0].end_ms), (1_000, 4_000));
    assert_eq!((segs[1].start_ms, segs[1].end_ms), (50_000, 110_000));
    p.clamp_min_ms = 90_000;
    let segs = select_segments(&wins, &p);
    assert_eq!((segs[0].start_ms, segs[0].end_ms), (1_000, 61_000));
    assert!(select_segments(&Vec::new(), &p).is_empty());
}

#[test]
fn analyze_scores_and_selects() {
    let mut wins = Vec::new();
    for i in 0..30u32 {
        let mut w = win(i * 200, i * 200 + 3_000, 0);
        w.flux = if i == 10 { 9_000 } else { 1_000 + (i as i32 % 3) * 100 };
        wins.push(w);
    }
    let mut p = params();
    p.clamp_min_ms = 0;
    let segs = analyze(&wins, &p);
    assert_eq!(segs.len(), 1);
    assert_eq!((segs[0].start_ms, segs[0].end_ms), (2_000, 5_000));
    assert_eq!(segs[0].peak.flux, 9_000);
    assert!(segs[0].peak.score > 0);
    assert_eq!(segs, select_segments(&score_windows(&wins), &p));
}

#[test]
fn rms_in_millionths_of_full_scale() {
    assert_eq!(rms(&[]), 0);
    assert_eq!(rms(&[0, 0, 0]), 0);
    assert_eq!(rms(&[-32768, -32768]), 1_000_000);
    assert_eq!(rms(&[16384, -16384, 16384]), 500_000);
    // 328 / 32768 = 0.0100097...
    assert_eq!(rms(&vec![328i16; 1000]), 10_009);
    // A square wave between 0 and 32767: sqrt(32767^2 / 2) / 32768.
    assert_eq!(rms(&[0, 32767]), 707_085);
}
