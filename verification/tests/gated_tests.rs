use sonar_presence::config::Config;
use sonar_presence::fingerprint::Fingerprint;
use sonar_presence::gated::{
    arm_window, gate, pick_match, Alignment, FingerprintMissing, Gate, GatedController,
    SongWindows,
};
use sonar_presence::ring::RingBuffer;

const SR: u32 = 8_000;
const BLOCK: usize = 2_000;

fn cfg() -> Config {
    Config::new(String::from("Detection.log"), String::from("SongScan.csv"))
}

fn pattern(n: usize, seed: u32) -> Vec<u8> {
    let mut x = seed;
    (0..n)
        .map(|_| {
            x = x.wrapping_mul(1_664_525).wrapping_add(1_013_904_223);
            ((x >> 24) % 32) as u8
        })
        .collect()
}

fn fp(bins: Vec<u8>, offset_ms: u32) -> Fingerprint {
    Fingerprint { fp_type: String::from("bandpeak_v1"), bands: 32, hop_us: 10_000, offset_ms, bins }
}

fn song(url: &str, segs: Vec<(u32, u32)>, f: Fingerprint) -> SongWindows {
    SongWindows { url: String::from(url), segs, fp: f }
}

fn noise(n: usize, rms: f64, seed: u64) -> Vec<i16> {
    let amp = rms * 3f64.sqrt();
    let mut state = seed.wrapping_mul(0x9E37_79B9_7F4A_7C15).wrapping_add(1);
    let mut out = Vec::with_capacity(n);
    for _ in 0..n {
        state ^= state << 13;
        state ^= state >> 7;
        state ^= state << 17;
        let unit = ((state >> 11) as f64) / ((1u64 << 53) as f64);
        out.push(((unit * 2.0 - 1.0) * amp).round() as i16);
    }
    out
}

#[test]
fn gate_widens_segments_by_the_guard() {
    let segs = vec![(20_000, 25_000), (40_000, 41_000)];
    assert_eq!(gate(&segs, 19_499, 500), Gate::Outside);
    assert_eq!(gate(&segs, 19_500, 500), Gate::Inside);
    assert_eq!(gate(&segs, 25_500, 500), Gate::Inside);
    assert_eq!(gate(&segs, 25_501, 500), Gate::Outside);
    assert_eq!(gate(&segs, 40_000, 0), Gate::Inside);
    assert_eq!(gate(&segs, 41_001, 0), Gate::Outside);
    assert_eq!(gate(&segs, -1, 500), Gate::Outside);
    assert_eq!(gate(&vec![(100, 200)], -300, 500), Gate::Inside);
}

#[test]
fn gate_expires_a_minute_behind_the_last_segment() {
    let segs = vec![(20_000, 25_000), (40_000, 41_000)];
    assert_eq!(gate(&segs, 101_000, 500), Gate::Outside);
    assert_eq!(gate(&segs, 101_001, 500), Gate::Expired);
    assert_eq!(gate(&Vec::new(), 1_000_000_000, 500), Gate::Outside);
}

#[test]
fn match_needs_threshold_and_margin() {
    assert_eq!(pick_match(&vec![100_000, 700_000, 600_000], 600_000, 70_000), Some(1));
    assert_eq!(pick_match(&vec![100_000, 700_000, 630_001], 600_000, 70_000), None);
    assert_eq!(pick_match(&vec![100_000, 700_000, 630_000], 600_000, 70_000), Some(1));
    assert_eq!(pick_match(&vec![599_999], 600_000, 0), None);
    assert_eq!(pick_match(&vec![600_000], 600_000, 70_000), Some(0));
    assert_eq!(pick_match(&vec![700_000, 700_000], 600_000, 1), None);
    assert_eq!(pick_match(&vec![700_000, 700_000], 600_000, 0), Some(0));
    // Without a threshold and a margin the first track is taken, whatever
    // its similarity.
    assert_eq!(pick_match(&vec![0, 0], 0, 0), Some(0));
    assert_eq!(pick_match(&vec![0], 0, 0), Some(0));
    assert_eq!(pick_match(&vec![0], 1, 0), None);
    assert_eq!(pick_match(&vec![0, 0], 0, 1), None);
    assert_eq!(pick_match(&Vec::new(), 0, 0), None);
}

#[test]
fn arming_waits_for_level_and_length() {
    let c = cfg();
    // Five seconds of window are needed.
    let loud = noise(40_000, 3277.0, 1);
    assert_eq!(arm_window(&loud, SR, c.fp_win_ms, 10_000), Some((0, 40_000)));
    assert_eq!(arm_window(&loud[1..], SR, c.fp_win_ms, 10_000), None);
    // Of a longer loopback the newest seven seconds are taken.
    let long = noise(80_000, 3277.0, 2);
    assert_eq!(arm_window(&long, SR, c.fp_win_ms, 10_000), Some((24_000, 56_000)));
    // -40 dBFS is an RMS of 327.68.
    let quiet = vec![327i16; 80_000];
    assert_eq!(arm_window(&quiet, SR, c.fp_win_ms, 10_000), None);
    let enough = vec![328i16; 80_000];
    assert!(arm_window(&enough, SR, c.fp_win_ms, 10_000).is_some());
    // Only the newest seven seconds are measured.
    let mut fading = vec![328i16; 80_000];
    for v in fading[24_000..].iter_mut() {
        *v = 0;
    }
    assert_eq!(arm_window(&fading, SR, c.fp_win_ms, 10_000), None);
    let mut rising = vec![0i16; 80_000];
    for v in rising[24_000..].iter_mut() {
        *v = 328;
    }
    assert_eq!(arm_window(&rising, SR, c.fp_win_ms, 10_000), Some((24_000, 56_000)));
    assert_eq!(arm_window(&[], SR, c.fp_win_ms, 10_000), None);
}

#[test]
fn a_controller_needs_a_track() {
    assert_eq!(GatedController::new(Vec::new(), &cfg(), 0).err(), Some(FingerprintMissing));
}

#[test]
fn alignment_starts_the_song_clock_at_the_fingerprint_offset() {
    let c = cfg();
    let track = pattern(600, 7);
    let songs = vec![
        song("decoy", vec![(1_000, 2_000)], fp(pattern(500, 8), 3_000)),
        song("track", vec![(20_000, 25_000)], fp(track[0..500].to_vec(), 12_000)),
    ];
    let mut ctl = GatedController::new(songs, &c, 0).ok().unwrap();
    assert_eq!(ctl.alignment(), None);
    // A live fingerprint of something else does not align.
    assert_eq!(ctl.try_align(&fp(pattern(500, 9), 0), 5_000, &c), None);
    assert_eq!(ctl.alignment(), None);
    // The same track, heard a quarter of a second into the fingerprint.
    let live = fp(track[25..525].to_vec(), 0);
    let sims = ctl.similarities(&live);
    assert_eq!(sims[1], 1_000_000);
    assert!(sims[0] < 200_000);
    assert_eq!(ctl.try_align(&live, 70_000, &c), Some(1));
    assert_eq!(
        ctl.alignment(),
        Some(Alignment { song: 1, aligned_at_ms: 70_000, offset_ms: 12_000 })
    );
    // Once aligned, further fingerprints change nothing.
    assert_eq!(ctl.try_align(&live, 71_000, &c), None);
    assert_eq!(ctl.alignment().unwrap().aligned_at_ms, 70_000);
}

#[test]
fn presence_is_estimated_only_inside_the_segments() {
    let mut c = cfg();
    c.window_sec = 1;
    c.min_dwell_ms = 0;
    let n = 4_096;
    let track = pattern(500, 7);
    let songs = vec![song("track", vec![(20_000, 25_000)], fp(track.clone(), 12_000))];
    let mut ctl = GatedController::new(songs, &c, 0).ok().unwrap();
    // Rings that hold a clear echo at one metre all along.
    let signal = noise(4 * BLOCK, 3277.0, 41);
    let heard: Vec<i16> = (0..signal.len())
        .map(|i| {
            let echo = if i >= 47 { 0.6 * signal[i - 47] as f64 } else { 0.0 };
            (signal[i] as f64 + echo).round() as i16
        })
        .collect();
    let mut reference: RingBuffer<i16> = RingBuffer::new(SR);
    let mut mic: RingBuffer<i16> = RingBuffer::new(SR);
    reference.append(&signal);
    mic.append(&heard);
    // Without an alignment a tick does nothing.
    assert_eq!(ctl.tick(&reference, &mic, n, 0, &c), None);
    // Aligned at 100 s with the song clock at 12 s.
    assert_eq!(ctl.try_align(&fp(track, 0), 100_000, &c), Some(0));
    let at = |clock_ms: u64| 100_000 + clock_ms - 12_000;
    // Up to 19.5 s every tick pushes nothing, echo or not.
    let mut clock = 12_000;
    while clock < 19_500 {
        assert_eq!(ctl.tick(&reference, &mic, n, at(clock), &c), None);
        assert!(!ctl.is_present());
        clock += 250;
    }
    // From 19.5 s on the votes count: three of four make 75 %.
    assert_eq!(ctl.tick(&reference, &mic, n, at(19_500), &c), None);
    assert_eq!(ctl.tick(&reference, &mic, n, at(19_750), &c), None);
    let ev = ctl.tick(&reference, &mic, n, at(20_000), &c).unwrap();
    assert!(ev.present);
    assert_eq!(ev.agreement_pct, 75);
    assert_eq!(ev.mean_distance_mm, Some(1008));
    clock = 20_250;
    while clock <= 25_500 {
        assert_eq!(ctl.tick(&reference, &mic, n, at(clock), &c), None);
        assert!(ctl.is_present());
        clock += 250;
    }
    // Behind 25.5 s nothing is pushed again and presence decays: with one
    // vote of four left the agreement is below the exit fraction.
    assert_eq!(ctl.tick(&reference, &mic, n, at(25_750), &c), None);
    assert_eq!(ctl.tick(&reference, &mic, n, at(26_000), &c), None);
    let ev = ctl.tick(&reference, &mic, n, at(26_250), &c).unwrap();
    assert!(!ev.present);
    assert_eq!(ev.agreement_pct, 25);
    assert!(ctl.alignment().is_some());
    // A minute behind the last segment the alignment is dropped.
    assert_eq!(ctl.tick(&reference, &mic, n, at(85_000), &c), None);
    assert!(ctl.alignment().is_some());
    assert_eq!(ctl.tick(&reference, &mic, n, at(85_001), &c), None);
    assert_eq!(ctl.alignment(), None);
    assert!(!ctl.is_present());
}
