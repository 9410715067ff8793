use sonar_presence::aggregator::Aggregator;
use sonar_presence::config::Config;
use sonar_presence::estimator::estimate_from_ref;
use sonar_presence::hysteresis::qualify;
use sonar_presence::ring::RingBuffer;
use sonar_presence::scheduler::{analysis_len, Detector, Pacer};

const SR: u32 = 8_000;
const BLOCK: usize = 2_000;

fn cfg() -> Config {
    Config::new(String::from("Detection.log"), String::from("SongScan.csv"))
}

fn noise(n: usize, rms: f64, seed: u64) -> Vec<i16> {
    let amp = rms * 3f64.sqrt();
    let mut state = seed.wrapping_mul(0x9E37_79B9_7F4A_7C15).wrapping_add(1);
    let mut out = Vec::with_capacity(n);
    for _ in 0..n {
        state ^= state << 13;
        state ^= state >> 7;
        state ^= state << 17;
        let unit = ((state >> 11) as f64) / ((1u64 << 53) as f64);
        out.push(((unit * 2.0 - 1.0) * amp).round() as i16);
    }
    out
}

/// The reference heard directly and as an echo `delay` samples later.
fn with_echo(reference: &[i16], delay: usize, hiss: &[i16]) -> Vec<i16> {
    (0..reference.len())
        .map(|i| {
            let echo = if i >= delay { 0.6 * reference[i - delay] as f64 } else { 0.0 };
            (reference[i] as f64 + echo + 0.05 * hiss[i] as f64).round() as i16
        })
        .collect()
}

#[test]
fn analysis_length_covers_delay_and_echo() {
    assert_eq!(analysis_len(8_000, 1_500), 4_096);
    assert_eq!(analysis_len(48_000, 1_500), 16_384);
    assert_eq!(analysis_len(44_100, 1_500), 16_384);
    assert_eq!(analysis_len(96_000, 3_000), 32_768);
    assert_eq!(analysis_len(0, 0), 4_096);
}

#[test]
fn pacer_keeps_absolute_deadlines() {
    let mut p = Pacer::new(1_000);
    p.schedule(250);
    assert_eq!(p.next_ms, 1_250);
    assert_eq!(p.settle(1_100), 150);
    assert_eq!(p.next_ms, 1_250);
    p.schedule(250);
    assert_eq!(p.settle(1_500), 0);
    assert_eq!(p.next_ms, 1_500);
    p.schedule(250);
    // A late tick resets the deadline instead of bursting.
    assert_eq!(p.settle(3_000), 0);
    assert_eq!(p.next_ms, 3_000);
    p.schedule(250);
    assert_eq!(p.settle(3_100), 150);
}

#[test]
fn cold_start_in_silence_stays_absent() {
    let c = cfg();
    let n = analysis_len(SR, c.front_max_mm);
    let mut reference: RingBuffer<i16> = RingBuffer::new(SR);
    let mut mic: RingBuffer<i16> = RingBuffer::new(SR);
    let mut det = Detector::new(&c, 0);
    let mut agg = Aggregator::new(c.window_sec, c.tick_ms, c.agg_frac);
    let zeros = vec![0i16; BLOCK];
    let mut last = None;
    for tick in 0..20u64 {
        reference.append(&zeros);
        mic.append(&zeros);
        assert_eq!(det.tick(&reference, &mic, n, tick * 250, &c), None);
        assert!(!det.is_present());
        let vote = match (reference.snapshot(n), mic.snapshot(n)) {
            (Some(r), Some(m)) => estimate_from_ref(&r, &m, SR, &c),
            _ => None,
        };
        assert_eq!(vote, None);
        last = agg.push(qualify(vote, &c));
        assert_eq!(last.is_some(), tick == 19);
    }
    let a = last.unwrap();
    assert_eq!((a.agreement, a.mean_distance_mm, a.mean_strength, a.present), (0, None, 0, false));
}

#[test]
fn strong_reference_and_silent_mic_stay_absent() {
    let c = cfg();
    let n = analysis_len(SR, c.front_max_mm);
    let mut reference: RingBuffer<i16> = RingBuffer::new(SR);
    let mut mic: RingBuffer<i16> = RingBuffer::new(SR);
    let mut det = Detector::new(&c, 0);
    let signal = noise(30 * BLOCK, 3277.0, 11);
    let zeros = vec![0i16; BLOCK];
    for tick in 0..30usize {
        reference.append(&signal[tick * BLOCK..(tick + 1) * BLOCK]);
        mic.append(&zeros);
        assert_eq!(det.tick(&reference, &mic, n, tick as u64 * 250, &c), None);
        if let (Some(r), Some(m)) = (reference.snapshot(n), mic.snapshot(n)) {
            let vote = estimate_from_ref(&r, &m, SR, &c);
            assert_eq!(vote, Some((300, 0)));
            assert_eq!(qualify(vote, &c), None);
        }
    }
    assert!(!det.is_present());
}

#[test]
fn synthetic_echo_flips_to_present_and_its_loss_back_to_absent() {
    let c = cfg();
    let n = analysis_len(SR, c.front_max_mm);
    let mut reference: RingBuffer<i16> = RingBuffer::new(SR);
    let mut mic: RingBuffer<i16> = RingBuffer::new(SR);
    let mut det = Detector::new(&c, 0);
    let ticks = 60usize;
    let signal = noise(ticks * BLOCK, 3277.0, 21);
    let hiss = noise(ticks * BLOCK, 3277.0, 22);
    let heard = with_echo(&signal, 47, &hiss);
    let mut events = Vec::new();
    // Five seconds and a little more with the echo.
    for tick in 0..24usize {
        reference.append(&signal[tick * BLOCK..(tick + 1) * BLOCK]);
        mic.append(&heard[tick * BLOCK..(tick + 1) * BLOCK]);
        if let Some(ev) = det.tick(&reference, &mic, n, tick as u64 * 250, &c) {
            events.push((tick, ev));
        }
    }
    assert_eq!(events.len(), 1);
    let (tick, ev) = events[0];
    // The first two ticks hold too little audio; the window of twenty ticks
    // is full at the twentieth, with eighteen votes in it.
    assert_eq!(tick, 19);
    assert!(ev.present);
    assert_eq!(ev.mean_distance_mm, Some(1008));
    assert_eq!(ev.mean_strength, 1_000_000);
    assert_eq!(ev.agreement_pct, 90);
    assert!(det.is_present());
    // The echo disappears: the microphone falls silent.
    let silent = vec![0i16; BLOCK];
    let mut back = None;
    for tick in 24..ticks {
        reference.append(&signal[tick * BLOCK..(tick + 1) * BLOCK]);
        mic.append(&silent);
        if let Some(ev) = det.tick(&reference, &mic, n, tick as u64 * 250, &c) {
            assert!(back.is_none());
            back = Some((tick, ev));
        }
    }
    let (tick, ev) = back.expect("no flip back to absent");
    assert!(!ev.present);
    assert!(!det.is_present());
    // The dwell of five seconds after the flip at tick 19 ends at tick 39;
    // the window then still holds six votes of twenty, which is the exit
    // fraction, and one tick later five.
    assert_eq!(tick, 40);
    assert_eq!(ev.agreement_pct, 25);
}

#[test]
fn ticks_on_rings_of_different_rates_are_skipped() {
    let c = cfg();
    let n = 4_096;
    let mut reference: RingBuffer<i16> = RingBuffer::new(44_100);
    let mut mic: RingBuffer<i16> = RingBuffer::new(48_000);
    let mut det = Detector::new(&c, 0);
    let signal = noise(8_192, 3277.0, 31);
    reference.append(&signal);
    mic.append(&signal);
    for tick in 0..40u64 {
        assert_eq!(det.tick(&reference, &mic, n, tick * 250, &c), None);
    }
    assert!(!det.is_present());
}

#[test]
fn feed_advances_the_state_on_every_full_window() {
    let mut c = cfg();
    c.window_sec = 1;
    c.min_dwell_ms = 500;
    let mut det = Detector::new(&c, 10_000);
    assert_eq!(det.feed(Some((900, 500_000)), 10_000, &c), None);
    assert_eq!(det.feed(Some((1_100, 300_000)), 10_250, &c), None);
    assert_eq!(det.feed(Some((2_000, 900_000)), 10_500, &c), None);
    // Window of four: two qualifying votes, one too far, and this one.
    let ev = det.feed(Some((1_000, 400_000)), 10_750, &c).unwrap();
    assert!(ev.present);
    assert_eq!(ev.agreement_pct, 75);
    assert_eq!(ev.mean_distance_mm, Some(1_000));
    assert_eq!(ev.mean_strength, 400_000);
    // Held by the dwell, then released.
    assert_eq!(det.feed(None, 11_000, &c), None);
    assert_eq!(det.feed(None, 11_100, &c), None);
    assert_eq!(det.feed(None, 11_200, &c), None);
    let ev = det.feed(None, 11_250, &c).unwrap();
    assert!(!ev.present);
    assert_eq!(ev.agreement_pct, 0);
    assert_eq!(ev.mean_distance_mm, None);
    det.feed(Some((1, 1_000_000)), 20_000, &c);
    det.feed(Some((1, 1_000_000)), 20_000, &c);
    assert!(det.feed(Some((1, 1_000_000)), 20_000, &c).is_some());
    det.reset_state(20_000, &c);
    assert!(!det.is_present());
    // The window is kept, so the next aggregate flips at once.
    assert!(det.feed(Some((1, 1_000_000)), 20_000, &c).is_some());
}
