use sonar_presence::aggregator::WindowAggregate;
use sonar_presence::config::Config;
use sonar_presence::hysteresis::{qualify, Event, PresenceState};

fn cfg() -> Config {
    Config::new(String::from("Detection.log"), String::from("SongScan.csv"))
}

fn agg(agreement: u32) -> WindowAggregate {
    WindowAggregate {
        present: agreement >= 500_000,
        mean_distance_mm: Some(1000),
        mean_strength: 700_000,
        agreement,
    }
}

#[test]
fn first_flip_is_immediate() {
    let c = cfg();
    let mut st = PresenceState::new(100, c.min_dwell_ms);
    assert!(!st.is_present());
    assert_eq!(st.last_flip_ms(), 100 - 5000);
    let ev = st.advance(&agg(600_000), 100, &c);
    assert_eq!(
        ev,
        Some(Event {
            present: true,
            mean_distance_mm: Some(1000),
            mean_strength: 700_000,
            agreement_pct: 60,
        })
    );
    assert!(st.is_present());
    assert_eq!(st.last_flip_ms(), 100);
}

#[test]
fn enter_needs_the_enter_fraction() {
    let c = cfg();
    let mut st = PresenceState::new(0, c.min_dwell_ms);
    assert_eq!(st.advance(&agg(599_999), 10, &c), None);
    assert!(!st.is_present());
    assert!(st.advance(&agg(600_000), 20, &c).is_some());
}

#[test]
fn present_holds_down_to_the_exit_fraction() {
    let c = cfg();
    let mut st = PresenceState::new(0, c.min_dwell_ms);
    st.advance(&agg(900_000), 0, &c);
    assert!(st.is_present());
    assert_eq!(st.advance(&agg(300_000), 10_000, &c), None);
    assert!(st.is_present());
    let ev = st.advance(&agg(299_999), 10_000, &c).unwrap();
    assert!(!ev.present);
    assert_eq!(ev.agreement_pct, 30);
    assert!(!st.is_present());
}

#[test]
fn flips_are_at_least_the_dwell_apart() {
    let c = cfg();
    let mut st = PresenceState::new(1000, c.min_dwell_ms);
    assert!(st.advance(&agg(1_000_000), 1000, &c).is_some());
    assert_eq!(st.advance(&agg(0), 1250, &c), None);
    assert_eq!(st.advance(&agg(0), 5999, &c), None);
    assert!(st.is_present());
    assert!(st.advance(&agg(0), 6000, &c).is_some());
    assert!(!st.is_present());
    assert_eq!(st.last_flip_ms(), 6000);
    assert_eq!(st.advance(&agg(1_000_000), 10_999, &c), None);
    assert!(st.advance(&agg(1_000_000), 11_000, &c).is_some());
}

#[test]
fn event_percent_is_rounded() {
    let mut c = cfg();
    c.enter_frac = 0;
    c.min_dwell_ms = 0;
    let mut st = PresenceState::new(0, 0);
    let ev = st.advance(&agg(4_999), 0, &c).unwrap();
    assert_eq!(ev.agreement_pct, 0);
    let mut st = PresenceState::new(0, 0);
    let ev = st.advance(&agg(5_000), 0, &c).unwrap();
    assert_eq!(ev.agreement_pct, 1);
    let mut st = PresenceState::new(0, 0);
    let ev = st.advance(&agg(1_000_000), 0, &c).unwrap();
    assert_eq!(ev.agreement_pct, 100);
}

#[test]
fn votes_qualify_by_distance_and_strength() {
    let c = cfg();
    assert_eq!(qualify(Some((1500, 200_000)), &c), Some((1500, 200_000)));
    assert_eq!(qualify(Some((1501, 900_000)), &c), None);
    assert_eq!(qualify(Some((300, 199_999)), &c), None);
    assert_eq!(qualify(None, &c), None);
}
