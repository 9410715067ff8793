use sonar_presence::aggregator::{window_cap, Aggregator, WindowAggregate};

#[test]
fn window_cap_counts_whole_ticks() {
    assert_eq!(window_cap(5, 250), 20);
    assert_eq!(window_cap(3, 200), 15);
    assert_eq!(window_cap(5, 300), 15);
    assert_eq!(window_cap(1, 1), 1000);
}

#[test]
fn window_cap_is_at_least_one() {
    assert_eq!(window_cap(5, 2000), 1);
    assert_eq!(window_cap(0, 250), 1);
}

#[test]
fn aggregator_is_silent_until_the_window_is_full() {
    let mut agg = Aggregator::new(1, 250, 500_000);
    assert_eq!(agg.cap(), 4);
    assert_eq!(agg.push(Some((1000, 400_000))), None);
    assert_eq!(agg.push(None), None);
    assert_eq!(agg.push(None), None);
    assert!(agg.push(None).is_some());
    assert!(agg.push(None).is_some());
    assert!(agg.push(Some((1, 1))).is_some());
    assert_eq!(agg.len(), 4);
}

#[test]
fn aggregator_means_are_over_the_votes_cast() {
    let mut agg = Aggregator::new(1, 250, 500_000);
    agg.push(Some((1000, 400_000)));
    agg.push(None);
    agg.push(Some((1201, 600_001)));
    let out = agg.push(Some((800, 200_000)));
    assert_eq!(
        out,
        Some(WindowAggregate {
            present: true,
            mean_distance_mm: Some(1000),
            mean_strength: 400_000,
            agreement: 750_000,
        })
    );
}

#[test]
fn aggregator_window_slides() {
    let mut agg = Aggregator::new(1, 500, 600_000);
    assert_eq!(agg.cap(), 2);
    assert_eq!(agg.push(Some((100, 10))), None);
    let a = agg.push(Some((300, 30))).unwrap();
    assert_eq!((a.mean_distance_mm, a.mean_strength, a.agreement, a.present), (Some(200), 20, 1_000_000, true));
    let b = agg.push(None).unwrap();
    assert_eq!((b.mean_distance_mm, b.mean_strength, b.agreement, b.present), (Some(300), 30, 500_000, false));
    let c = agg.push(None).unwrap();
    assert_eq!((c.mean_distance_mm, c.mean_strength, c.agreement, c.present), (None, 0, 0, false));
}

#[test]
fn aggregator_mean_distance_is_infinite_only_without_votes() {
    let mut agg = Aggregator::new(1, 250, 0);
    for _ in 0..3 {
        agg.push(None);
    }
    let empty = agg.push(None).unwrap();
    assert_eq!(empty.mean_distance_mm, None);
    assert_eq!(empty.mean_strength, 0);
    assert_eq!(empty.agreement, 0);
    assert!(empty.present);
    let one = agg.push(Some((0, 0))).unwrap();
    assert_eq!(one.mean_distance_mm, Some(0));
    assert_eq!(one.agreement, 250_000);
}

#[test]
fn aggregator_agreement_rounds_down() {
    let mut agg = Aggregator::new(1, 333, 333_334);
    assert_eq!(agg.cap(), 3);
    agg.push(Some((5, 5)));
    agg.push(None);
    let a = agg.push(None).unwrap();
    assert_eq!(a.agreement, 333_333);
    assert!(!a.present);
}
