use sonar_presence::ring::RingBuffer;

#[test]
fn ring_keeps_the_newest_samples() {
    let mut ring: RingBuffer<i16> = RingBuffer::new(1);
    assert_eq!(ring.capacity(), 10);
    ring.append(&[1, 2, 3, 4, 5, 6]);
    assert_eq!(ring.len(), 6);
    ring.append(&[7, 8, 9, 10, 11, 12]);
    assert_eq!(ring.len(), 10);
    assert_eq!(ring.snapshot(10), Some(vec![3, 4, 5, 6, 7, 8, 9, 10, 11, 12]));
    assert_eq!(ring.snapshot(3), Some(vec![10, 11, 12]));
    assert_eq!(ring.snapshot(11), None);
}

#[test]
fn ring_never_exceeds_its_capacity() {
    let mut ring: RingBuffer<i16> = RingBuffer::new(2);
    assert_eq!(ring.sample_rate(), 2);
    assert_eq!(ring.capacity(), 20);
    for round in 0..50i16 {
        let block: Vec<i16> = (0..(round % 7 + 1) * 5).map(|i| round * 100 + i).collect();
        ring.append(&block);
        assert!(ring.len() <= 20);
    }
    let big: Vec<i16> = (0..45).collect();
    ring.append(&big);
    assert_eq!(ring.snapshot(20), Some((25..45).collect::<Vec<i16>>()));
    ring.append(&[]);
    assert_eq!(ring.len(), 20);
}

#[test]
fn ring_holds_any_sample_type() {
    let mut ring: RingBuffer<f32> = RingBuffer::new(1);
    ring.append(&[0.5, -0.25]);
    assert_eq!(ring.snapshot(1), Some(vec![-0.25]));
    assert_eq!(ring.snapshot(0), Some(Vec::new()));
    let empty: RingBuffer<u8> = RingBuffer::new(0);
    assert_eq!(empty.capacity(), 0);
    assert_eq!(empty.snapshot(1), None);
}
