use sonar_presence::capture::{
    chunk_len, first_channel, maybe_rate_supported, resample_linear_mono, unsigned_sample,
    Chunker,
};

#[test]
fn first_channel_of_interleaved_frames() {
    assert_eq!(first_channel(&[1, 10, 2, 20, 3, 30], 2), vec![1, 2, 3]);
    assert_eq!(first_channel(&[1, 10, 100, 2, 20, 200, 3], 3), vec![1, 2]);
    assert_eq!(first_channel(&[5, 6, 7], 1), vec![5, 6, 7]);
    assert_eq!(first_channel(&[5, 6, 7], 4), Vec::<i16>::new());
    assert_eq!(first_channel(&[0.5f32, 0.25, -0.5, 0.75], 2), vec![0.5, -0.5]);
    assert_eq!(first_channel(&Vec::<u8>::new(), 2), Vec::<u8>::new());
}

#[test]
fn unsigned_samples_on_the_signed_scale() {
    assert_eq!(unsigned_sample(0), -32_768);
    assert_eq!(unsigned_sample(65_535), 32_767);
    assert_eq!(unsigned_sample(32_768), 1);
    assert_eq!(unsigned_sample(32_767), -1);
    assert_eq!(unsigned_sample(49_151), 16_384);
    assert_eq!(unsigned_sample(16_384), -16_384);
}

#[test]
fn chunk_is_one_tick_of_samples() {
    assert_eq!(chunk_len(48_000, 250), 12_000);
    assert_eq!(chunk_len(44_100, 50), 2_205);
    assert_eq!(chunk_len(8_000, 0), 1);
    assert_eq!(chunk_len(999, 1), 1);
    assert_eq!(chunk_len(0, 250), 1);
}

#[test]
fn chunker_cuts_the_stream_into_equal_chunks() {
    let mut c = Chunker::new(4);
    assert_eq!(c.push(&[1, 2, 3]), Vec::<Vec<i16>>::new());
    assert_eq!(c.push(&[4, 5, 6, 7, 8, 9]), vec![vec![1, 2, 3, 4], vec![5, 6, 7, 8]]);
    assert_eq!(c.push(&[]), Vec::<Vec<i16>>::new());
    assert_eq!(c.push(&[10, 11, 12]), vec![vec![9, 10, 11, 12]]);
    assert_eq!(c.push(&[13, 14, 15, 16]), vec![vec![13, 14, 15, 16]]);
    let mut one = Chunker::new(1);
    assert_eq!(one.push(&[7, 8]), vec![vec![7], vec![8]]);
}

#[test]
fn resampling_interpolates_between_neighbours() {
    let x = [0i16, 100, 200, 300];
    assert_eq!(resample_linear_mono(&x, 8_000, 16_000), vec![0, 50, 100, 150, 200, 250, 300, 300]);
    assert_eq!(resample_linear_mono(&x, 16_000, 8_000), vec![0, 200]);
    assert_eq!(resample_linear_mono(&x, 3, 2), vec![0, 150]);
    assert_eq!(resample_linear_mono(&[0, -100, -300], 2, 3), vec![0, -67, -167, -300]);
    assert_eq!(resample_linear_mono(&[9, 9, 9], 48_000, 1), vec![9]);
}

#[test]
fn resampling_leaves_equal_or_unknown_rates_alone() {
    let x = [1i16, 2, 3];
    assert_eq!(resample_linear_mono(&x, 8_000, 8_000), vec![1, 2, 3]);
    assert_eq!(resample_linear_mono(&x, 0, 8_000), vec![1, 2, 3]);
    assert_eq!(resample_linear_mono(&x, 8_000, 0), vec![1, 2, 3]);
    assert_eq!(resample_linear_mono(&[], 8_000, 16_000), Vec::<i16>::new());
}

#[test]
fn a_rate_is_asked_for_only_where_it_is_supported() {
    let ranges = vec![(8_000, 16_000), (44_100, 44_100), (48_000, 96_000)];
    assert_eq!(maybe_rate_supported(&ranges, 48_000), Some(48_000));
    assert_eq!(maybe_rate_supported(&ranges, 44_100), Some(44_100));
    assert_eq!(maybe_rate_supported(&ranges, 16_000), Some(16_000));
    assert_eq!(maybe_rate_supported(&ranges, 22_050), None);
    assert_eq!(maybe_rate_supported(&ranges, 96_001), None);
    assert_eq!(maybe_rate_supported(&Vec::new(), 48_000), None);
}
