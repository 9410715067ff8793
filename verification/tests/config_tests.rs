use sonar_presence::config::{exit_code, Config, ErrorKind, Mode, ScanMeta};
use sonar_presence::logger::LogLevel;

#[test]
fn default_options() {
    let c = Config::new(String::from("build/Detection.log"), String::from("build/SongScan.csv"));
    assert_eq!(c.mode, Mode::Presence);
    assert_eq!(c.log_path, "build/Detection.log");
    assert_eq!(c.scansong_path, "build/SongScan.csv");
    assert_eq!((c.tick_ms, c.window_sec, c.agg_frac), (250, 5, 500_000));
    assert_eq!((c.min_dwell_ms, c.exit_frac, c.enter_frac), (5_000, 300_000, 600_000));
    assert_eq!((c.front_min_mm, c.front_max_mm, c.dist_max_mm), (300, 1_500, 1_500));
    assert_eq!((c.strength_thr, c.min_ref_rms, c.min_rms), (200_000, 100, 200));
    assert_eq!((c.frame_ms, c.scan_window_ms, c.stride_ms, c.hf_split_hz), (23, 3_000, 200, 2_500));
    assert_eq!((c.top_n, c.min_percentile, c.nms_radius_ms), (20, 850_000, 1_000));
    assert_eq!((c.merge_gap_ms, c.clamp_min_ms, c.clamp_max_ms), (3_000, 3_000, 60_000));
    assert_eq!((c.scan_sample_rate_hz, c.offline_sample_rate_hz), (48_000, 0));
    assert_eq!((c.fp_win_ms, c.fp_thr, c.fp_margin, c.guard_ms), (5_000, 600_000, 70_000, 500));
    assert_eq!(c.fp_arm_dbfs, -40_000);
    assert_eq!(c.enrich_song_path, "");
    assert_eq!((c.enrich_interval_length_ms, c.enrich_ping_length_ms), (1_000, 100));
    assert_eq!(c.ffmpeg_path, ".\\ffmpeg\\bin\\ffmpeg.exe");
    assert_eq!((c.impulse_listen_ms, c.impulse_length_us, c.impulse_amplitude), (400, 50_000, 600_000));
    assert_eq!(c.log_level, LogLevel::Info);
}

#[test]
fn scan_meta_starts_empty() {
    let m = ScanMeta::new();
    assert_eq!(m.url, "");
    assert_eq!(m.input_path, "");
    let d = ScanMeta::default();
    assert_eq!((d.url.as_str(), d.input_path.as_str()), ("", ""));
}

#[test]
fn exit_codes() {
    assert_eq!(exit_code(None), 0);
    assert_eq!(exit_code(Some(ErrorKind::ConfigError)), 1);
    assert_eq!(exit_code(Some(ErrorKind::CaptureUnavailable)), 2);
    assert_eq!(exit_code(Some(ErrorKind::IoError)), 1);
    assert_eq!(exit_code(Some(ErrorKind::FingerprintMissing)), 1);
}
