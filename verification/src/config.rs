//! Run-time configuration of the detector, in the crate's fixed-point units.

use vstd::prelude::*;
use crate::logger::LogLevel;

verus! {

/// Which driver runs.
#[derive(Clone, Copy, Debug, PartialEq, Eq, Structural)]
pub enum Mode {
    Presence,
    Scan,
    Offline,
    Gated,
    Enrich,
    Impulse,
}

/// Tags that accompany a scan: the URL written with each row and the file to analyse.
#[derive(Clone, Debug)]
pub struct ScanMeta {
    pub url: String,
    pub input_path: String,
}

impl ScanMeta {
    /// Both tags empty.
    pub fn new() -> (meta: Self)
        ensures
            meta.url@ == Seq::<char>::empty(),
            meta.input_path@ == Seq::<char>::empty(),
    {
        ScanMeta { url: String::new(), input_path: String::new() }
    }
}

impl Default for ScanMeta {
    fn default() -> (meta: Self)
        ensures
            meta.url@ == Seq::<char>::empty(),
            meta.input_path@ == Seq::<char>::empty(),
    {
        ScanMeta::new()
    }
}

/// Every option of the detector.
///
/// Fractions (`*_frac`, `*_thr`, `fp_margin`, `min_percentile`,
/// `impulse_amplitude`) and signal
/// levels (`min_rms`, `min_ref_rms`) are millionths of one,
/// respectively of full scale; distances are millimetres; durations are
/// milliseconds unless the field says otherwise.
#[derive(Clone, Debug)]
pub struct Config {
    pub mode: Mode,
    pub tick_ms: u64,
    pub agg_frac: u32,
    pub window_sec: u32,
    pub min_dwell_ms: u64,
    pub exit_frac: u32,
    pub enter_frac: u32,
    pub front_min_mm: u32,
    pub front_max_mm: u32,
    pub strength_thr: u32,
    pub dist_max_mm: u32,
    pub min_ref_rms: u32,
    pub min_rms: u32,
    pub log_path: String,
    pub scansong_path: String,
    pub frame_ms: u32,
    pub scan_window_ms: u32,
    pub stride_ms: u32,
    pub hf_split_hz: u32,
    pub top_n: usize,
    pub min_percentile: u32,
    pub nms_radius_ms: u32,
    pub merge_gap_ms: u32,
    pub clamp_min_ms: u32,
    pub clamp_max_ms: u32,
    pub scan_sample_rate_hz: u32,
    pub fp_win_ms: u32,
    pub fp_thr: u32,
    pub fp_margin: u32,
    pub guard_ms: u32,
    /// Loopback level that arms matching, in thousandths of a decibel
    /// relative to full scale.
    pub fp_arm_dbfs: i32,
    pub offline_sample_rate_hz: u32,
    pub enrich_song_path: String,
    pub enrich_interval_length_ms: u32,
    pub enrich_ping_length_ms: u32,
    pub ffmpeg_path: String,
    pub impulse_listen_ms: u64,
    pub impulse_length_us: u32,
    pub impulse_amplitude: u32,
    pub log_level: LogLevel,
}

/// The options that `Config::new` fixes, whatever the two paths are.
pub open spec fn has_default_options(c: Config) -> bool {
    &&& c.mode == Mode::Presence
    &&& c.tick_ms == 250
    &&& c.agg_frac == 500_000
    &&& c.window_sec == 5
    &&& c.min_dwell_ms == 5000
    &&& c.exit_frac == 300_000
    &&& c.enter_frac == 600_000
    &&& c.front_min_mm == 300
    &&& c.front_max_mm == 1500
    &&& c.strength_thr == 200_000
    &&& c.dist_max_mm == 1500
    &&& c.min_ref_rms == 100
    &&& c.min_rms == 200
    &&& c.frame_ms == 23
    &&& c.scan_window_ms == 3000
    &&& c.stride_ms == 200
    &&& c.hf_split_hz == 2500
    &&& c.top_n == 20
    &&& c.min_percentile == 850_000
    &&& c.nms_radius_ms == 1000
    &&& c.merge_gap_ms == 3000
    &&& c.clamp_min_ms == 3000
    &&& c.clamp_max_ms == 60_000
    &&& c.scan_sample_rate_hz == 48_000
    &&& c.fp_win_ms == 5000
    &&& c.fp_thr == 600_000
    &&& c.fp_margin == 70_000
    &&& c.guard_ms == 500
    &&& c.fp_arm_dbfs == -40_000
    &&& c.offline_sample_rate_hz == 0
    &&& c.enrich_song_path@ == Seq::<char>::empty()
    &&& c.enrich_interval_length_ms == 1000
    &&& c.enrich_ping_length_ms == 100
    &&& c.ffmpeg_path@ == ".\\ffmpeg\\bin\\ffmpeg.exe"@
    &&& c.impulse_listen_ms == 400
    &&& c.impulse_length_us == 50_000
    &&& c.impulse_amplitude == 600_000
    &&& c.log_level == LogLevel::Info
}

impl Config {
    /// The default options, writing the log to `log_path` and the scan table
    /// to `scansong_path`.
    pub fn new(log_path: String, scansong_path: String) -> (c: Self)
        ensures
            has_default_options(c),
            c.log_path@ == log_path@,
            c.scansong_path@ == scansong_path@,
    {
        Config {
            mode: Mode::Presence,
            tick_ms: 250,
            agg_frac: 500_000,
            window_sec: 5,
            min_dwell_ms: 5000,
            exit_frac: 300_000,
            enter_frac: 600_000,
            front_min_mm: 300,
            front_max_mm: 1500,
            strength_thr: 200_000,
            dist_max_mm: 1500,
            min_ref_rms: 100,
            min_rms: 200,
            log_path,
            scansong_path,
            frame_ms: 23,
            scan_window_ms: 3000,
            stride_ms: 200,
            hf_split_hz: 2500,
            top_n: 20,
            min_percentile: 850_000,
            nms_radius_ms: 1000,
            merge_gap_ms: 3000,
            clamp_min_ms: 3000,
            clamp_max_ms: 60_000,
            scan_sample_rate_hz: 48_000,
            fp_win_ms: 5000,
            fp_thr: 600_000,
            fp_margin: 70_000,
            guard_ms: 500,
            fp_arm_dbfs: -40_000,
            offline_sample_rate_hz: 0,
            enrich_song_path: String::new(),
            enrich_interval_length_ms: 1000,
            enrich_ping_length_ms: 100,
            ffmpeg_path: String::from_str(".\\ffmpeg\\bin\\ffmpeg.exe"),
            impulse_listen_ms: 400,
            impulse_length_us: 50_000,
            impulse_amplitude: 600_000,
            log_level: LogLevel::Info,
        }
    }
}

/// What can end a run early.
#[derive(Clone, Copy, Debug, PartialEq, Eq, Structural)]
pub enum ErrorKind {
    /// An option or its value is not understood.
    ConfigError,
    /// No default device, or the audio service could not be started.
    CaptureUnavailable,
    /// A file could not be read or written.
    IoError,
    /// No stored track has a usable fingerprint.
    FingerprintMissing,
}

/// The exit code of a run: zero when it ended normally, two when capture was
/// unavailable, one for any other error.
pub open spec fn exit_code_of(outcome: Option<ErrorKind>) -> u8 {
    match outcome {
        None => 0,
        Some(ErrorKind::CaptureUnavailable) => 2,
        Some(_) => 1,
    }
}

/// The exit code of a run that ended normally or with an error.
pub fn exit_code(outcome: Option<ErrorKind>) -> (code: u8)
    ensures
        code == exit_code_of(outcome),
{
    match outcome {
        None => 0,
        Some(ErrorKind::CaptureUnavailable) => 2,
        Some(_) => 1,
    }
}

} // verus!
