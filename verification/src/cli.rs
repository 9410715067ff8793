//! Command-line options: how a list of arguments changes a configuration.

use vstd::prelude::*;
use vstd::string::StringExecFns;
use vstd::utf8::encode_utf8;
use crate::config::{Config, Mode, ScanMeta};
use crate::logger::LogLevel;
use crate::text::{
    natural_of, parse_natural, parse_signed_decimal, range_is, signed_decimal_of,
};

verus! {

/// A configuration as plain values.
pub struct ConfigModel {
    pub mode: Mode,
    pub tick_ms: u64,
    pub agg_frac: u32,
    pub window_sec: u32,
    pub min_dwell_ms: u64,
    pub exit_frac: u32,
    pub enter_frac: u32,
    pub front_min_mm: u32,
    pub front_max_mm: u32,
    pub strength_thr: u32,
    pub dist_max_mm: u32,
    pub min_ref_rms: u32,
    pub min_rms: u32,
    pub log_path: Seq<char>,
    pub scansong_path: Seq<char>,
    pub frame_ms: u32,
    pub scan_window_ms: u32,
    pub stride_ms: u32,
    pub hf_split_hz: u32,
    pub top_n: usize,
    pub min_percentile: u32,
    pub nms_radius_ms: u32,
    pub merge_gap_ms: u32,
    pub clamp_min_ms: u32,
    pub clamp_max_ms: u32,
    pub scan_sample_rate_hz: u32,
    pub fp_win_ms: u32,
    pub fp_thr: u32,
    pub fp_margin: u32,
    pub guard_ms: u32,
    pub fp_arm_dbfs: i32,
    pub offline_sample_rate_hz: u32,
    pub enrich_song_path: Seq<char>,
    pub enrich_interval_length_ms: u32,
    pub enrich_ping_length_ms: u32,
    pub ffmpeg_path: Seq<char>,
    pub impulse_listen_ms: u64,
    pub impulse_length_us: u32,
    pub impulse_amplitude: u32,
    pub log_level: LogLevel,
}

/// The tags of a scan as plain values.
pub struct MetaModel {
    pub url: Seq<char>,
    pub input_path: Seq<char>,
}

/// The plain values of a configuration.
pub open spec fn config_model(c: Config) -> ConfigModel {
    ConfigModel {
        mode: c.mode,
        tick_ms: c.tick_ms,
        agg_frac: c.agg_frac,
        window_sec: c.window_sec,
        min_dwell_ms: c.min_dwell_ms,
        exit_frac: c.exit_frac,
        enter_frac: c.enter_frac,
        front_min_mm: c.front_min_mm,
        front_max_mm: c.front_max_mm,
        strength_thr: c.strength_thr,
        dist_max_mm: c.dist_max_mm,
        min_ref_rms: c.min_ref_rms,
        min_rms: c.min_rms,
        log_path: c.log_path@,
        scansong_path: c.scansong_path@,
        frame_ms: c.frame_ms,
        scan_window_ms: c.scan_window_ms,
        stride_ms: c.stride_ms,
        hf_split_hz: c.hf_split_hz,
        top_n: c.top_n,
        min_percentile: c.min_percentile,
        nms_radius_ms: c.nms_radius_ms,
        merge_gap_ms: c.merge_gap_ms,
        clamp_min_ms: c.clamp_min_ms,
        clamp_max_ms: c.clamp_max_ms,
        scan_sample_rate_hz: c.scan_sample_rate_hz,
        fp_win_ms: c.fp_win_ms,
        fp_thr: c.fp_thr,
        fp_margin: c.fp_margin,
        guard_ms: c.guard_ms,
        fp_arm_dbfs: c.fp_arm_dbfs,
        offline_sample_rate_hz: c.offline_sample_rate_hz,
        enrich_song_path: c.enrich_song_path@,
        enrich_interval_length_ms: c.enrich_interval_length_ms,
        enrich_ping_length_ms: c.enrich_ping_length_ms,
        ffmpeg_path: c.ffmpeg_path@,
        impulse_listen_ms: c.impulse_listen_ms,
        impulse_length_us: c.impulse_length_us,
        impulse_amplitude: c.impulse_amplitude,
        log_level: c.log_level,
    }
}

/// The plain values of the tags of a scan.
pub open spec fn meta_model(m: ScanMeta) -> MetaModel {
    MetaModel { url: m.url@, input_path: m.input_path@ }
}

/// The options that take a value.
#[derive(Clone, Copy, Debug, PartialEq, Eq, Structural)]
pub enum Opt {
    Mode,
    LogPath,
    LogLevel,
    ScansongPath,
    TickMs,
    AggFrac,
    WindowSec,
    MinDwellMs,
    ExitFrac,
    EnterFrac,
    FrontMinM,
    FrontMaxM,
    StrengthThr,
    DistMaxM,
    MinRefRms,
    MinRms,
    FrameMs,
    ScanWindowS,
    StrideMs,
    HfSplitHz,
    TopN,
    MinPercentile,
    NmsRadiusS,
    MergeGapS,
    ClampMinS,
    ClampMaxS,
    SampleRate,
    ScanUrl,
    Input,
    FpWinS,
    FpThr,
    FpMargin,
    GuardS,
    FpArmDbfs,
    OfflineSr,
    SongPath,
    IntervalLength,
    PingLength,
    FfmpegPath,
    ImpulseListenMs,
    ImpulseLengthMs,
    ImpulseAmplitude,
}

/// Why a list of arguments is not taken.
#[derive(Clone, Debug, PartialEq, Eq)]
pub enum ArgError {
    /// The usage was asked for.
    Help,
    /// An argument is not understood; the text says which and why.
    Invalid(String),
}

/// The option that a flag names.
pub open spec fn opt_of(flag: Seq<char>) -> Option<Opt> {
    if flag == "--mode"@ {
        Some(Opt::Mode)
    } else if flag == "--log-path"@ {
        Some(Opt::LogPath)
    } else if flag == "--log-level"@ {
        Some(Opt::LogLevel)
    } else if flag == "--scansong-path"@ {
        Some(Opt::ScansongPath)
    } else if flag == "-tm"@ || flag == "--tick-ms"@ {
        Some(Opt::TickMs)
    } else if flag == "-af"@ || flag == "--agg-frac"@ {
        Some(Opt::AggFrac)
    } else if flag == "-ws"@ || flag == "--window-sec"@ {
        Some(Opt::WindowSec)
    } else if flag == "--min-dwell-ms"@ {
        Some(Opt::MinDwellMs)
    } else if flag == "--exit-frac"@ {
        Some(Opt::ExitFrac)
    } else if flag == "--enter-frac"@ {
        Some(Opt::EnterFrac)
    } else if flag == "--front-min-m"@ {
        Some(Opt::FrontMinM)
    } else if flag == "--front-max-m"@ {
        Some(Opt::FrontMaxM)
    } else if flag == "--strength-thr"@ {
        Some(Opt::StrengthThr)
    } else if flag == "--dist-max-m"@ {
        Some(Opt::DistMaxM)
    } else if flag == "--min-ref-rms"@ {
        Some(Opt::MinRefRms)
    } else if flag == "--min-rms"@ {
        Some(Opt::MinRms)
    } else if flag == "--frame-ms"@ {
        Some(Opt::FrameMs)
    } else if flag == "--scan-window-s"@ {
        Some(Opt::ScanWindowS)
    } else if flag == "--stride-ms"@ {
        Some(Opt::StrideMs)
    } else if flag == "--hf-split-hz"@ {
        Some(Opt::HfSplitHz)
    } else if flag == "--top-n"@ {
        Some(Opt::TopN)
    } else if flag == "--min-percentile"@ {
        Some(Opt::MinPercentile)
    } else if flag == "--nms-radius-s"@ {
        Some(Opt::NmsRadiusS)
    } else if flag == "--merge-gap-s"@ {
        Some(Opt::MergeGapS)
    } else if flag == "--clamp-min-s"@ {
        Some(Opt::ClampMinS)
    } else if flag == "--clamp-max-s"@ {
        Some(Opt::ClampMaxS)
    } else if flag == "--sample-rate"@ || flag == "--sr"@ {
        Some(Opt::SampleRate)
    } else if flag == "--scan-url"@ {
        Some(Opt::ScanUrl)
    } else if flag == "--input"@ {
        Some(Opt::Input)
    } else if flag == "--fp-win-s"@ {
        Some(Opt::FpWinS)
    } else if flag == "--fp-thr"@ {
        Some(Opt::FpThr)
    } else if flag == "--fp-margin"@ {
        Some(Opt::FpMargin)
    } else if flag == "--guard-s"@ {
        Some(Opt::GuardS)
    } else if flag == "--fp-arm-dbfs"@ {
        Some(Opt::FpArmDbfs)
    } else if flag == "--offline-sr"@ {
        Some(Opt::OfflineSr)
    } else if flag == "--song-path"@ {
        Some(Opt::SongPath)
    } else if flag == "--interval-length"@ {
        Some(Opt::IntervalLength)
    } else if flag == "--ping-length"@ {
        Some(Opt::PingLength)
    } else if flag == "--ffmpeg-path"@ {
        Some(Opt::FfmpegPath)
    } else if flag == "--impulse-listen-ms"@ {
        Some(Opt::ImpulseListenMs)
    } else if flag == "--impulse-length-ms"@ {
        Some(Opt::ImpulseLengthMs)
    } else if flag == "--impulse-amplitude"@ {
        Some(Opt::ImpulseAmplitude)
    } else {
        None
    }
}

/// What is said when the value of an option is missing.
pub open spec fn missing_message(opt: Opt) -> Seq<char> {
    match opt {
        Opt::Mode => "Missing value for --mode"@,
        Opt::LogPath => "Missing value for --log-path"@,
        Opt::LogLevel => "Missing value for --log-level"@,
        Opt::ScansongPath => "Missing value for --scansong-path"@,
        Opt::TickMs => "Missing value for tick-ms"@,
        Opt::AggFrac => "Missing value for agg-frac"@,
        Opt::WindowSec => "Missing value for window-sec"@,
        Opt::MinDwellMs => "Missing value for --min-dwell-ms"@,
        Opt::ExitFrac => "Missing value for --exit-frac"@,
        Opt::EnterFrac => "Missing value for --enter-frac"@,
        Opt::FrontMinM => "Missing value for --front-min-m"@,
        Opt::FrontMaxM => "Missing value for --front-max-m"@,
        Opt::StrengthThr => "Missing value for --strength-thr"@,
        Opt::DistMaxM => "Missing value for --dist-max-m"@,
        Opt::MinRefRms => "Missing value for --min-ref-rms"@,
        Opt::MinRms => "Missing value for --min-rms"@,
        Opt::FrameMs => "Missing value for frame-ms"@,
        Opt::ScanWindowS => "Missing value for scan-window-s"@,
        Opt::StrideMs => "Missing value for stride-ms"@,
        Opt::HfSplitHz => "Missing value for hf-split-hz"@,
        Opt::TopN => "Missing value for top-n"@,
        Opt::MinPercentile => "Missing value for min-percentile"@,
        Opt::NmsRadiusS => "Missing value for nms-radius-s"@,
        Opt::MergeGapS => "Missing value for merge-gap-s"@,
        Opt::ClampMinS => "Missing value for clamp-min-s"@,
        Opt::ClampMaxS => "Missing value for clamp-max-s"@,
        Opt::SampleRate => "Missing value for --sample-rate/--sr"@,
        Opt::ScanUrl => "Missing value for scan-url"@,
        Opt::Input => "Missing value for --input"@,
        Opt::FpWinS => "Missing value for fp-win-s"@,
        Opt::FpThr => "Missing value for fp-thr"@,
        Opt::FpMargin => "Missing value for fp-margin"@,
        Opt::GuardS => "Missing value for guard-s"@,
        Opt::FpArmDbfs => "Missing value for fp-arm-dbfs"@,
        Opt::OfflineSr => "Missing value for --offline-sr"@,
        Opt::SongPath => "Missing value for --song-path"@,
        Opt::IntervalLength => "Missing value for --interval-length"@,
        Opt::PingLength => "Missing value for --ping-length"@,
        Opt::FfmpegPath => "Missing value for --ffmpeg-path"@,
        Opt::ImpulseListenMs => "Missing value for --impulse-listen-ms"@,
        Opt::ImpulseLengthMs => "Missing value for --impulse-length-ms"@,
        Opt::ImpulseAmplitude => "Missing value for --impulse-amplitude"@,
    }
}

/// The mode that a word names.
pub open spec fn mode_of(word: Seq<char>) -> Option<Mode> {
    if word == "presence"@ {
        Some(Mode::Presence)
    } else if word == "scan"@ {
        Some(Mode::Scan)
    } else if word == "offline"@ {
        Some(Mode::Offline)
    } else if word == "gated"@ {
        Some(Mode::Gated)
    } else if word == "presence-gated"@ {
        Some(Mode::Gated)
    } else if word == "enrich"@ {
        Some(Mode::Enrich)
    } else if word == "impulse"@ {
        Some(Mode::Impulse)
    } else {
        None
    }
}

/// The log level that a word names.
pub open spec fn level_of(word: Seq<char>) -> Option<LogLevel> {
    if word == "debug"@ {
        Some(LogLevel::Debug)
    } else if word == "info"@ {
        Some(LogLevel::Info)
    } else if word == "warning"@ {
        Some(LogLevel::Warning)
    } else if word == "warn"@ {
        Some(LogLevel::Warning)
    } else if word == "error"@ {
        Some(LogLevel::Error)
    } else {
        None
    }
}

/// The lower-case form of a text.
pub uninterp spec fn lowercase_text(s: Seq<char>) -> Seq<char>;

/// Calls `str::to_lowercase`. Trusted: the result is the text named
/// `lowercase_text`; nothing more is claimed of it.
#[verifier::external_body]
fn lowercase(s: &str) -> (low: String)
    ensures
        low@ == lowercase_text(s@),
{
    s.to_lowercase()
}

/// A whole number written in digits, if it is at most `max`.
pub open spec fn whole_of(value: Seq<char>, max: int) -> Option<int> {
    match natural_of(encode_utf8(value)) {
        Some(v) => if v <= max {
            Some(v)
        } else {
            None
        },
        None => None,
    }
}

/// A decimal number in units of `10^-d`, brought within `lo..=hi`; `None`
/// for what is not a decimal number or does not fit 64 bits.
pub open spec fn scaled_of(value: Seq<char>, d: nat, lo: int, hi: int) -> Option<int> {
    match signed_decimal_of(encode_utf8(value), d) {
        Some(v) => if v < i64::MIN || v > i64::MAX {
            None
        } else if v < lo {
            Some(lo)
        } else if v > hi {
            Some(hi)
        } else {
            Some(v)
        },
        None => None,
    }
}

fn read_whole(value: &str, max: u64) -> (out: Option<u64>)
    ensures
        out is Some <==> whole_of(value@, max as int) is Some,
        out matches Some(v) ==> whole_of(value@, max as int) == Some(v as int),
{
    let s = value.as_bytes();
    assert(s@.subrange(0, s@.len() as int) =~= s@);
    match parse_natural(s, 0, s.len()) {
        Some(v) => if v <= max {
            Some(v)
        } else {
            None
        },
        None => None,
    }
}

fn read_scaled(value: &str, d: u8, lo: i64, hi: i64) -> (out: Option<i64>)
    requires
        d <= 9,
        lo <= hi,
    ensures
        out is Some <==> scaled_of(value@, d as nat, lo as int, hi as int) is Some,
        out matches Some(v) ==> scaled_of(value@, d as nat, lo as int, hi as int) == Some(
            v as int,
        ) && lo <= v <= hi,
{
    let s = value.as_bytes();
    assert(s@.subrange(0, s@.len() as int) =~= s@);
    match parse_signed_decimal(s, 0, s.len(), d) {
        Some(v) => if v < lo {
            Some(lo)
        } else if v > hi {
            Some(hi)
        } else {
            Some(v)
        },
        None => None,
    }
}

/// Whether two texts are the same.
fn text_is(s: &str, word: &str) -> (same: bool)
    ensures
        same == (s@ == word@),
{
    broadcast use vstd::utf8::encode_utf8_decode_utf8;

    let a = s.as_bytes();
    let b = word.as_bytes();
    let same = range_is(a, (0, a.len()), b);
    proof {
        assert(a@.subrange(0, a@.len() as int) =~= a@);
        if same {
            assert(vstd::utf8::decode_utf8(encode_utf8(s@)) == s@);
            assert(vstd::utf8::decode_utf8(encode_utf8(word@)) == word@);
        }
    }
    same
}

fn find_option(flag: &str) -> (opt: Option<Opt>)
    ensures
        opt == opt_of(flag@),
{
    if text_is(flag, "--mode") {
        Some(Opt::Mode)
    } else if text_is(flag, "--log-path") {
        Some(Opt::LogPath)
    } else if text_is(flag, "--log-level") {
        Some(Opt::LogLevel)
    } else if text_is(flag, "--scansong-path") {
        Some(Opt::ScansongPath)
    } else if text_is(flag, "-tm") || text_is(flag, "--tick-ms") {
        Some(Opt::TickMs)
    } else if text_is(flag, "-af") || text_is(flag, "--agg-frac") {
        Some(Opt::AggFrac)
    } else if text_is(flag, "-ws") || text_is(flag, "--window-sec") {
        Some(Opt::WindowSec)
    } else if text_is(flag, "--min-dwell-ms") {
        Some(Opt::MinDwellMs)
    } else if text_is(flag, "--exit-frac") {
        Some(Opt::ExitFrac)
    } else if text_is(flag, "--enter-frac") {
        Some(Opt::EnterFrac)
    } else if text_is(flag, "--front-min-m") {
        Some(Opt::FrontMinM)
    } else if text_is(flag, "--front-max-m") {
        Some(Opt::FrontMaxM)
    } else if text_is(flag, "--strength-thr") {
        Some(Opt::StrengthThr)
    } else if text_is(flag, "--dist-max-m") {
        Some(Opt::DistMaxM)
    } else if text_is(flag, "--min-ref-rms") {
        Some(Opt::MinRefRms)
    } else if text_is(flag, "--min-rms") {
        Some(Opt::MinRms)
    } else if text_is(flag, "--frame-ms") {
        Some(Opt::FrameMs)
    } else if text_is(flag, "--scan-window-s") {
        Some(Opt::ScanWindowS)
    } else if text_is(flag, "--stride-ms") {
        Some(Opt::StrideMs)
    } else if text_is(flag, "--hf-split-hz") {
        Some(Opt::HfSplitHz)
    } else if text_is(flag, "--top-n") {
        Some(Opt::TopN)
    } else if text_is(flag, "--min-percentile") {
        Some(Opt::MinPercentile)
    } else if text_is(flag, "--nms-radius-s") {
        Some(Opt::NmsRadiusS)
    } else if text_is(flag, "--merge-gap-s") {
        Some(Opt::MergeGapS)
    } else if text_is(flag, "--clamp-min-s") {
        Some(Opt::ClampMinS)
    } else if text_is(flag, "--clamp-max-s") {
        Some(Opt::ClampMaxS)
    } else if text_is(flag, "--sample-rate") || text_is(flag, "--sr") {
        Some(Opt::SampleRate)
    } else if text_is(flag, "--scan-url") {
        Some(Opt::ScanUrl)
    } else if text_is(flag, "--input") {
        Some(Opt::Input)
    } else if text_is(flag, "--fp-win-s") {
        Some(Opt::FpWinS)
    } else if text_is(flag, "--fp-thr") {
        Some(Opt::FpThr)
    } else if text_is(flag, "--fp-margin") {
        Some(Opt::FpMargin)
    } else if text_is(flag, "--guard-s") {
        Some(Opt::GuardS)
    } else if text_is(flag, "--fp-arm-dbfs") {
        Some(Opt::FpArmDbfs)
    } else if text_is(flag, "--offline-sr") {
        Some(Opt::OfflineSr)
    } else if text_is(flag, "--song-path") {
        Some(Opt::SongPath)
    } else if text_is(flag, "--interval-length") {
        Some(Opt::IntervalLength)
    } else if text_is(flag, "--ping-length") {
        Some(Opt::PingLength)
    } else if text_is(flag, "--ffmpeg-path") {
        Some(Opt::FfmpegPath)
    } else if text_is(flag, "--impulse-listen-ms") {
        Some(Opt::ImpulseListenMs)
    } else if text_is(flag, "--impulse-length-ms") {
        Some(Opt::ImpulseLengthMs)
    } else if text_is(flag, "--impulse-amplitude") {
        Some(Opt::ImpulseAmplitude)
    } else {
        None
    }
}

fn message_for_missing(opt: Opt) -> (text: String)
    ensures
        text@ == missing_message(opt),
{
    match opt {
        Opt::Mode => String::from_str("Missing value for --mode"),
        Opt::LogPath => String::from_str("Missing value for --log-path"),
        Opt::LogLevel => String::from_str("Missing value for --log-level"),
        Opt::ScansongPath => String::from_str("Missing value for --scansong-path"),
        Opt::TickMs => String::from_str("Missing value for tick-ms"),
        Opt::AggFrac => String::from_str("Missing value for agg-frac"),
        Opt::WindowSec => String::from_str("Missing value for window-sec"),
        Opt::MinDwellMs => String::from_str("Missing value for --min-dwell-ms"),
        Opt::ExitFrac => String::from_str("Missing value for --exit-frac"),
        Opt::EnterFrac => String::from_str("Missing value for --enter-frac"),
        Opt::FrontMinM => String::from_str("Missing value for --front-min-m"),
        Opt::FrontMaxM => String::from_str("Missing value for --front-max-m"),
        Opt::StrengthThr => String::from_str("Missing value for --strength-thr"),
        Opt::DistMaxM => String::from_str("Missing value for --dist-max-m"),
        Opt::MinRefRms => String::from_str("Missing value for --min-ref-rms"),
        Opt::MinRms => String::from_str("Missing value for --min-rms"),
        Opt::FrameMs => String::from_str("Missing value for frame-ms"),
        Opt::ScanWindowS => String::from_str("Missing value for scan-window-s"),
        Opt::StrideMs => String::from_str("Missing value for stride-ms"),
        Opt::HfSplitHz => String::from_str("Missing value for hf-split-hz"),
        Opt::TopN => String::from_str("Missing value for top-n"),
        Opt::MinPercentile => String::from_str("Missing value for min-percentile"),
        Opt::NmsRadiusS => String::from_str("Missing value for nms-radius-s"),
        Opt::MergeGapS => String::from_str("Missing value for merge-gap-s"),
        Opt::ClampMinS => String::from_str("Missing value for clamp-min-s"),
        Opt::ClampMaxS => String::from_str("Missing value for clamp-max-s"),
        Opt::SampleRate => String::from_str("Missing value for --sample-rate/--sr"),
        Opt::ScanUrl => String::from_str("Missing value for scan-url"),
        Opt::Input => String::from_str("Missing value for --input"),
        Opt::FpWinS => String::from_str("Missing value for fp-win-s"),
        Opt::FpThr => String::from_str("Missing value for fp-thr"),
        Opt::FpMargin => String::from_str("Missing value for fp-margin"),
        Opt::GuardS => String::from_str("Missing value for guard-s"),
        Opt::FpArmDbfs => String::from_str("Missing value for fp-arm-dbfs"),
        Opt::OfflineSr => String::from_str("Missing value for --offline-sr"),
        Opt::SongPath => String::from_str("Missing value for --song-path"),
        Opt::IntervalLength => String::from_str("Missing value for --interval-length"),
        Opt::PingLength => String::from_str("Missing value for --ping-length"),
        Opt::FfmpegPath => String::from_str("Missing value for --ffmpeg-path"),
        Opt::ImpulseListenMs => String::from_str("Missing value for --impulse-listen-ms"),
        Opt::ImpulseLengthMs => String::from_str("Missing value for --impulse-length-ms"),
        Opt::ImpulseAmplitude => String::from_str("Missing value for --impulse-amplitude"),
    }
}

/// The mode that a word, already in lower case, names.
pub fn find_mode(word: &str) -> (mode: Option<Mode>)
    ensures
        mode == mode_of(word@),
{
    if text_is(word, "presence") {
        Some(Mode::Presence)
    } else if text_is(word, "scan") {
        Some(Mode::Scan)
    } else if text_is(word, "offline") {
        Some(Mode::Offline)
    } else if text_is(word, "gated") {
        Some(Mode::Gated)
    } else if text_is(word, "presence-gated") {
        Some(Mode::Gated)
    } else if text_is(word, "enrich") {
        Some(Mode::Enrich)
    } else if text_is(word, "impulse") {
        Some(Mode::Impulse)
    } else {
        None
    }
}

/// The log level that a word, already in lower case, names.
pub fn find_level(word: &str) -> (level: Option<LogLevel>)
    ensures
        level == level_of(word@),
{
    if text_is(word, "debug") {
        Some(LogLevel::Debug)
    } else if text_is(word, "info") {
        Some(LogLevel::Info)
    } else if text_is(word, "warning") {
        Some(LogLevel::Warning)
    } else if text_is(word, "warn") {
        Some(LogLevel::Warning)
    } else if text_is(word, "error") {
        Some(LogLevel::Error)
    } else {
        None
    }
}

/// The configuration and tags after one option was given `value`, or what
/// is said of a value that is not taken. Numbers are written in decimal
/// notation; fractions are kept within one whole, lengths and durations at
/// zero or above.
pub open spec fn applied(c: ConfigModel, m: MetaModel, opt: Opt, value: Seq<char>) -> Result<
    (ConfigModel, MetaModel),
    Seq<char>,
> {
    match opt {
        Opt::Mode => match mode_of(lowercase_text(value)) {
            Some(mode) => Ok((ConfigModel { mode, ..c }, m)),
            None => Err("Unknown mode: "@ + lowercase_text(value)),
        },
        Opt::LogPath => Ok((ConfigModel { log_path: value, ..c }, m)),
        Opt::LogLevel => match level_of(lowercase_text(value)) {
            Some(log_level) => Ok((ConfigModel { log_level, ..c }, m)),
            None => Err(
                "Invalid log level: "@ + lowercase_text(value)
                    + ". Valid options: debug, info, warning, error"@,
            ),
        },
        Opt::ScansongPath => Ok((ConfigModel { scansong_path: value, ..c }, m)),
        Opt::TickMs => match whole_of(value, u64::MAX as int) {
            Some(v) => Ok((ConfigModel { tick_ms: (if v < 1 { 1 } else { v }) as u64, ..c }, m)),
            None => Err("Invalid tick-ms value"@),
        },
        Opt::AggFrac => match scaled_of(value, 6, 0, 1_000_000) {
            Some(v) => Ok((ConfigModel { agg_frac: v as u32, ..c }, m)),
            None => Err("Invalid agg-frac value"@),
        },
        Opt::WindowSec => match whole_of(value, u32::MAX as int) {
            Some(v) => Ok((ConfigModel { window_sec: (if v < 1 { 1 } else { v }) as u32, ..c }, m)),
            None => Err("Invalid window-sec value"@),
        },
        Opt::MinDwellMs => match whole_of(value, u64::MAX as int) {
            Some(v) => Ok((ConfigModel { min_dwell_ms: v as u64, ..c }, m)),
            None => Err("Invalid min-dwell-ms value"@),
        },
        Opt::ExitFrac => match scaled_of(value, 6, 0, 1_000_000) {
            Some(v) => Ok((ConfigModel { exit_frac: v as u32, ..c }, m)),
            None => Err("Invalid exit-frac value"@),
        },
        Opt::EnterFrac => match scaled_of(value, 6, 0, 1_000_000) {
            Some(v) => Ok((ConfigModel { enter_frac: v as u32, ..c }, m)),
            None => Err("Invalid enter-frac value"@),
        },
        Opt::FrontMinM => match scaled_of(value, 3, 0, u32::MAX as int) {
            Some(v) => Ok((ConfigModel { front_min_mm: v as u32, ..c }, m)),
            None => Err("Invalid front-min-m value"@),
        },
        Opt::FrontMaxM => match scaled_of(value, 3, 0, u32::MAX as int) {
            Some(v) => Ok((ConfigModel { front_max_mm: v as u32, ..c }, m)),
            None => Err("Invalid front-max-m value"@),
        },
        Opt::StrengthThr => match scaled_of(value, 6, 0, 1_000_000) {
            Some(v) => Ok((ConfigModel { strength_thr: v as u32, ..c }, m)),
            None => Err("Invalid strength-thr value"@),
        },
        Opt::DistMaxM => match scaled_of(value, 3, 0, u32::MAX as int) {
            Some(v) => Ok((ConfigModel { dist_max_mm: v as u32, ..c }, m)),
            None => Err("Invalid dist-max-m value"@),
        },
        Opt::MinRefRms => match scaled_of(value, 6, 0, u32::MAX as int) {
            Some(v) => Ok((ConfigModel { min_ref_rms: v as u32, ..c }, m)),
            None => Err("Invalid min-ref-rms value"@),
        },
        Opt::MinRms => match scaled_of(value, 6, 0, u32::MAX as int) {
            Some(v) => Ok((ConfigModel { min_rms: v as u32, ..c }, m)),
            None => Err("Invalid min-rms value"@),
        },
        Opt::FrameMs => match scaled_of(value, 0, 0, u32::MAX as int) {
            Some(v) => Ok((ConfigModel { frame_ms: v as u32, ..c }, m)),
            None => Err("Invalid frame-ms"@),
        },
        Opt::ScanWindowS => match scaled_of(value, 3, 0, u32::MAX as int) {
            Some(v) => Ok((ConfigModel { scan_window_ms: v as u32, ..c }, m)),
            None => Err("Invalid scan-window-s"@),
        },
        Opt::StrideMs => match scaled_of(value, 0, 0, u32::MAX as int) {
            Some(v) => Ok((ConfigModel { stride_ms: v as u32, ..c }, m)),
            None => Err("Invalid stride-ms"@),
        },
        Opt::HfSplitHz => match scaled_of(value, 0, 0, u32::MAX as int) {
            Some(v) => Ok((ConfigModel { hf_split_hz: v as u32, ..c }, m)),
            None => Err("Invalid hf-split-hz"@),
        },
        Opt::TopN => match whole_of(value, usize::MAX as int) {
            Some(v) => Ok((ConfigModel { top_n: v as usize, ..c }, m)),
            None => Err("Invalid top-n"@),
        },
        Opt::MinPercentile => match scaled_of(value, 4, 0, u32::MAX as int) {
            Some(v) => Ok((ConfigModel { min_percentile: v as u32, ..c }, m)),
            None => Err("Invalid min-percentile"@),
        },
        Opt::NmsRadiusS => match scaled_of(value, 3, 0, u32::MAX as int) {
            Some(v) => Ok((ConfigModel { nms_radius_ms: v as u32, ..c }, m)),
            None => Err("Invalid nms-radius-s"@),
        },
        Opt::MergeGapS => match scaled_of(value, 3, 0, u32::MAX as int) {
            Some(v) => Ok((ConfigModel { merge_gap_ms: v as u32, ..c }, m)),
            None => Err("Invalid merge-gap-s"@),
        },
        Opt::ClampMinS => match scaled_of(value, 3, 0, u32::MAX as int) {
            Some(v) => Ok((ConfigModel { clamp_min_ms: v as u32, ..c }, m)),
            None => Err("Invalid clamp-min-s"@),
        },
        Opt::ClampMaxS => match scaled_of(value, 3, 0, u32::MAX as int) {
            Some(v) => Ok((ConfigModel { clamp_max_ms: v as u32, ..c }, m)),
            None => Err("Invalid clamp-max-s"@),
        },
        Opt::SampleRate => match whole_of(value, u32::MAX as int) {
            Some(v) => if v == 0 {
                Err("sample rate must be > 0"@)
            } else {
                Ok((ConfigModel { scan_sample_rate_hz: v as u32, ..c }, m))
            },
            None => Err("Invalid sample rate"@),
        },
        Opt::ScanUrl => Ok((c, MetaModel { url: value, ..m })),
        Opt::Input => Ok((c, MetaModel { input_path: value, ..m })),
        Opt::FpWinS => match scaled_of(value, 3, 0, u32::MAX as int) {
            Some(v) => Ok((ConfigModel { fp_win_ms: v as u32, ..c }, m)),
            None => Err("Invalid fp-win-s"@),
        },
        Opt::FpThr => match scaled_of(value, 6, 0, u32::MAX as int) {
            Some(v) => Ok((ConfigModel { fp_thr: v as u32, ..c }, m)),
            None => Err("Invalid fp-thr"@),
        },
        Opt::FpMargin => match scaled_of(value, 6, 0, u32::MAX as int) {
            Some(v) => Ok((ConfigModel { fp_margin: v as u32, ..c }, m)),
            None => Err("Invalid fp-margin"@),
        },
        Opt::GuardS => match scaled_of(value, 3, 0, u32::MAX as int) {
            Some(v) => Ok((ConfigModel { guard_ms: v as u32, ..c }, m)),
            None => Err("Invalid guard-s"@),
        },
        Opt::FpArmDbfs => match scaled_of(value, 3, i32::MIN as int, i32::MAX as int) {
            Some(v) => Ok((ConfigModel { fp_arm_dbfs: v as i32, ..c }, m)),
            None => Err("Invalid fp-arm-dbfs"@),
        },
        Opt::OfflineSr => match whole_of(value, u32::MAX as int) {
            Some(v) => Ok((ConfigModel { offline_sample_rate_hz: v as u32, ..c }, m)),
            None => Err("Invalid offline-sr"@),
        },
        Opt::SongPath => Ok((ConfigModel { enrich_song_path: value, ..c }, m)),
        Opt::IntervalLength => match scaled_of(value, 3, 0, u32::MAX as int) {
            Some(v) => Ok((ConfigModel { enrich_interval_length_ms: v as u32, ..c }, m)),
            None => Err("Invalid interval-length value"@),
        },
        Opt::PingLength => match scaled_of(value, 3, 0, u32::MAX as int) {
            Some(v) => Ok((ConfigModel { enrich_ping_length_ms: v as u32, ..c }, m)),
            None => Err("Invalid ping-length value"@),
        },
        Opt::FfmpegPath => Ok((ConfigModel { ffmpeg_path: value, ..c }, m)),
        Opt::ImpulseListenMs => match whole_of(value, u64::MAX as int) {
            Some(v) => Ok((ConfigModel { impulse_listen_ms: v as u64, ..c }, m)),
            None => Err("Invalid impulse-listen-ms value"@),
        },
        Opt::ImpulseLengthMs => match scaled_of(value, 3, 0, u32::MAX as int) {
            Some(v) => Ok((ConfigModel { impulse_length_us: v as u32, ..c }, m)),
            None => Err("Invalid impulse-length-ms value"@),
        },
        Opt::ImpulseAmplitude => match scaled_of(value, 6, 0, 1_000_000) {
            Some(v) => Ok((ConfigModel { impulse_amplitude: v as u32, ..c }, m)),
            None => Err("Invalid impulse-amplitude value"@),
        },
    }
}

/// Giving `opt` the `value` turned the configuration `c0` and the tags `m0`
/// into `c1` and `m1` and returned `out`: the option is applied, or nothing
/// changes and `out` says why.
pub open spec fn option_taken(
    c0: ConfigModel,
    m0: MetaModel,
    opt: Opt,
    value: Seq<char>,
    c1: ConfigModel,
    m1: MetaModel,
    out: Result<(), String>,
) -> bool {
    match applied(c0, m0, opt, value) {
        Ok((c, m)) => out is Ok && c1 == c && m1 == m,
        Err(text) => c1 == c0 && m1 == m0 && out is Err && out->Err_0@ == text,
    }
}

fn set_mode(cfg: &mut Config, meta: &mut ScanMeta, value: &String) -> (out: Result<(), String>)
    ensures
        option_taken(
            config_model(*old(cfg)),
            meta_model(*old(meta)),
            Opt::Mode,
            value@,
            config_model(*final(cfg)),
            meta_model(*final(meta)),
            out,
        ),
{
    let low = lowercase(value.as_str());
    match find_mode(low.as_str()) {
        Some(mode) => {
            cfg.mode = mode;
            Ok(())
        },
        None => Err(String::from_str("Unknown mode: ").concat(low.as_str())),
    }
}

fn set_log_path(cfg: &mut Config, meta: &mut ScanMeta, value: &String) -> (out: Result<(), String>)
    ensures
        option_taken(
            config_model(*old(cfg)),
            meta_model(*old(meta)),
            Opt::LogPath,
            value@,
            config_model(*final(cfg)),
            meta_model(*final(meta)),
            out,
        ),
{
    cfg.log_path = value.clone();
    Ok(())
}

fn set_log_level(cfg: &mut Config, meta: &mut ScanMeta, value: &String) -> (out: Result<(), String>)
    ensures
        option_taken(
            config_model(*old(cfg)),
            meta_model(*old(meta)),
            Opt::LogLevel,
            value@,
            config_model(*final(cfg)),
            meta_model(*final(meta)),
            out,
        ),
{
    let low = lowercase(value.as_str());
    match find_level(low.as_str()) {
        Some(level) => {
            cfg.log_level = level;
            Ok(())
        },
        None => Err(
            String::from_str("Invalid log level: ").concat(low.as_str()).concat(
                ". Valid options: debug, info, warning, error",
            ),
        ),
    }
}

fn set_scansong_path(cfg: &mut Config, meta: &mut ScanMeta, value: &String) -> (out: Result<(), String>)
    ensures
        option_taken(
            config_model(*old(cfg)),
            meta_model(*old(meta)),
            Opt::ScansongPath,
            value@,
            config_model(*final(cfg)),
            meta_model(*final(meta)),
            out,
        ),
{
    cfg.scansong_path = value.clone();
    Ok(())
}

fn set_tick_ms(cfg: &mut Config, meta: &mut ScanMeta, value: &String) -> (out: Result<(), String>)
    ensures
        option_taken(
            config_model(*old(cfg)),
            meta_model(*old(meta)),
            Opt::TickMs,
            value@,
            config_model(*final(cfg)),
            meta_model(*final(meta)),
            out,
        ),
{
    match read_whole(value.as_str(), u64::MAX) {
        Some(v) => {
            cfg.tick_ms = if v < 1 { 1 } else { v };
            Ok(())
        },
        None => Err(String::from_str("Invalid tick-ms value")),
    }
}

fn set_agg_frac(cfg: &mut Config, meta: &mut ScanMeta, value: &String) -> (out: Result<(), String>)
    ensures
        option_taken(
            config_model(*old(cfg)),
            meta_model(*old(meta)),
            Opt::AggFrac,
            value@,
            config_model(*final(cfg)),
            meta_model(*final(meta)),
            out,
        ),
{
    match read_scaled(value.as_str(), 6, 0, 1_000_000) {
        Some(v) => {
            cfg.agg_frac = v as u32;
            Ok(())
        },
        None => Err(String::from_str("Invalid agg-frac value")),
    }
}

fn set_window_sec(cfg: &mut Config, meta: &mut ScanMeta, value: &String) -> (out: Result<(), String>)
    ensures
        option_taken(
            config_model(*old(cfg)),
            meta_model(*old(meta)),
            Opt::WindowSec,
            value@,
            config_model(*final(cfg)),
            meta_model(*final(meta)),
            out,
        ),
{
    match read_whole(value.as_str(), u32::MAX as u64) {
        Some(v) => {
            cfg.window_sec = if v < 1 { 1 } else { v as u32 };
            Ok(())
        },
        None => Err(String::from_str("Invalid window-sec value")),
    }
}

fn set_min_dwell_ms(cfg: &mut Config, meta: &mut ScanMeta, value: &String) -> (out: Result<(), String>)
    ensures
        option_taken(
            config_model(*old(cfg)),
            meta_model(*old(meta)),
            Opt::MinDwellMs,
            value@,
            config_model(*final(cfg)),
            meta_model(*final(meta)),
            out,
        ),
{
    match read_whole(value.as_str(), u64::MAX) {
        Some(v) => {
            cfg.min_dwell_ms = v;
            Ok(())
        },
        None => Err(String::from_str("Invalid min-dwell-ms value")),
    }
}

fn set_exit_frac(cfg: &mut Config, meta: &mut ScanMeta, value: &String) -> (out: Result<(), String>)
    ensures
        option_taken(
            config_model(*old(cfg)),
            meta_model(*old(meta)),
            Opt::ExitFrac,
            value@,
            config_model(*final(cfg)),
            meta_model(*final(meta)),
            out,
        ),
{
    match read_scaled(value.as_str(), 6, 0, 1_000_000) {
        Some(v) => {
            cfg.exit_frac = v as u32;
            Ok(())
        },
        None => Err(String::from_str("Invalid exit-frac value")),
    }
}

fn set_enter_frac(cfg: &mut Config, meta: &mut ScanMeta, value: &String) -> (out: Result<(), String>)
    ensures
        option_taken(
            config_model(*old(cfg)),
            meta_model(*old(meta)),
            Opt::EnterFrac,
            value@,
            config_model(*final(cfg)),
            meta_model(*final(meta)),
            out,
        ),
{
    match read_scaled(value.as_str(), 6, 0, 1_000_000) {
        Some(v) => {
            cfg.enter_frac = v as u32;
            Ok(())
        },
        None => Err(String::from_str("Invalid enter-frac value")),
    }
}

fn set_front_min_m(cfg: &mut Config, meta: &mut ScanMeta, value: &String) -> (out: Result<(), String>)
    ensures
        option_taken(
            config_model(*old(cfg)),
            meta_model(*old(meta)),
            Opt::FrontMinM,
            value@,
            config_model(*final(cfg)),
            meta_model(*final(meta)),
            out,
        ),
{
    match read_scaled(value.as_str(), 3, 0, u32::MAX as i64) {
        Some(v) => {
            cfg.front_min_mm = v as u32;
            Ok(())
        },
        None => Err(String::from_str("Invalid front-min-m value")),
    }
}

fn set_front_max_m(cfg: &mut Config, meta: &mut ScanMeta, value: &String) -> (out: Result<(), String>)
    ensures
        option_taken(
            config_model(*old(cfg)),
            meta_model(*old(meta)),
            Opt::FrontMaxM,
            value@,
            config_model(*final(cfg)),
            meta_model(*final(meta)),
            out,
        ),
{
    match read_scaled(value.as_str(), 3, 0, u32::MAX as i64) {
        Some(v) => {
            cfg.front_max_mm = v as u32;
            Ok(())
        },
        None => Err(String::from_str("Invalid front-max-m value")),
    }
}

fn set_strength_thr(cfg: &mut Config, meta: &mut ScanMeta, value: &String) -> (out: Result<(), String>)
    ensures
        option_taken(
            config_model(*old(cfg)),
            meta_model(*old(meta)),
            Opt::StrengthThr,
            value@,
            config_model(*final(cfg)),
            meta_model(*final(meta)),
            out,
        ),
{
    match read_scaled(value.as_str(), 6, 0, 1_000_000) {
        Some(v) => {
            cfg.strength_thr = v as u32;
            Ok(())
        },
        None => Err(String::from_str("Invalid strength-thr value")),
    }
}

fn set_dist_max_m(cfg: &mut Config, meta: &mut ScanMeta, value: &String) -> (out: Result<(), String>)
    ensures
        option_taken(
            config_model(*old(cfg)),
            meta_model(*old(meta)),
            Opt::DistMaxM,
            value@,
            config_model(*final(cfg)),
            meta_model(*final(meta)),
            out,
        ),
{
    match read_scaled(value.as_str(), 3, 0, u32::MAX as i64) {
        Some(v) => {
            cfg.dist_max_mm = v as u32;
            Ok(())
        },
        None => Err(String::from_str("Invalid dist-max-m value")),
    }
}

fn set_min_ref_rms(cfg: &mut Config, meta: &mut ScanMeta, value: &String) -> (out: Result<(), String>)
    ensures
        option_taken(
            config_model(*old(cfg)),
            meta_model(*old(meta)),
            Opt::MinRefRms,
            value@,
            config_model(*final(cfg)),
            meta_model(*final(meta)),
            out,
        ),
{
    match read_scaled(value.as_str(), 6, 0, u32::MAX as i64) {
        Some(v) => {
            cfg.min_ref_rms = v as u32;
            Ok(())
        },
        None => Err(String::from_str("Invalid min-ref-rms value")),
    }
}

fn set_min_rms(cfg: &mut Config, meta: &mut ScanMeta, value: &String) -> (out: Result<(), String>)
    ensures
        option_taken(
            config_model(*old(cfg)),
            meta_model(*old(meta)),
            Opt::MinRms,
            value@,
            config_model(*final(cfg)),
            meta_model(*final(meta)),
            out,
        ),
{
    match read_scaled(value.as_str(), 6, 0, u32::MAX as i64) {
        Some(v) => {
            cfg.min_rms = v as u32;
            Ok(())
        },
        None => Err(String::from_str("Invalid min-rms value")),
    }
}

fn set_frame_ms(cfg: &mut Config, meta: &mut ScanMeta, value: &String) -> (out: Result<(), String>)
    ensures
        option_taken(
            config_model(*old(cfg)),
            meta_model(*old(meta)),
            Opt::FrameMs,
            value@,
            config_model(*final(cfg)),
            meta_model(*final(meta)),
            out,
        ),
{
    match read_scaled(value.as_str(), 0, 0, u32::MAX as i64) {
        Some(v) => {
            cfg.frame_ms = v as u32;
            Ok(())
        },
        None => Err(String::from_str("Invalid frame-ms")),
    }
}

fn set_scan_window_s(cfg: &mut Config, meta: &mut ScanMeta, value: &String) -> (out: Result<(), String>)
    ensures
        option_taken(
            config_model(*old(cfg)),
            meta_model(*old(meta)),
            Opt::ScanWindowS,
            value@,
            config_model(*final(cfg)),
            meta_model(*final(meta)),
            out,
        ),
{
    match read_scaled(value.as_str(), 3, 0, u32::MAX as i64) {
        Some(v) => {
            cfg.scan_window_ms = v as u32;
            Ok(())
        },
        None => Err(String::from_str("Invalid scan-window-s")),
    }
}

fn set_stride_ms(cfg: &mut Config, meta: &mut ScanMeta, value: &String) -> (out: Result<(), String>)
    ensures
        option_taken(
            config_model(*old(cfg)),
            meta_model(*old(meta)),
            Opt::StrideMs,
            value@,
            config_model(*final(cfg)),
            meta_model(*final(meta)),
            out,
        ),
{
    match read_scaled(value.as_str(), 0, 0, u32::MAX as i64) {
        Some(v) => {
            cfg.stride_ms = v as u32;
            Ok(())
        },
        None => Err(String::from_str("Invalid stride-ms")),
    }
}

fn set_hf_split_hz(cfg: &mut Config, meta: &mut ScanMeta, value: &String) -> (out: Result<(), String>)
    ensures
        option_taken(
            config_model(*old(cfg)),
            meta_model(*old(meta)),
            Opt::HfSplitHz,
            value@,
            config_model(*final(cfg)),
            meta_model(*final(meta)),
            out,
        ),
{
    match read_scaled(value.as_str(), 0, 0, u32::MAX as i64) {
        Some(v) => {
            cfg.hf_split_hz = v as u32;
            Ok(())
        },
        None => Err(String::from_str("Invalid hf-split-hz")),
    }
}

fn set_top_n(cfg: &mut Config, meta: &mut ScanMeta, value: &String) -> (out: Result<(), String>)
    ensures
        option_taken(
            config_model(*old(cfg)),
            meta_model(*old(meta)),
            Opt::TopN,
            value@,
            config_model(*final(cfg)),
            meta_model(*final(meta)),
            out,
        ),
{
    match read_whole(value.as_str(), usize::MAX as u64) {
        Some(v) => {
            cfg.top_n = v as usize;
            Ok(())
        },
        None => Err(String::from_str("Invalid top-n")),
    }
}

fn set_min_percentile(cfg: &mut Config, meta: &mut ScanMeta, value: &String) -> (out: Result<(), String>)
    ensures
        option_taken(
            config_model(*old(cfg)),
            meta_model(*old(meta)),
            Opt::MinPercentile,
            value@,
            config_model(*final(cfg)),
            meta_model(*final(meta)),
            out,
        ),
{
    match read_scaled(value.as_str(), 4, 0, u32::MAX as i64) {
        Some(v) => {
            cfg.min_percentile = v as u32;
            Ok(())
        },
        None => Err(String::from_str("Invalid min-percentile")),
    }
}

fn set_nms_radius_s(cfg: &mut Config, meta: &mut ScanMeta, value: &String) -> (out: Result<(), String>)
    ensures
        option_taken(
            config_model(*old(cfg)),
            meta_model(*old(meta)),
            Opt::NmsRadiusS,
            value@,
            config_model(*final(cfg)),
            meta_model(*final(meta)),
            out,
        ),
{
    match read_scaled(value.as_str(), 3, 0, u32::MAX as i64) {
        Some(v) => {
            cfg.nms_radius_ms = v as u32;
            Ok(())
        },
        None => Err(String::from_str("Invalid nms-radius-s")),
    }
}

fn set_merge_gap_s(cfg: &mut Config, meta: &mut ScanMeta, value: &String) -> (out: Result<(), String>)
    ensures
        option_taken(
            config_model(*old(cfg)),
            meta_model(*old(meta)),
            Opt::MergeGapS,
            value@,
            config_model(*final(cfg)),
            meta_model(*final(meta)),
            out,
        ),
{
    match read_scaled(value.as_str(), 3, 0, u32::MAX as i64) {
        Some(v) => {
            cfg.merge_gap_ms = v as u32;
            Ok(())
        },
        None => Err(String::from_str("Invalid merge-gap-s")),
    }
}

fn set_clamp_min_s(cfg: &mut Config, meta: &mut ScanMeta, value: &String) -> (out: Result<(), String>)
    ensures
        option_taken(
            config_model(*old(cfg)),
            meta_model(*old(meta)),
            Opt::ClampMinS,
            value@,
            config_model(*final(cfg)),
            meta_model(*final(meta)),
            out,
        ),
{
    match read_scaled(value.as_str(), 3, 0, u32::MAX as i64) {
        Some(v) => {
            cfg.clamp_min_ms = v as u32;
            Ok(())
        },
        None => Err(String::from_str("Invalid clamp-min-s")),
    }
}

fn set_clamp_max_s(cfg: &mut Config, meta: &mut ScanMeta, value: &String) -> (out: Result<(), String>)
    ensures
        option_taken(
            config_model(*old(cfg)),
            meta_model(*old(meta)),
            Opt::ClampMaxS,
            value@,
            config_model(*final(cfg)),
            meta_model(*final(meta)),
            out,
        ),
{
    match read_scaled(value.as_str(), 3, 0, u32::MAX as i64) {
        Some(v) => {
            cfg.clamp_max_ms = v as u32;
            Ok(())
        },
        None => Err(String::from_str("Invalid clamp-max-s")),
    }
}

fn set_sample_rate(cfg: &mut Config, meta: &mut ScanMeta, value: &String) -> (out: Result<(), String>)
    ensures
        option_taken(
            config_model(*old(cfg)),
            meta_model(*old(meta)),
            Opt::SampleRate,
            value@,
            config_model(*final(cfg)),
            meta_model(*final(meta)),
            out,
        ),
{
    match read_whole(value.as_str(), u32::MAX as u64) {
        Some(v) => if v == 0 {
            Err(String::from_str("sample rate must be > 0"))
        } else {
            cfg.scan_sample_rate_hz = v as u32;
            Ok(())
        },
        None => Err(String::from_str("Invalid sample rate")),
    }
}

fn set_scan_url(cfg: &mut Config, meta: &mut ScanMeta, value: &String) -> (out: Result<(), String>)
    ensures
        option_taken(
            config_model(*old(cfg)),
            meta_model(*old(meta)),
            Opt::ScanUrl,
            value@,
            config_model(*final(cfg)),
            meta_model(*final(meta)),
            out,
        ),
{
    meta.url = value.clone();
    Ok(())
}

fn set_input(cfg: &mut Config, meta: &mut ScanMeta, value: &String) -> (out: Result<(), String>)
    ensures
        option_taken(
            config_model(*old(cfg)),
            meta_model(*old(meta)),
            Opt::Input,
            value@,
            config_model(*final(cfg)),
            meta_model(*final(meta)),
            out,
        ),
{
    meta.input_path = value.clone();
    Ok(())
}

fn set_fp_win_s(cfg: &mut Config, meta: &mut ScanMeta, value: &String) -> (out: Result<(), String>)
    ensures
        option_taken(
            config_model(*old(cfg)),
            meta_model(*old(meta)),
            Opt::FpWinS,
            value@,
            config_model(*final(cfg)),
            meta_model(*final(meta)),
            out,
        ),
{
    match read_scaled(value.as_str(), 3, 0, u32::MAX as i64) {
        Some(v) => {
            cfg.fp_win_ms = v as u32;
            Ok(())
        },
        None => Err(String::from_str("Invalid fp-win-s")),
    }
}

fn set_fp_thr(cfg: &mut Config, meta: &mut ScanMeta, value: &String) -> (out: Result<(), String>)
    ensures
        option_taken(
            config_model(*old(cfg)),
            meta_model(*old(meta)),
            Opt::FpThr,
            value@,
            config_model(*final(cfg)),
            meta_model(*final(meta)),
            out,
        ),
{
    match read_scaled(value.as_str(), 6, 0, u32::MAX as i64) {
        Some(v) => {
            cfg.fp_thr = v as u32;
            Ok(())
        },
        None => Err(String::from_str("Invalid fp-thr")),
    }
}

fn set_fp_margin(cfg: &mut Config, meta: &mut ScanMeta, value: &String) -> (out: Result<(), String>)
    ensures
        option_taken(
            config_model(*old(cfg)),
            meta_model(*old(meta)),
            Opt::FpMargin,
            value@,
            config_model(*final(cfg)),
            meta_model(*final(meta)),
            out,
        ),
{
    match read_scaled(value.as_str(), 6, 0, u32::MAX as i64) {
        Some(v) => {
            cfg.fp_margin = v as u32;
            Ok(())
        },
        None => Err(String::from_str("Invalid fp-margin")),
    }
}

fn set_guard_s(cfg: &mut Config, meta: &mut ScanMeta, value: &String) -> (out: Result<(), String>)
    ensures
        option_taken(
            config_model(*old(cfg)),
            meta_model(*old(meta)),
            Opt::GuardS,
            value@,
            config_model(*final(cfg)),
            meta_model(*final(meta)),
            out,
        ),
{
    match read_scaled(value.as_str(), 3, 0, u32::MAX as i64) {
        Some(v) => {
            cfg.guard_ms = v as u32;
            Ok(())
        },
        None => Err(String::from_str("Invalid guard-s")),
    }
}

fn set_fp_arm_dbfs(cfg: &mut Config, meta: &mut ScanMeta, value: &String) -> (out: Result<(), String>)
    ensures
        option_taken(
            config_model(*old(cfg)),
            meta_model(*old(meta)),
            Opt::FpArmDbfs,
            value@,
            config_model(*final(cfg)),
            meta_model(*final(meta)),
            out,
        ),
{
    match read_scaled(value.as_str(), 3, i32::MIN as i64, i32::MAX as i64) {
        Some(v) => {
            cfg.fp_arm_dbfs = v as i32;
            Ok(())
        },
        None => Err(String::from_str("Invalid fp-arm-dbfs")),
    }
}

fn set_offline_sr(cfg: &mut Config, meta: &mut ScanMeta, value: &String) -> (out: Result<(), String>)
    ensures
        option_taken(
            config_model(*old(cfg)),
            meta_model(*old(meta)),
            Opt::OfflineSr,
            value@,
            config_model(*final(cfg)),
            meta_model(*final(meta)),
            out,
        ),
{
    match read_whole(value.as_str(), u32::MAX as u64) {
        Some(v) => {
            cfg.offline_sample_rate_hz = v as u32;
            Ok(())
        },
        None => Err(String::from_str("Invalid offline-sr")),
    }
}

fn set_song_path(cfg: &mut Config, meta: &mut ScanMeta, value: &String) -> (out: Result<(), String>)
    ensures
        option_taken(
            config_model(*old(cfg)),
            meta_model(*old(meta)),
            Opt::SongPath,
            value@,
            config_model(*final(cfg)),
            meta_model(*final(meta)),
            out,
        ),
{
    cfg.enrich_song_path = value.clone();
    Ok(())
}

fn set_interval_length(cfg: &mut Config, meta: &mut ScanMeta, value: &String) -> (out: Result<(), String>)
    ensures
        option_taken(
            config_model(*old(cfg)),
            meta_model(*old(meta)),
            Opt::IntervalLength,
            value@,
            config_model(*final(cfg)),
            meta_model(*final(meta)),
            out,
        ),
{
    match read_scaled(value.as_str(), 3, 0, u32::MAX as i64) {
        Some(v) => {
            cfg.enrich_interval_length_ms = v as u32;
            Ok(())
        },
        None => Err(String::from_str("Invalid interval-length value")),
    }
}

fn set_ping_length(cfg: &mut Config, meta: &mut ScanMeta, value: &String) -> (out: Result<(), String>)
    ensures
        option_taken(
            config_model(*old(cfg)),
            meta_model(*old(meta)),
            Opt::PingLength,
            value@,
            config_model(*final(cfg)),
            meta_model(*final(meta)),
            out,
        ),
{
    match read_scaled(value.as_str(), 3, 0, u32::MAX as i64) {
        Some(v) => {
            cfg.enrich_ping_length_ms = v as u32;
            Ok(())
        },
        None => Err(String::from_str("Invalid ping-length value")),
    }
}

fn set_ffmpeg_path(cfg: &mut Config, meta: &mut ScanMeta, value: &String) -> (out: Result<(), String>)
    ensures
        option_taken(
            config_model(*old(cfg)),
            meta_model(*old(meta)),
            Opt::FfmpegPath,
            value@,
            config_model(*final(cfg)),
            meta_model(*final(meta)),
            out,
        ),
{
    cfg.ffmpeg_path = value.clone();
    Ok(())
}

fn set_impulse_listen_ms(cfg: &mut Config, meta: &mut ScanMeta, value: &String) -> (out: Result<(), String>)
    ensures
        option_taken(
            config_model(*old(cfg)),
            meta_model(*old(meta)),
            Opt::ImpulseListenMs,
            value@,
            config_model(*final(cfg)),
            meta_model(*final(meta)),
            out,
        ),
{
    match read_whole(value.as_str(), u64::MAX) {
        Some(v) => {
            cfg.impulse_listen_ms = v;
            Ok(())
        },
        None => Err(String::from_str("Invalid impulse-listen-ms value")),
    }
}

fn set_impulse_length_ms(cfg: &mut Config, meta: &mut ScanMeta, value: &String) -> (out: Result<(), String>)
    ensures
        option_taken(
            config_model(*old(cfg)),
            meta_model(*old(meta)),
            Opt::ImpulseLengthMs,
            value@,
            config_model(*final(cfg)),
            meta_model(*final(meta)),
            out,
        ),
{
    match read_scaled(value.as_str(), 3, 0, u32::MAX as i64) {
        Some(v) => {
            cfg.impulse_length_us = v as u32;
            Ok(())
        },
        None => Err(String::from_str("Invalid impulse-length-ms value")),
    }
}

fn set_impulse_amplitude(cfg: &mut Config, meta: &mut ScanMeta, value: &String) -> (out: Result<(), String>)
    ensures
        option_taken(
            config_model(*old(cfg)),
            meta_model(*old(meta)),
            Opt::ImpulseAmplitude,
            value@,
            config_model(*final(cfg)),
            meta_model(*final(meta)),
            out,
        ),
{
    match read_scaled(value.as_str(), 6, 0, 1_000_000) {
        Some(v) => {
            cfg.impulse_amplitude = v as u32;
            Ok(())
        },
        None => Err(String::from_str("Invalid impulse-amplitude value")),
    }
}

/// Gives one option its value; a value that is not taken changes nothing.
pub fn apply_option(cfg: &mut Config, meta: &mut ScanMeta, opt: Opt, value: &String) -> (out: Result<
    (),
    String,
>)
    ensures
        option_taken(
            config_model(*old(cfg)),
            meta_model(*old(meta)),
            opt,
            value@,
            config_model(*final(cfg)),
            meta_model(*final(meta)),
            out,
        ),
{
    match opt {
        Opt::Mode => set_mode(cfg, meta, value),
        Opt::LogPath => set_log_path(cfg, meta, value),
        Opt::LogLevel => set_log_level(cfg, meta, value),
        Opt::ScansongPath => set_scansong_path(cfg, meta, value),
        Opt::TickMs => set_tick_ms(cfg, meta, value),
        Opt::AggFrac => set_agg_frac(cfg, meta, value),
        Opt::WindowSec => set_window_sec(cfg, meta, value),
        Opt::MinDwellMs => set_min_dwell_ms(cfg, meta, value),
        Opt::ExitFrac => set_exit_frac(cfg, meta, value),
        Opt::EnterFrac => set_enter_frac(cfg, meta, value),
        Opt::FrontMinM => set_front_min_m(cfg, meta, value),
        Opt::FrontMaxM => set_front_max_m(cfg, meta, value),
        Opt::StrengthThr => set_strength_thr(cfg, meta, value),
        Opt::DistMaxM => set_dist_max_m(cfg, meta, value),
        Opt::MinRefRms => set_min_ref_rms(cfg, meta, value),
        Opt::MinRms => set_min_rms(cfg, meta, value),
        Opt::FrameMs => set_frame_ms(cfg, meta, value),
        Opt::ScanWindowS => set_scan_window_s(cfg, meta, value),
        Opt::StrideMs => set_stride_ms(cfg, meta, value),
        Opt::HfSplitHz => set_hf_split_hz(cfg, meta, value),
        Opt::TopN => set_top_n(cfg, meta, value),
        Opt::MinPercentile => set_min_percentile(cfg, meta, value),
        Opt::NmsRadiusS => set_nms_radius_s(cfg, meta, value),
        Opt::MergeGapS => set_merge_gap_s(cfg, meta, value),
        Opt::ClampMinS => set_clamp_min_s(cfg, meta, value),
        Opt::ClampMaxS => set_clamp_max_s(cfg, meta, value),
        Opt::SampleRate => set_sample_rate(cfg, meta, value),
        Opt::ScanUrl => set_scan_url(cfg, meta, value),
        Opt::Input => set_input(cfg, meta, value),
        Opt::FpWinS => set_fp_win_s(cfg, meta, value),
        Opt::FpThr => set_fp_thr(cfg, meta, value),
        Opt::FpMargin => set_fp_margin(cfg, meta, value),
        Opt::GuardS => set_guard_s(cfg, meta, value),
        Opt::FpArmDbfs => set_fp_arm_dbfs(cfg, meta, value),
        Opt::OfflineSr => set_offline_sr(cfg, meta, value),
        Opt::SongPath => set_song_path(cfg, meta, value),
        Opt::IntervalLength => set_interval_length(cfg, meta, value),
        Opt::PingLength => set_ping_length(cfg, meta, value),
        Opt::FfmpegPath => set_ffmpeg_path(cfg, meta, value),
        Opt::ImpulseListenMs => set_impulse_listen_ms(cfg, meta, value),
        Opt::ImpulseLengthMs => set_impulse_length_ms(cfg, meta, value),
        Opt::ImpulseAmplitude => set_impulse_amplitude(cfg, meta, value),
    }
}

/// The flag asks for the usage.
pub open spec fn asks_help(flag: Seq<char>) -> bool {
    flag == "-h"@ || flag == "--help"@
}

/// What the arguments from position `i` on make of a configuration: each
/// option takes the argument behind it as its value; the first argument
/// that is not taken ends the reading.
pub open spec fn parsed_from(args: Seq<String>, i: int, c: ConfigModel, m: MetaModel) -> Result<
    (ConfigModel, MetaModel),
    Option<Seq<char>>,
>
    decreases args.len() - i,
{
    if i < 0 || i >= args.len() {
        Ok((c, m))
    } else if asks_help(args[i]@) {
        Err(None)
    } else {
        match opt_of(args[i]@) {
            None => Err(Some("Unknown option: "@ + args[i]@)),
            Some(opt) => if i + 1 >= args.len() {
                Err(Some(missing_message(opt)))
            } else {
                match applied(c, m, opt, args[i + 1]@) {
                    Err(text) => Err(Some(text)),
                    Ok((c2, m2)) => parsed_from(args, i + 2, c2, m2),
                }
            },
        }
    }
}

/// No tags.
pub open spec fn no_tags() -> MetaModel {
    MetaModel { url: Seq::empty(), input_path: Seq::empty() }
}

/// Reading `args` onto the configuration `c0` returned `out`: the
/// configuration and tags that the arguments make, or the reason why they
/// are not taken.
pub open spec fn arguments_read(
    args: Seq<String>,
    c0: ConfigModel,
    out: Result<(Config, ScanMeta), ArgError>,
) -> bool {
    match parsed_from(args, 1, c0, no_tags()) {
        Ok((c, m)) => out is Ok && config_model(out->Ok_0.0) == c && meta_model(out->Ok_0.1) == m,
        Err(None) => out == Err::<(Config, ScanMeta), ArgError>(ArgError::Help),
        Err(Some(text)) => out matches Err(ArgError::Invalid(e)) && e@ == text,
    }
}

/// Reads the arguments of a command line, the program's name first, onto
/// the configuration `defaults` and empty scan tags.
pub fn parse_arguments(args: &Vec<String>, defaults: Config) -> (out: Result<
    (Config, ScanMeta),
    ArgError,
>)
    ensures
        arguments_read(args@, config_model(defaults), out),
{
    let mut cfg = defaults;
    let mut meta = ScanMeta::new();
    let mut i: usize = 1;
    while i < args.len()
        invariant
            1 <= i,
            parsed_from(args@, i as int, config_model(cfg), meta_model(meta)) == parsed_from(
                args@,
                1,
                config_model(defaults),
                no_tags(),
            ),
        decreases args@.len() - i,
    {
        let flag = args[i].as_str();
        if text_is(flag, "-h") || text_is(flag, "--help") {
            return Err(ArgError::Help);
        }
        let opt = match find_option(flag) {
            Some(opt) => opt,
            None => {
                return Err(ArgError::Invalid(String::from_str("Unknown option: ").concat(flag)));
            },
        };
        if i + 1 >= args.len() {
            return Err(ArgError::Invalid(message_for_missing(opt)));
        }
        match apply_option(&mut cfg, &mut meta, opt, &args[i + 1]) {
            Ok(()) => {},
            Err(e) => {
                return Err(ArgError::Invalid(e));
            },
        }
        i += 2;
    }
    Ok((cfg, meta))
}

} // verus!
