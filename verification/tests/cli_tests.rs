use sonar_presence::cli::{
    apply_option, find_level, find_mode, parse_arguments, ArgError, Opt,
};
use sonar_presence::config::{Config, Mode, ScanMeta};
use sonar_presence::logger::LogLevel;

fn defaults() -> Config {
    Config::new(String::from("Detection.log"), String::from("SongScan.csv"))
}

fn parse(args: &[&str]) -> Result<(Config, ScanMeta), ArgError> {
    let mut all = vec![String::from("sonar_presence")];
    all.extend(args.iter().map(|s| s.to_string()));
    parse_arguments(&all, defaults())
}

fn invalid(args: &[&str]) -> String {
    match parse(args) {
        Err(ArgError::Invalid(text)) => text,
        Err(ArgError::Help) => panic!("help"),
        Ok(_) => panic!("taken"),
    }
}

#[test]
fn no_arguments_leave_the_defaults() {
    let (c, m) = parse(&[]).unwrap();
    assert_eq!(c.mode, Mode::Presence);
    assert_eq!(c.tick_ms, 250);
    assert_eq!(c.log_path, "Detection.log");
    assert_eq!(m.url, "");
    assert_eq!(m.input_path, "");
    let (c, _) = parse_arguments(&Vec::new(), defaults()).unwrap();
    assert_eq!(c.tick_ms, 250);
}

#[test]
fn presence_options() {
    let (c, _) = parse(&[
        "--mode", "Gated", "-tm", "200", "-af", "0.60", "-ws", "3", "--min-dwell-ms", "1500",
        "--exit-frac", "0.25", "--enter-frac", ".7", "--front-min-m", "0.4", "--front-max-m",
        "2", "--strength-thr", "0.15", "--dist-max-m", "1.75", "--min-ref-rms", "0.00015",
        "--min-rms", "0.0003",
    ])
    .unwrap();
    assert_eq!(c.mode, Mode::Gated);
    assert_eq!((c.tick_ms, c.agg_frac, c.window_sec, c.min_dwell_ms), (200, 600_000, 3, 1_500));
    assert_eq!((c.exit_frac, c.enter_frac, c.strength_thr), (250_000, 700_000, 150_000));
    assert_eq!((c.front_min_mm, c.front_max_mm, c.dist_max_mm), (400, 2_000, 1_750));
    assert_eq!((c.min_ref_rms, c.min_rms), (150, 300));
}

#[test]
fn long_forms_and_later_values_win() {
    let (c, _) = parse(&["--tick-ms", "100", "--agg-frac", "0.1", "--window-sec", "9", "-tm", "50"])
        .unwrap();
    assert_eq!((c.tick_ms, c.agg_frac, c.window_sec), (50, 100_000, 9));
}

#[test]
fn scan_and_gated_options() {
    let (c, m) = parse(&[
        "--frame-ms", "46", "--scan-window-s", "2.5", "--stride-ms", "100", "--hf-split-hz",
        "3000", "--top-n", "15", "--min-percentile", "90", "--nms-radius-s", "1.5",
        "--merge-gap-s", "2", "--clamp-min-s", "4", "--clamp-max-s", "30", "--sample-rate",
        "44100", "--scan-url", "https://youtu.be/x", "--input", "C:\\music\\t.mp3",
        "--fp-win-s", "4.5", "--fp-thr", "0.7", "--fp-margin", "0.1", "--guard-s", "0.25",
        "--fp-arm-dbfs", "-35.5", "--offline-sr", "48000",
    ])
    .unwrap();
    assert_eq!((c.frame_ms, c.scan_window_ms, c.stride_ms, c.hf_split_hz), (46, 2_500, 100, 3_000));
    assert_eq!((c.top_n, c.min_percentile, c.nms_radius_ms), (15, 900_000, 1_500));
    assert_eq!((c.merge_gap_ms, c.clamp_min_ms, c.clamp_max_ms), (2_000, 4_000, 30_000));
    assert_eq!((c.scan_sample_rate_hz, c.offline_sample_rate_hz), (44_100, 48_000));
    assert_eq!((c.fp_win_ms, c.fp_thr, c.fp_margin, c.guard_ms), (4_500, 700_000, 100_000, 250));
    assert_eq!(c.fp_arm_dbfs, -35_500);
    assert_eq!(m.url, "https://youtu.be/x");
    assert_eq!(m.input_path, "C:\\music\\t.mp3");
    let (c, _) = parse(&["--sr", "22050"]).unwrap();
    assert_eq!(c.scan_sample_rate_hz, 22_050);
}

#[test]
fn paths_and_other_modes() {
    let (c, _) = parse(&[
        "--log-path", "a.log", "--scansong-path", "b.csv", "--song-path", "c.mp3",
        "--ffmpeg-path", "/usr/bin/ffmpeg", "--interval-length", "2", "--ping-length", "0.05",
        "--impulse-listen-ms", "300", "--impulse-length-ms", "12.5", "--impulse-amplitude",
        "0.8", "--log-level", "WARN",
    ])
    .unwrap();
    assert_eq!((c.log_path.as_str(), c.scansong_path.as_str()), ("a.log", "b.csv"));
    assert_eq!((c.enrich_song_path.as_str(), c.ffmpeg_path.as_str()), ("c.mp3", "/usr/bin/ffmpeg"));
    assert_eq!((c.enrich_interval_length_ms, c.enrich_ping_length_ms), (2_000, 50));
    assert_eq!((c.impulse_listen_ms, c.impulse_length_us, c.impulse_amplitude), (300, 12_500, 800_000));
    assert_eq!(c.log_level, LogLevel::Warning);
}

#[test]
fn modes_and_levels_by_name() {
    for (word, mode) in [
        ("presence", Mode::Presence),
        ("scan", Mode::Scan),
        ("OFFLINE", Mode::Offline),
        ("gated", Mode::Gated),
        ("presence-gated", Mode::Gated),
        ("Enrich", Mode::Enrich),
        ("impulse", Mode::Impulse),
    ] {
        assert_eq!(parse(&["--mode", word]).unwrap().0.mode, mode);
    }
    for (word, level) in [
        ("debug", LogLevel::Debug),
        ("Info", LogLevel::Info),
        ("warning", LogLevel::Warning),
        ("warn", LogLevel::Warning),
        ("ERROR", LogLevel::Error),
    ] {
        assert_eq!(parse(&["--log-level", word]).unwrap().0.log_level, level);
    }
    assert_eq!(invalid(&["--mode", "Sonar"]), "Unknown mode: sonar");
    assert_eq!(
        invalid(&["--log-level", "LOUD"]),
        "Invalid log level: loud. Valid options: debug, info, warning, error"
    );
}

#[test]
fn fractions_are_kept_within_one_and_sizes_above_zero() {
    let (c, _) = parse(&[
        "-af", "1.5", "--exit-frac", "-0.2", "--enter-frac", "7", "--strength-thr", "1.000001",
        "--impulse-amplitude", "-1", "-tm", "0", "-ws", "0", "--front-min-m", "-1",
        "--fp-thr", "1.5", "--min-dwell-ms", "0",
    ])
    .unwrap();
    assert_eq!((c.agg_frac, c.exit_frac, c.enter_frac), (1_000_000, 0, 1_000_000));
    assert_eq!((c.strength_thr, c.impulse_amplitude), (1_000_000, 0));
    assert_eq!((c.tick_ms, c.window_sec, c.front_min_mm), (1, 1, 0));
    assert_eq!((c.fp_thr, c.min_dwell_ms), (1_500_000, 0));
}

#[test]
fn help_is_asked_for() {
    assert_eq!(parse(&["-h"]).err(), Some(ArgError::Help));
    assert_eq!(parse(&["--tick-ms", "5", "--help", "--nonsense"]).err(), Some(ArgError::Help));
    // Behind a flag, `-h` is that flag's value.
    assert_eq!(parse(&["--log-path", "-h"]).unwrap().0.log_path, "-h");
}

#[test]
fn unknown_options_are_named() {
    assert_eq!(invalid(&["--volume", "3"]), "Unknown option: --volume");
    assert_eq!(invalid(&["--tick-ms", "5", "extra"]), "Unknown option: extra");
    assert_eq!(invalid(&["--MODE", "scan"]), "Unknown option: --MODE");
}

#[test]
fn missing_values_are_named() {
    let cases = [
        ("--mode", "Missing value for --mode"),
        ("--log-path", "Missing value for --log-path"),
        ("--log-level", "Missing value for --log-level"),
        ("--scansong-path", "Missing value for --scansong-path"),
        ("-tm", "Missing value for tick-ms"),
        ("--tick-ms", "Missing value for tick-ms"),
        ("-af", "Missing value for agg-frac"),
        ("-ws", "Missing value for window-sec"),
        ("--min-dwell-ms", "Missing value for --min-dwell-ms"),
        ("--exit-frac", "Missing value for --exit-frac"),
        ("--enter-frac", "Missing value for --enter-frac"),
        ("--front-min-m", "Missing value for --front-min-m"),
        ("--front-max-m", "Missing value for --front-max-m"),
        ("--strength-thr", "Missing value for --strength-thr"),
        ("--dist-max-m", "Missing value for --dist-max-m"),
        ("--min-ref-rms", "Missing value for --min-ref-rms"),
        ("--min-rms", "Missing value for --min-rms"),
        ("--frame-ms", "Missing value for frame-ms"),
        ("--scan-window-s", "Missing value for scan-window-s"),
        ("--stride-ms", "Missing value for stride-ms"),
        ("--hf-split-hz", "Missing value for hf-split-hz"),
        ("--top-n", "Missing value for top-n"),
        ("--min-percentile", "Missing value for min-percentile"),
        ("--nms-radius-s", "Missing value for nms-radius-s"),
        ("--merge-gap-s", "Missing value for merge-gap-s"),
        ("--clamp-min-s", "Missing value for clamp-min-s"),
        ("--clamp-max-s", "Missing value for clamp-max-s"),
        ("--sample-rate", "Missing value for --sample-rate/--sr"),
        ("--sr", "Missing value for --sample-rate/--sr"),
        ("--scan-url", "Missing value for scan-url"),
        ("--input", "Missing value for --input"),
        ("--fp-win-s", "Missing value for fp-win-s"),
        ("--fp-thr", "Missing value for fp-thr"),
        ("--fp-margin", "Missing value for fp-margin"),
        ("--guard-s", "Missing value for guard-s"),
        ("--fp-arm-dbfs", "Missing value for fp-arm-dbfs"),
        ("--offline-sr", "Missing value for --offline-sr"),
        ("--song-path", "Missing value for --song-path"),
        ("--interval-length", "Missing value for --interval-length"),
        ("--ping-length", "Missing value for --ping-length"),
        ("--ffmpeg-path", "Missing value for --ffmpeg-path"),
        ("--impulse-listen-ms", "Missing value for --impulse-listen-ms"),
        ("--impulse-length-ms", "Missing value for --impulse-length-ms"),
        ("--impulse-amplitude", "Missing value for --impulse-amplitude"),
    ];
    for (flag, text) in cases {
        assert_eq!(invalid(&[flag]), text);
    }
}

#[test]
fn values_that_are_no_numbers_are_named() {
    let cases = [
        ("-tm", "Invalid tick-ms value"),
        ("-af", "Invalid agg-frac value"),
        ("-ws", "Invalid window-sec value"),
        ("--min-dwell-ms", "Invalid min-dwell-ms value"),
        ("--exit-frac", "Invalid exit-frac value"),
        ("--enter-frac", "Invalid enter-frac value"),
        ("--front-min-m", "Invalid front-min-m value"),
        ("--front-max-m", "Invalid front-max-m value"),
        ("--strength-thr", "Invalid strength-thr value"),
        ("--dist-max-m", "Invalid dist-max-m value"),
        ("--min-ref-rms", "Invalid min-ref-rms value"),
        ("--min-rms", "Invalid min-rms value"),
        ("--frame-ms", "Invalid frame-ms"),
        ("--scan-window-s", "Invalid scan-window-s"),
        ("--stride-ms", "Invalid stride-ms"),
        ("--hf-split-hz", "Invalid hf-split-hz"),
        ("--top-n", "Invalid top-n"),
        ("--min-percentile", "Invalid min-percentile"),
        ("--nms-radius-s", "Invalid nms-radius-s"),
        ("--merge-gap-s", "Invalid merge-gap-s"),
        ("--clamp-min-s", "Invalid clamp-min-s"),
        ("--clamp-max-s", "Invalid clamp-max-s"),
        ("--sample-rate", "Invalid sample rate"),
        ("--fp-win-s", "Invalid fp-win-s"),
        ("--fp-thr", "Invalid fp-thr"),
        ("--fp-margin", "Invalid fp-margin"),
        ("--guard-s", "Invalid guard-s"),
        ("--fp-arm-dbfs", "Invalid fp-arm-dbfs"),
        ("--offline-sr", "Invalid offline-sr"),
        ("--interval-length", "Invalid interval-length value"),
        ("--ping-length", "Invalid ping-length value"),
        ("--impulse-listen-ms", "Invalid impulse-listen-ms value"),
        ("--impulse-length-ms", "Invalid impulse-length-ms value"),
        ("--impulse-amplitude", "Invalid impulse-amplitude value"),
    ];
    for (flag, text) in cases {
        assert_eq!(invalid(&[flag, "seven"]), text);
        assert_eq!(invalid(&[flag, ""]), text);
    }
    assert_eq!(invalid(&["-tm", "2.5"]), "Invalid tick-ms value");
    assert_eq!(invalid(&["-tm", "-2"]), "Invalid tick-ms value");
    assert_eq!(invalid(&["-ws", "4294967296"]), "Invalid window-sec value");
    assert_eq!(invalid(&["--sample-rate", "0"]), "sample rate must be > 0");
    assert_eq!(parse(&["--offline-sr", "0"]).unwrap().0.offline_sample_rate_hz, 0);
}

#[test]
fn the_first_argument_not_taken_ends_the_reading() {
    assert_eq!(invalid(&["-tm", "x", "--volume"]), "Invalid tick-ms value");
    assert_eq!(invalid(&["--volume", "-tm", "x"]), "Unknown option: --volume");
}

#[test]
fn apply_option_changes_one_setting() {
    let mut c = defaults();
    let mut m = ScanMeta::new();
    assert_eq!(apply_option(&mut c, &mut m, Opt::GuardS, &String::from("1.25")), Ok(()));
    assert_eq!(c.guard_ms, 1_250);
    assert_eq!(
        apply_option(&mut c, &mut m, Opt::GuardS, &String::from("x")),
        Err(String::from("Invalid guard-s"))
    );
    assert_eq!(c.guard_ms, 1_250);
    assert_eq!(apply_option(&mut c, &mut m, Opt::ScanUrl, &String::from("u")), Ok(()));
    assert_eq!(m.url, "u");
    assert_eq!(c.tick_ms, 250);
}

#[test]
fn words_name_modes_and_levels() {
    assert_eq!(find_mode("presence"), Some(Mode::Presence));
    assert_eq!(find_mode("scan"), Some(Mode::Scan));
    assert_eq!(find_mode("offline"), Some(Mode::Offline));
    assert_eq!(find_mode("gated"), Some(Mode::Gated));
    assert_eq!(find_mode("presence-gated"), Some(Mode::Gated));
    assert_eq!(find_mode("enrich"), Some(Mode::Enrich));
    assert_eq!(find_mode("impulse"), Some(Mode::Impulse));
    assert_eq!(find_mode("Gated"), None);
    assert_eq!(find_mode(""), None);
    assert_eq!(find_level("debug"), Some(LogLevel::Debug));
    assert_eq!(find_level("info"), Some(LogLevel::Info));
    assert_eq!(find_level("warning"), Some(LogLevel::Warning));
    assert_eq!(find_level("warn"), Some(LogLevel::Warning));
    assert_eq!(find_level("error"), Some(LogLevel::Error));
    assert_eq!(find_level("WARN"), None);
    assert_eq!(find_level("loud"), None);
}
