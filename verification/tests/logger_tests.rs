use sonar_presence::logger::{format_line, LogLevel, Logger};

#[test]
fn level_tags() {
    assert_eq!(LogLevel::Debug.as_str(), "DEBUG");
    assert_eq!(LogLevel::Info.as_str(), "INFO");
    assert_eq!(LogLevel::Warning.as_str(), "WARN");
    assert_eq!(LogLevel::Error.as_str(), "ERROR");
}

#[test]
fn levels_are_ordered_by_severity() {
    assert!(LogLevel::Debug < LogLevel::Info);
    assert!(LogLevel::Info < LogLevel::Warning);
    assert!(LogLevel::Warning < LogLevel::Error);
    assert_eq!(LogLevel::Debug.rank(), 0);
    assert_eq!(LogLevel::Error.rank(), 3);
}

#[test]
fn line_format() {
    assert_eq!(
        format_line("2024-01-02 03:04:05 UTC", LogLevel::Warning, "low level"),
        "[2024-01-02 03:04:05 UTC] [WARN] low level\n"
    );
}

#[test]
fn log_stamps_lines_in_utc() {
    let logger = Logger::new("Detection.log", true);
    assert_eq!(
        logger.log(LogLevel::Info, "started", 0),
        Some(String::from("[1970-01-01 00:00:00 UTC] [INFO] started\n"))
    );
    assert_eq!(
        logger.error("stopped", 1_431_648_000 + 3661),
        Some(String::from("[2015-05-15 01:01:01 UTC] [ERROR] stopped\n"))
    );
}

#[test]
fn log_without_a_calendar_time_gives_nothing() {
    let logger = Logger::new("Detection.log", true);
    assert_eq!(logger.info("x", i64::MAX), None);
}

#[test]
fn constructors() {
    let a = Logger::new("a.log", false);
    assert_eq!((a.file_path(), a.is_enabled(), a.min_level()), ("a.log", false, LogLevel::Debug));
    let b = Logger::new_production("b.log");
    assert_eq!((b.file_path(), b.is_enabled(), b.min_level()), ("b.log", true, LogLevel::Info));
    let c = Logger::new_development("c.log");
    assert_eq!((c.file_path(), c.is_enabled(), c.min_level()), ("c.log", true, LogLevel::Debug));
    let d = Logger::new_with_level("d.log", true, LogLevel::Error);
    assert_eq!((d.file_path(), d.is_enabled(), d.min_level()), ("d.log", true, LogLevel::Error));
}

#[test]
fn messages_below_the_level_are_dropped() {
    let logger = Logger::new_production("x.log");
    assert!(!logger.should_log(LogLevel::Debug));
    assert!(logger.should_log(LogLevel::Info));
    assert_eq!(logger.debug("quiet", 0), None);
    assert!(logger.info("loud", 0).is_some());
    assert!(logger.warn("loud", 0).is_some());
    assert!(logger.error("loud", 0).is_some());
}

#[test]
fn a_disabled_logger_drops_everything() {
    let mut logger = Logger::new("x.log", true);
    assert!(logger.clear());
    logger.set_enabled(false);
    assert!(!logger.is_enabled());
    assert_eq!(logger.error("lost", 0), None);
    assert!(!logger.clear());
    logger.set_enabled(true);
    logger.set_min_level(LogLevel::Warning);
    assert_eq!(logger.min_level(), LogLevel::Warning);
    assert_eq!(logger.info("lost", 0), None);
    assert!(logger.warn("kept", 0).is_some());
}
