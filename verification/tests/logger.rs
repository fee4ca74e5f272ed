use better_launcher::logger::{format_line, LogLevel, LogStream, Logger};

#[test]
fn levels_have_names_and_colours() {
    assert_eq!(LogLevel::Debug.to_string(), "DEBUG");
    assert_eq!(LogLevel::Warn.to_string(), "WARN");
    assert_eq!(LogLevel::Error.to_string(), "ERROR");
    assert_eq!(LogLevel::Debug.color_code(), "\x1b[34m");
    assert_eq!(LogLevel::Warn.color_code(), "\x1b[33m");
    assert_eq!(LogLevel::Error.color_code(), "\x1b[31m");
}

#[test]
fn levels_are_ordered_by_severity() {
    assert!(LogLevel::Debug < LogLevel::Warn);
    assert!(LogLevel::Warn < LogLevel::Error);
    assert!(LogLevel::Debug.rank() < LogLevel::Warn.rank());
    assert!(LogLevel::Warn.rank() < LogLevel::Error.rank());
}

#[test]
fn a_line_holds_time_level_and_message() {
    assert_eq!(
        format_line("2024-01-02 03:04:05", LogLevel::Warn, "disk is full"),
        "2024-01-02 03:04:05 [\x1b[33mWARN\x1b[0m] disk is full"
    );
    assert_eq!(format_line("", LogLevel::Debug, ""), " [\x1b[34mDEBUG\x1b[0m] ");
}

#[test]
fn messages_below_the_least_severity_are_not_passed() {
    let logger = Logger::new(LogLevel::Warn);
    assert!(logger.debug("quiet").is_none());
    assert!(logger.log(LogLevel::Debug, "quiet").is_none());
    assert!(logger.warn("loud").is_some());
    assert!(logger.error("louder").is_some());
    let strict = Logger::new(LogLevel::Error);
    assert!(strict.warn("quiet").is_none());
    assert!(strict.error("loud").is_some());
}

#[test]
fn errors_go_to_the_standard_error() {
    let logger = Logger::new(LogLevel::Debug);
    assert_eq!(logger.debug("d").unwrap().stream, LogStream::Stdout);
    assert_eq!(logger.warn("w").unwrap().stream, LogStream::Stdout);
    assert_eq!(logger.error("e").unwrap().stream, LogStream::Stderr);
}

#[test]
fn a_record_is_stamped_with_the_local_time() {
    let logger = Logger::new(LogLevel::Debug);
    let r = logger.error("Failed to launch application: no such file").unwrap();
    assert_eq!(
        r.line,
        format_line(&r.time, LogLevel::Error, "Failed to launch application: no such file")
    );
    let t: Vec<char> = r.time.chars().collect();
    assert_eq!(t.len(), 19);
    assert_eq!((t[4], t[7], t[10], t[13], t[16]), ('-', '-', ' ', ':', ':'));
}

#[test]
fn a_record_can_be_made_for_a_given_time() {
    let logger = Logger::new(LogLevel::Warn);
    let r = logger.record("1999-12-31 23:59:59".to_string(), LogLevel::Error, "late").unwrap();
    assert_eq!(r.time, "1999-12-31 23:59:59");
    assert_eq!(r.line, "1999-12-31 23:59:59 [\x1b[31mERROR\x1b[0m] late");
    assert_eq!(r.stream, LogStream::Stderr);
    assert!(logger.record("t".to_string(), LogLevel::Debug, "early").is_none());
}
