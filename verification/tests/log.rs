use web_sanitizer::log::{format_file_line, log_width, route, LogLevel};

#[test]
fn log_routing() {
    let r = route(LogLevel::Error, LogLevel::Info, LogLevel::Trace);
    assert!(r.is_error && r.console && r.file);
    let r = route(LogLevel::Debug, LogLevel::Info, LogLevel::Trace);
    assert!(!r.is_error && !r.console && r.file);
    let r = route(LogLevel::Warn, LogLevel::Warn, LogLevel::Error);
    assert!(!r.is_error && r.console && !r.file);
}

#[test]
fn log_file_line_format() {
    let line = format_file_line(
        "2024-01-02 03:04:05.006",
        3,
        2,
        LogLevel::Info,
        "IDN googl\x1b[91;1m\u{e9}\x1b[0m.com",
    );
    assert_eq!(line, "[2024-01-02 03:04:05.006] ( 3)  INFO: IDN googl\u{e9}.com");
    let line = format_file_line("t", 1234, 2, LogLevel::Error, "x");
    assert_eq!(line, "[t] (1234) ERROR: x");
    let line = format_file_line("t", 0, 0, LogLevel::Trace, "");
    assert_eq!(line, "[t] (0) TRACE: ");
}

#[test]
fn log_width_values() {
    assert_eq!(log_width(0), 0);
    assert_eq!(log_width(1), 0);
    assert_eq!(log_width(9), 1);
    assert_eq!(log_width(10), 1);
    assert_eq!(log_width(11), 2);
    assert_eq!(log_width(100), 2);
    assert_eq!(log_width(101), 3);
}
