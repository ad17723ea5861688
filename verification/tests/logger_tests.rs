use fastup::logger::{console_line, log_file_line, LogLevel};
use fastup::utils::strip_ansi_codes;

#[test]
fn level_names() {
    assert_eq!(LogLevel::Info.as_str(), "INFO");
    assert_eq!(LogLevel::Success.as_str(), "SUCCESS");
    assert_eq!(LogLevel::Warn.as_str(), "WARN");
    assert_eq!(LogLevel::Error.as_str(), "ERROR");
    assert_eq!(LogLevel::Warn.tag(), "[WARN]");
}

#[test]
fn log_line_is_plain() {
    let line = log_file_line("12:30:05", &LogLevel::Error, "Element not found: \x1b[31m\x1b[1mapi\x1b[0m");
    assert_eq!(line, "[12:30:05] FastUp ERROR: Element not found: api");
}

#[test]
fn prefix_shows_the_tag() {
    for (level, tag) in [
        (LogLevel::Info, "[INFO]"),
        (LogLevel::Success, "[SUCCESS]"),
        (LogLevel::Warn, "[WARN]"),
        (LogLevel::Error, "[ERROR]"),
    ] {
        let p = level.prefix();
        assert!(p == tag || p.starts_with("\x1b[1;3"));
        assert_eq!(strip_ansi_codes(&p), tag);
    }
}

#[test]
fn console_line_without_colours_matches_message() {
    let line = console_line("08:00:00", &LogLevel::Info, "Starting element \x1b[32mapi\x1b[0m...");
    assert!(line.contains("Starting element"));
    assert_eq!(strip_ansi_codes(&line), "[08:00:00] FastUp [INFO]: Starting element api...");
}

#[test]
fn prefix_follows_the_colour_override() {
    colored::control::set_override(true);
    assert_eq!(LogLevel::Info.prefix(), "\x1b[1;34m[INFO]\x1b[0m");
    assert_eq!(LogLevel::Success.prefix(), "\x1b[1;32m[SUCCESS]\x1b[0m");
    assert_eq!(LogLevel::Warn.prefix(), "\x1b[1;33m[WARN]\x1b[0m");
    assert_eq!(LogLevel::Error.prefix(), "\x1b[1;31m[ERROR]\x1b[0m");
    let line = console_line("01:02:03", &LogLevel::Warn, "careful");
    assert_eq!(line, "[01:02:03] FastUp \x1b[1;33m[WARN]\x1b[0m: careful");
    assert_eq!(strip_ansi_codes(&line), "[01:02:03] FastUp [WARN]: careful");
    colored::control::set_override(false);
    assert_eq!(LogLevel::Error.prefix(), "[ERROR]");
    colored::control::unset_override();
}

#[test]
fn log_lines_share_the_time() {
    let (console, file) =
        fastup::logger::log_lines("23:59:60", &LogLevel::Success, "done \x1b[32mok\x1b[0m");
    assert_eq!(file, "[23:59:60] FastUp SUCCESS: done ok");
    assert_eq!(strip_ansi_codes(&console), "[23:59:60] FastUp [SUCCESS]: done ok");
}
