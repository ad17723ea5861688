use fastup::utils::{
    config_dir, config_file, data_dir, home_or_current, log_file, logs_dir, state_file,
    status_line, strip_ansi_codes,
};

/// Test that validates strip_ansi_codes function
#[test]
fn test_strip_ansi_codes() {
    let input = "Hello \x1b[31mRed\x1b[0m World";
    let output = strip_ansi_codes(input);

    assert_eq!(output, "Hello Red World");
}

#[test]
fn strip_keeps_plain_text() {
    assert_eq!(strip_ansi_codes("plain text: 1;2 [ok]"), "plain text: 1;2 [ok]");
    assert_eq!(strip_ansi_codes(""), "");
}

#[test]
fn strip_removes_compound_styles() {
    let coloured = "\x1b[1;37;42mONLINE\x1b[0m | \x1b[34mapi\x1b[0m";
    assert_eq!(strip_ansi_codes(coloured), "ONLINE | api");
}

#[test]
fn strip_drops_lone_escape_and_unfinished_sequence() {
    assert_eq!(strip_ansi_codes("a\x1bb"), "ab");
    assert_eq!(strip_ansi_codes("tail\x1b[31"), "tail");
    assert_eq!(strip_ansi_codes("end\x1b"), "end");
}

#[test]
fn strip_is_idempotent_on_example() {
    let once = strip_ansi_codes("\x1b[1m[INFO]\x1b[0m x \x1b\x1b[2Jy");
    assert_eq!(once, "[INFO] x y");
    assert_eq!(strip_ansi_codes(&once), once);
}

#[test]
fn path_helpers_follow_home() {
    let home = "/home/u1";
    assert_eq!(config_dir(home), "/home/u1/.config/fastup");
    assert_eq!(config_file(home), "/home/u1/.config/fastup/fastup.yaml");
    assert_eq!(data_dir(home), "/home/u1/.local/share/fastup");
    assert_eq!(logs_dir(home), "/home/u1/.local/share/fastup/logs");
    assert_eq!(log_file(home), "/home/u1/.local/share/fastup/logs/fastup.txt");
    assert_eq!(state_file(home), "/home/u1/.local/share/fastup/state.json");
}

#[test]
fn home_defaults_to_current_directory() {
    assert_eq!(home_or_current(None), ".");
    assert_eq!(home_or_current(Some("/root".to_string())), "/root");
    assert_eq!(config_file(&home_or_current(None)), "./.config/fastup/fastup.yaml");
}

#[test]
fn status_line_layout() {
    let online = status_line("postgresql", 5432, true);
    assert_eq!(strip_ansi_codes(&online), "postgresql           | Port: 5432 | ONLINE");
    let offline = status_line("a-very-long-element-name", 8, false);
    assert_eq!(strip_ansi_codes(&offline), "a-very-long-element-name | Port: 8    | OFFLINE");
}

#[test]
fn status_line_in_colour_when_forced() {
    colored::control::set_override(true);
    let line = status_line("db", 5432, true);
    assert_eq!(
        line,
        "\x1b[34mdb                  \x1b[0m | Port: 5432 | \x1b[1;42;37mONLINE\x1b[0m"
    );
    let off = status_line("db", 5432, false);
    assert!(off.ends_with("\x1b[1;41;37mOFFLINE\x1b[0m"));
    assert_eq!(strip_ansi_codes(&off), "db                   | Port: 5432 | OFFLINE");
    // A reset inside the name is followed by the name's style again.
    let renewed = status_line("a\x1b[0mb", 1, true);
    assert!(renewed.starts_with("\x1b[34ma\x1b[0m\x1b[34mb"));
    colored::control::unset_override();
}

