//! Log levels, and the lines a log message makes on the terminal and in
//! the log file.
use vstd::prelude::*;

use crate::paint::{
    bold_blue, bold_blue_codes, bold_green, bold_green_codes, bold_red, bold_red_codes, bold_yellow,
    bold_yellow_codes, lemma_shown_at, lemma_styles_are_parameters, sgr_parameters, shows_as,
};
use crate::ports::{digits_value, is_digit};
use crate::utils::{
    esc, free_of_escapes, lemma_strip_plain_tail_at, lemma_strip_shift, strip_ansi,
    strip_ansi_codes, strip_from,
};

verus! {

/// The level of a log message.
pub enum LogLevel {
    Info,
    Success,
    Warn,
    Error,
}

/// The name of a level in the log file.
pub open spec fn level_name(level: LogLevel) -> Seq<char> {
    match level {
        LogLevel::Info => "INFO"@,
        LogLevel::Success => "SUCCESS"@,
        LogLevel::Warn => "WARN"@,
        LogLevel::Error => "ERROR"@,
    }
}

/// The tag that opens a message: the level's name in square brackets.
pub open spec fn tag_of(level: LogLevel) -> Seq<char> {
    "["@ + level_name(level) + "]"@
}

/// The style of a level's tag on the terminal: bold blue, green, yellow or red.
pub open spec fn level_codes(level: LogLevel) -> Seq<char> {
    match level {
        LogLevel::Info => bold_blue_codes(),
        LogLevel::Success => bold_green_codes(),
        LogLevel::Warn => bold_yellow_codes(),
        LogLevel::Error => bold_red_codes(),
    }
}

/// The two characters of `s` at `i` and `i + 1` are digits whose value is
/// at most `max`.
pub open spec fn two_digits_up_to(s: Seq<char>, i: int, max: int) -> bool {
    is_digit(s[i]) && is_digit(s[i + 1]) && digits_value(s.subrange(i, i + 2)) <= max
}

/// `s` reads as a time of day `HH:MM:SS`: hour 00 to 23, minute 00 to 59,
/// second 00 to 60.
pub open spec fn is_clock_time(s: Seq<char>) -> bool {
    &&& s.len() == 8
    &&& s[2] == ':'
    &&& s[5] == ':'
    &&& two_digits_up_to(s, 0, 23)
    &&& two_digits_up_to(s, 3, 59)
    &&& two_digits_up_to(s, 6, 60)
}

/// A time of day holds no escape character.
pub proof fn lemma_clock_time_plain(s: Seq<char>)
    requires
        is_clock_time(s),
    ensures
        free_of_escapes(s),
{
    assert forall|k: int| 0 <= k < s.len() implies s[k] != esc() by {
        if k == 2 || k == 5 {
        } else {
            assert(is_digit(s[k]));
        }
    }
}

/// The line printed on the terminal for a message, given the tag as shown:
/// `[<time>] FastUp <tag>: <message>`.
pub open spec fn console_line_with(timestamp: Seq<char>, prefix: Seq<char>, msg: Seq<char>) -> Seq<
    char,
> {
    "["@ + timestamp + "] FastUp "@ + prefix + ": "@ + msg
}

/// A level's tag holds no escape character, and its style is made of SGR
/// parameters.
pub proof fn lemma_tag_plain(level: LogLevel)
    ensures
        free_of_escapes(tag_of(level)),
        sgr_parameters(level_codes(level)),
{
    reveal_strlit("[");
    reveal_strlit("]");
    reveal_strlit("INFO");
    reveal_strlit("SUCCESS");
    reveal_strlit("WARN");
    reveal_strlit("ERROR");
    lemma_styles_are_parameters();
    let t = tag_of(level);
    assert forall|k: int| 0 <= k < t.len() implies t[k] != esc() by {
        let n = level_name(level);
        if k == 0 {
        } else if k <= n.len() {
            assert(t[k] == n[k - 1]);
        } else {
            assert(t[k] == ']');
        }
    }
}

/// The line written to the log file: `[<time>] FastUp <LEVEL>: <message>`,
/// the message without its escape sequences.
pub open spec fn log_line(timestamp: Seq<char>, level: LogLevel, msg: Seq<char>) -> Seq<char> {
    "["@ + timestamp + "] FastUp "@ + level_name(level) + ": "@ + strip_ansi(msg)
}

impl LogLevel {
    /// The name of the level as the log file shows it.
    pub fn as_str(&self) -> (r: &'static str)
        ensures
            r@ == level_name(*self),
    {
        match self {
            LogLevel::Info => "INFO",
            LogLevel::Success => "SUCCESS",
            LogLevel::Warn => "WARN",
            LogLevel::Error => "ERROR",
        }
    }

    /// The tag that opens the message, before colouring: the level's name
    /// in square brackets.
    pub fn tag(&self) -> (r: String)
        ensures
            r@ == tag_of(*self),
    {
        String::from_str("[").concat(self.as_str()).concat("]")
    }

    /// The tag in the level's colour, as the terminal shows it.
    pub fn prefix(&self) -> (r: String)
        ensures
            shows_as(r@, tag_of(*self), level_codes(*self)),
    {
        let tag = self.tag();
        proof {
            lemma_tag_plain(*self);
        }
        match self {
            LogLevel::Info => bold_blue(tag.as_str()),
            LogLevel::Success => bold_green(tag.as_str()),
            LogLevel::Warn => bold_yellow(tag.as_str()),
            LogLevel::Error => bold_red(tag.as_str()),
        }
    }
}

/// The line that `print_log` appends to the log file for a message.
pub fn log_file_line(timestamp: &str, level: &LogLevel, msg: &str) -> (r: String)
    ensures
        r@ == log_line(timestamp@, *level, msg@),
{
    let clean = strip_ansi_codes(msg);
    String::from_str("[").concat(timestamp).concat("] FastUp ").concat(level.as_str()).concat(
        ": ",
    ).concat(clean.as_str())
}

/// The line that `print_log` prints on the terminal for a message.
pub fn console_line(timestamp: &str, level: &LogLevel, msg: &str) -> (r: String)
    ensures
        exists|p: Seq<char>|
            shows_as(p, tag_of(*level), level_codes(*level)) && r@ == console_line_with(
                timestamp@,
                p,
                msg@,
            ),
{
    let prefix = level.prefix();
    String::from_str("[").concat(timestamp).concat("] FastUp ").concat(prefix.as_str()).concat(
        ": ",
    ).concat(msg)
}

/// The two lines that logging a message at the time of day `timestamp`
/// makes: the one printed on the terminal (tag in colour) and the one
/// appended to the log file (plain).
pub fn log_lines(timestamp: &str, level: &LogLevel, msg: &str) -> (r: (String, String))
    ensures
        exists|p: Seq<char>|
            {
                &&& shows_as(p, tag_of(*level), level_codes(*level))
                &&& r.0@ == console_line_with(timestamp@, p, msg@)
                &&& r.1@ == log_line(timestamp@, *level, msg@)
            },
{
    let console = console_line(timestamp, level, msg);
    let file = log_file_line(timestamp, level, msg);
    (console, file)
}

} // verus!

verus! {

/// The log file never receives an escape character from a message: when
/// the time stamp has none, the whole line has none.
pub proof fn law_log_lines_are_plain(timestamp: Seq<char>, level: LogLevel, msg: Seq<char>)
    requires
        crate::utils::free_of_escapes(timestamp),
    ensures
        crate::utils::free_of_escapes(log_line(timestamp, level, msg)),
{
    reveal_strlit("[");
    reveal_strlit("] FastUp ");
    reveal_strlit(": ");
    reveal_strlit("INFO");
    reveal_strlit("SUCCESS");
    reveal_strlit("WARN");
    reveal_strlit("ERROR");
    crate::utils::law_stripped_text_has_no_escapes(msg);
    let line = log_line(timestamp, level, msg);
    assert forall|k: int| 0 <= k < line.len() implies line[k] != crate::utils::esc() by {
        let a = "["@;
        let b = a + timestamp;
        let c = b + "] FastUp "@;
        let d = c + level_name(level);
        let e = d + ": "@;
        assert(line == e + strip_ansi(msg));
        if k >= e.len() {
            assert(line[k] == strip_ansi(msg)[k - e.len()]);
        } else if k >= d.len() {
            assert(line[k] == ": "@[k - d.len()]);
        } else if k >= c.len() {
            assert(line[k] == level_name(level)[k - c.len()]);
        } else if k >= b.len() {
            assert(line[k] == "] FastUp "@[k - b.len()]);
        } else if k >= a.len() {
            assert(line[k] == timestamp[k - a.len()]);
        } else {
            assert(line[k] == a[k]);
        }
    }
}

} // verus!

verus! {

/// Without its colours, the terminal line shows the time, the level's tag
/// and the message without escape sequences, as the log file has them.
pub proof fn law_console_line_without_colours(
    timestamp: Seq<char>,
    level: LogLevel,
    prefix: Seq<char>,
    msg: Seq<char>,
)
    requires
        free_of_escapes(timestamp),
        shows_as(prefix, tag_of(level), level_codes(level)),
    ensures
        strip_ansi(console_line_with(timestamp, prefix, msg)) == "["@ + timestamp + "] FastUp "@
            + tag_of(level) + ": "@ + strip_ansi(msg),
{
    reveal_strlit("[");
    reveal_strlit("] FastUp ");
    reveal_strlit(": ");
    lemma_tag_plain(level);
    let head = "["@ + timestamp + "] FastUp "@;
    let s = console_line_with(timestamp, prefix, msg);
    let p1 = head.len() as int;
    let p2 = p1 + prefix.len();
    let p3 = p2 + 2;
    assert(s == head + prefix + ": "@ + msg);
    assert forall|k: int| 0 <= k < p1 implies #[trigger] s[k] != esc() by {
        assert(s[k] == head[k]);
        if k == 0 {
        } else if k < 1 + timestamp.len() {
            assert(head[k] == timestamp[k - 1]);
        } else {
            assert(head[k] == "] FastUp "@[k - 1 - timestamp.len()]);
        }
    }
    lemma_strip_plain_tail_at(s, 0, p1);
    assert(s.subrange(0, p1) =~= head);
    assert(s.subrange(p1, p2) =~= prefix);
    lemma_shown_at(s, p1, prefix, tag_of(level), level_codes(level));
    assert forall|k: int| p2 <= k < p3 implies #[trigger] s[k] != esc() by {
        assert(s[k] == ": "@[k - p2]);
    }
    lemma_strip_plain_tail_at(s, p2, p3);
    assert(s.subrange(p2, p3) =~= ": "@);
    lemma_strip_shift(s, p3, 0);
    assert(s.skip(p3) =~= msg);
}

} // verus!

verus! {

/// The two lines that logging a message at a time of day `HH:MM:SS` makes
/// agree: the log file's line holds no escape character, and the terminal's line, without its colours,
/// shows the same time and message with the level's tag.
pub proof fn law_logged_lines_agree(t: Seq<char>, p: Seq<char>, level: LogLevel, msg: Seq<char>)
    requires
        is_clock_time(t),
        shows_as(p, tag_of(level), level_codes(level)),
    ensures
        free_of_escapes(log_line(t, level, msg)),
        strip_ansi(console_line_with(t, p, msg)) == "["@ + t + "] FastUp "@ + tag_of(level) + ": "@
            + strip_ansi(msg),
{
    lemma_clock_time_plain(t);
    law_log_lines_are_plain(t, level, msg);
    law_console_line_without_colours(t, level, p, msg);
}

} // verus!
