//! Removal of escape sequences, the status line of an element, and the
//! locations of FastUp's files.
use vstd::prelude::*;

use crate::paint::{
    blue, blue_codes, lemma_shown_at, lemma_styles_are_parameters, shows_as, white_bold_on_green,
    white_bold_on_green_codes, white_bold_on_red, white_bold_on_red_codes,
};
use crate::text::{chars_of, decimal, decimal_chars, push_char};

verus! {

/// The escape character that opens an ANSI control sequence.
pub open spec fn esc() -> char {
    '\x1b'
}

/// A final byte of a CSI sequence (`@` to `~`), such as the `m` of `ESC[31m`.
pub open spec fn is_csi_final(c: char) -> bool {
    0x40 <= (c as u32) <= 0x7e
}

/// What `strip_ansi_codes` keeps of `s` from position `i` on, outside any
/// escape sequence. An `ESC [` pair opens a CSI sequence; an `ESC` that no
/// `[` follows is dropped by itself; every other character is kept.
pub open spec fn strip_from(s: Seq<char>, i: int) -> Seq<char>
    decreases s.len() - i, 1int,
{
    if i < 0 || i >= s.len() {
        Seq::empty()
    } else if s[i] == esc() {
        if i + 1 < s.len() && s[i + 1] == '[' {
            strip_in_csi(s, i + 2)
        } else {
            strip_from(s, i + 1)
        }
    } else {
        seq![s[i]] + strip_from(s, i + 1)
    }
}

/// What `strip_ansi_codes` keeps of `s` from position `j` on, inside a CSI
/// sequence: nothing up to and including its final byte.
pub open spec fn strip_in_csi(s: Seq<char>, j: int) -> Seq<char>
    decreases s.len() - j, 0int,
{
    if j < 0 || j >= s.len() {
        Seq::empty()
    } else if is_csi_final(s[j]) {
        strip_from(s, j + 1)
    } else {
        strip_in_csi(s, j + 1)
    }
}

/// `s` without its ANSI escape sequences.
pub open spec fn strip_ansi(s: Seq<char>) -> Seq<char> {
    strip_from(s, 0)
}

/// `s` holds no escape character.
pub open spec fn free_of_escapes(s: Seq<char>) -> bool {
    forall|k: int| 0 <= k < s.len() ==> s[k] != esc()
}

/// Removes the ANSI escape sequences (colours, bold and the like) from a
/// string, so that it can be written to a plain log file.
pub fn strip_ansi_codes(s: &str) -> (r: String)
    ensures
        r@ == strip_ansi(s@),
{
    let v = chars_of(s);
    let mut out = String::new();
    let mut in_csi = false;
    let mut i: usize = 0;
    while i < v.len()
        invariant
            i <= v.len(),
            v@ == s@,
            strip_ansi(s@) == out@ + (if in_csi {
                strip_in_csi(s@, i as int)
            } else {
                strip_from(s@, i as int)
            }),
        decreases v.len() - i,
    {
        let c = v[i];
        if in_csi {
            let code = c as u32;
            if 0x40 <= code && code <= 0x7e {
                assert(is_csi_final(c));
                assert(strip_in_csi(s@, i as int) == strip_from(s@, i + 1));
                in_csi = false;
            } else {
                assert(!is_csi_final(c));
                assert(strip_in_csi(s@, i as int) == strip_in_csi(s@, i + 1));
            }
            i = i + 1;
        } else if c == '\x1b' {
            if i + 1 < v.len() && v[i + 1] == '[' {
                assert(strip_from(s@, i as int) == strip_in_csi(s@, i + 2));
                in_csi = true;
                i = i + 2;
            } else {
                assert(strip_from(s@, i as int) == strip_from(s@, i + 1));
                i = i + 1;
            }
        } else {
            proof {
                assert(strip_from(s@, i as int) == seq![c] + strip_from(s@, i + 1));
                assert(out@.push(c) + strip_from(s@, i + 1) =~= out@ + (seq![c] + strip_from(
                    s@,
                    i + 1,
                )));
            }
            push_char(&mut out, c);
            i = i + 1;
        }
    }
    assert(out@ + Seq::<char>::empty() =~= out@);
    out
}

/// Nothing that `strip_from` and `strip_in_csi` keep is an escape character.
proof fn lemma_strip_keeps_no_escape(s: Seq<char>, i: int)
    ensures
        free_of_escapes(strip_from(s, i)),
        free_of_escapes(strip_in_csi(s, i)),
    decreases s.len() - i,
{
    if 0 <= i < s.len() {
        lemma_strip_keeps_no_escape(s, i + 1);
        if i + 2 <= s.len() {
            lemma_strip_keeps_no_escape(s, i + 2);
        }
        if s[i] != esc() {
            let rest = strip_from(s, i + 1);
            assert forall|k: int| 0 <= k < (seq![s[i]] + rest).len() implies (seq![s[i]]
                + rest)[k] != esc() by {
                if k > 0 {
                    assert((seq![s[i]] + rest)[k] == rest[k - 1]);
                }
            }
        }
    }
}

/// A text stripped of escape sequences holds no escape character.
pub proof fn law_stripped_text_has_no_escapes(s: Seq<char>)
    ensures
        free_of_escapes(strip_ansi(s)),
{
    lemma_strip_keeps_no_escape(s, 0);
}

/// Stripping leaves a text without escape characters unchanged.
pub proof fn law_strip_keeps_plain_text(s: Seq<char>)
    requires
        free_of_escapes(s),
    ensures
        strip_ansi(s) == s,
{
    lemma_strip_plain_tail_at(s, 0, s.len() as int);
    assert(s.subrange(0, s.len() as int) =~= s);
    assert(s + Seq::<char>::empty() =~= s);
}

/// Stripping twice gives what stripping once gives.
pub proof fn law_strip_is_idempotent(s: Seq<char>)
    ensures
        strip_ansi(strip_ansi(s)) == strip_ansi(s),
{
    law_stripped_text_has_no_escapes(s);
    law_strip_keeps_plain_text(strip_ansi(s));
}

/// Stripping from `p + i` in `s` is stripping from `i` in what follows `p`.
pub proof fn lemma_strip_shift(s: Seq<char>, p: int, i: int)
    requires
        0 <= p <= s.len(),
        0 <= i,
    ensures
        strip_from(s, p + i) == strip_from(s.skip(p), i),
        strip_in_csi(s, p + i) == strip_in_csi(s.skip(p), i),
    decreases s.len() - p - i,
{
    let t = s.skip(p);
    if p + i < s.len() {
        assert(s[p + i] == t[i]);
        lemma_strip_shift(s, p, i + 1);
        if i + 1 < t.len() {
            assert(s[p + i + 1] == t[i + 1]);
            lemma_strip_shift(s, p, i + 2);
        }
    }
}

/// `s` followed by spaces up to `width` characters (what `{:<width}` prints).
pub open spec fn pad_right(s: Seq<char>, width: nat) -> Seq<char> {
    if s.len() >= width {
        s
    } else {
        s + Seq::new((width - s.len()) as nat, |i: int| ' ')
    }
}

/// The characters `v`, followed by spaces up to `width` characters.
fn pad_chars(v: &Vec<char>, width: usize) -> (r: String)
    ensures
        r@ == pad_right(v@, width as nat),
{
    let mut r = String::new();
    let mut i: usize = 0;
    while i < v.len()
        invariant
            i <= v.len(),
            r@ == v@.take(i as int),
        decreases v.len() - i,
    {
        push_char(&mut r, v[i]);
        assert(v@.take(i + 1) =~= v@.take(i as int).push(v@[i as int]));
        i = i + 1;
    }
    assert(v@.take(v.len() as int) =~= v@);
    let mut n: usize = v.len();
    while n < width
        invariant
            v.len() <= n <= width || (n == v.len() && n >= width),
            r@ == v@ + Seq::new((n - v.len()) as nat, |k: int| ' '),
        decreases width - n,
    {
        push_char(&mut r, ' ');
        assert(v@ + Seq::new((n + 1 - v.len()) as nat, |k: int| ' ') =~= (v@ + Seq::new(
            (n - v.len()) as nat,
            |k: int| ' ',
        )).push(' '));
        n = n + 1;
    }
    assert(v@ + Seq::new(0, |k: int| ' ') =~= v@);
    r
}

/// The word that shows an element's status.
pub open spec fn status_word(online: bool) -> Seq<char> {
    if online {
        "ONLINE"@
    } else {
        "OFFLINE"@
    }
}

/// The style of the status word: white on green, or white on red.
pub open spec fn status_codes(online: bool) -> Seq<char> {
    if online {
        white_bold_on_green_codes()
    } else {
        white_bold_on_red_codes()
    }
}

/// The part of a status line between the name and the status word.
pub open spec fn port_column(port: u16) -> Seq<char> {
    " | Port: "@ + pad_right(decimal(port as nat), 5) + "| "@
}

/// A status line without colours: the name padded to 20 characters, the
/// port padded to 5, and the status word.
pub open spec fn plain_status_line(name: Seq<char>, port: u16, online: bool) -> Seq<char> {
    pad_right(name, 20) + port_column(port) + status_word(online)
}

/// The line that `print_status` prints for an element: its name in blue
/// padded to 20 characters, its port padded to 5, and `ONLINE` (white on
/// green) or `OFFLINE` (white on red).
pub fn status_line(name: &str, port: u16, online: bool) -> (r: String)
    ensures
        exists|a: Seq<char>, b: Seq<char>|
            {
                &&& r@ == a + port_column(port) + b
                &&& shows_as(b, status_word(online), status_codes(online))
                &&& shows_as(a, pad_right(name@, 20), blue_codes())
            },
{
    let padded = pad_chars(&chars_of(name), 20);
    let name_part = blue(padded.as_str());
    proof {
        reveal_strlit("ONLINE");
        reveal_strlit("OFFLINE");
    }
    let word = if online {
        white_bold_on_green("ONLINE")
    } else {
        white_bold_on_red("OFFLINE")
    };
    let port_text = pad_chars(&decimal_chars(port as u64), 5);
    let r = name_part.concat(" | Port: ").concat(port_text.as_str()).concat("| ").concat(
        word.as_str(),
    );
    assert(r@ == name_part@ + port_column(port) + word@);
    r
}

/// Without its colours, a status line reads as the plain status line.
pub proof fn law_status_line_without_colours(
    a: Seq<char>,
    b: Seq<char>,
    name: Seq<char>,
    port: u16,
    online: bool,
)
    requires
        free_of_escapes(name),
        shows_as(a, pad_right(name, 20), blue_codes()),
        shows_as(b, status_word(online), status_codes(online)),
    ensures
        strip_ansi(a + port_column(port) + b) == plain_status_line(name, port, online),
{
    reveal_strlit("ONLINE");
    reveal_strlit("OFFLINE");
    reveal_strlit(" | Port: ");
    reveal_strlit("| ");
    lemma_styles_are_parameters();
    let pad = pad_right(name, 20);
    assert forall|k: int| 0 <= k < pad.len() implies pad[k] != esc() by {
        if k < name.len() {
            assert(pad[k] == name[k]);
        } else {
            assert(pad[k] == ' ');
        }
    }
    let mid = port_column(port);
    let digits = pad_right(decimal(port as nat), 5);
    lemma_decimal_plain(port as nat);
    assert forall|k: int| 0 <= k < mid.len() implies mid[k] != esc() by {
        let x = " | Port: "@;
        if k < x.len() {
        } else if k < x.len() + digits.len() {
            assert(mid[k] == digits[k - x.len()]);
            if k - x.len() < decimal(port as nat).len() {
                assert(digits[k - x.len()] == decimal(port as nat)[k - x.len()]);
            } else {
                assert(digits[k - x.len()] == ' ');
            }
        } else {
            assert(mid[k] == "| "@[k - x.len() - digits.len()]);
        }
    }
    let s = a + mid + b;
    assert(s.subrange(0, a.len() as int) =~= a);
    lemma_shown_at(s, 0, a, pad, blue_codes());
    let p1 = a.len() as int;
    let p2 = p1 + mid.len();
    assert forall|k: int| p1 <= k < p2 implies #[trigger] s[k] != esc() by {
        assert(s[k] == mid[k - p1]);
    }
    lemma_strip_plain_tail_at(s, p1, p2);
    assert(s.subrange(p1, p2) =~= mid);
    assert(s.subrange(p2, p2 + b.len()) =~= b);
    lemma_shown_at(s, p2, b, status_word(online), status_codes(online));
    assert(strip_from(s, p2 + b.len()) == Seq::<char>::empty());
    assert(pad + (mid + (status_word(online) + Seq::<char>::empty())) =~= plain_status_line(
        name,
        port,
        online,
    ));
}

/// The decimal rendering of a number holds no escape character.
proof fn lemma_decimal_plain(n: nat)
    ensures
        free_of_escapes(decimal(n)),
    decreases n,
{
    if n >= 10 {
        lemma_decimal_plain(n / 10);
        let d = decimal(n);
        assert forall|k: int| 0 <= k < d.len() implies d[k] != esc() by {
            if k < decimal(n / 10).len() {
                assert(d[k] == decimal(n / 10)[k]);
            }
        }
    }
}

/// Stripping an escape-free stretch `s[i..j]` keeps it.
pub proof fn lemma_strip_plain_tail_at(s: Seq<char>, i: int, j: int)
    requires
        0 <= i <= j <= s.len(),
        forall|k: int| i <= k < j ==> #[trigger] s[k] != esc(),
    ensures
        strip_from(s, i) == s.subrange(i, j) + strip_from(s, j),
    decreases j - i,
{
    if i < j {
        lemma_strip_plain_tail_at(s, i + 1, j);
        assert(s.subrange(i, j) =~= seq![s[i]] + s.subrange(i + 1, j));
    } else {
        assert(s.subrange(i, j) =~= Seq::<char>::empty());
    }
}

/// The home directory to place FastUp's files under: the value of `HOME`,
/// or the current directory when it is unset.
pub fn home_or_current(home: Option<String>) -> (r: String)
    ensures
        r@ == match home {
            Some(h) => h@,
            None => seq!['.'],
        },
{
    match home {
        Some(h) => h,
        None => {
            let mut r = String::new();
            push_char(&mut r, '.');
            r
        },
    }
}

/// FastUp's configuration directory under `home`.
pub open spec fn config_dir_of(home: Seq<char>) -> Seq<char> {
    home + "/.config/fastup"@
}

/// FastUp's data directory under `home`.
pub open spec fn data_dir_of(home: Seq<char>) -> Seq<char> {
    home + "/.local/share/fastup"@
}

/// The directory of the log files under `home`.
pub open spec fn logs_dir_of(home: Seq<char>) -> Seq<char> {
    data_dir_of(home) + "/logs"@
}

/// `~/.config/fastup` for the home directory `home`.
pub fn config_dir(home: &str) -> (r: String)
    ensures
        r@ == config_dir_of(home@),
{
    String::from_str(home).concat("/.config/fastup")
}

/// `~/.config/fastup/fastup.yaml`: the configuration file.
pub fn config_file(home: &str) -> (r: String)
    ensures
        r@ == config_dir_of(home@) + "/fastup.yaml"@,
{
    config_dir(home).concat("/fastup.yaml")
}

/// `~/.local/share/fastup`: where FastUp keeps its data.
pub fn data_dir(home: &str) -> (r: String)
    ensures
        r@ == data_dir_of(home@),
{
    String::from_str(home).concat("/.local/share/fastup")
}

/// `~/.local/share/fastup/logs`: the directory of the log files.
pub fn logs_dir(home: &str) -> (r: String)
    ensures
        r@ == logs_dir_of(home@),
{
    data_dir(home).concat("/logs")
}

/// `~/.local/share/fastup/logs/fastup.txt`: the main log file.
pub fn log_file(home: &str) -> (r: String)
    ensures
        r@ == logs_dir_of(home@) + "/fastup.txt"@,
{
    logs_dir(home).concat("/fastup.txt")
}

/// `~/.local/share/fastup/state.json`: the file of the running elements.
pub fn state_file(home: &str) -> (r: String)
    ensures
        r@ == data_dir_of(home@) + "/state.json"@,
{
    data_dir(home).concat("/state.json")
}

} // verus!
