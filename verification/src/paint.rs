//! Terminal colours, through the `colored` crate. Whether colours are shown
//! depends on the environment (`NO_COLOR`, `CLICOLOR`, `CLICOLOR_FORCE` and
//! whether the output is a terminal), so each painted text is stated as one
//! of the two forms `colored` can give it.
use vstd::prelude::*;

use crate::utils::{
    esc, free_of_escapes, is_csi_final, lemma_strip_plain_tail_at, strip_ansi, strip_from,
    strip_in_csi,
};

verus! {

/// `text` in the style whose SGR parameters are `codes`, followed by a reset.
pub open spec fn painted(text: Seq<char>, codes: Seq<char>) -> Seq<char> {
    seq![esc(), '['] + codes + seq!['m'] + text + seq![esc(), '[', '0', 'm']
}

/// The reset sequence `ESC [ 0 m`.
pub open spec fn reset_sequence() -> Seq<char> {
    seq![esc(), '[', '0', 'm']
}

/// `text` with the style `ESC [ codes m` written again after each reset
/// sequence in it, from left to right (what `colored` does so that a reset
/// inside the text does not end its style).
pub open spec fn after_resets(text: Seq<char>, codes: Seq<char>) -> Seq<char>
    decreases text.len(),
{
    if text.len() == 0 {
        Seq::empty()
    } else if text.len() >= 4 && text.take(4) == reset_sequence() {
        reset_sequence() + (seq![esc(), '['] + codes + seq!['m']) + after_resets(
            text.skip(4),
            codes,
        )
    } else {
        seq![text[0]] + after_resets(text.skip(1), codes)
    }
}

/// What `colored` prints for `text` in the style `codes` when colours are
/// on: the style, the text with the style renewed after each reset in it,
/// and a reset.
pub open spec fn colored_form(text: Seq<char>, codes: Seq<char>) -> Seq<char> {
    seq![esc(), '['] + codes + seq!['m'] + after_resets(text, codes) + reset_sequence()
}

/// `r` is how `colored` shows `text` in the style `codes`: the text itself
/// when colours are off, its coloured form when they are on.
pub open spec fn shows_as(r: Seq<char>, text: Seq<char>, codes: Seq<char>) -> bool {
    r == text || r == colored_form(text, codes)
}

/// A text without escape characters holds no reset, so nothing is renewed
/// in it and its coloured form is its painted form.
pub proof fn lemma_colored_form_plain(text: Seq<char>, codes: Seq<char>)
    requires
        free_of_escapes(text),
    ensures
        after_resets(text, codes) == text,
        colored_form(text, codes) == painted(text, codes),
    decreases text.len(),
{
    if text.len() > 0 {
        let rest = text.skip(1);
        assert forall|k: int| 0 <= k < rest.len() implies rest[k] != esc() by {
            assert(rest[k] == text[k + 1]);
        }
        lemma_colored_form_plain(rest, codes);
        if text.len() >= 4 {
            assert(text.take(4)[0] == text[0]);
            assert(text.take(4) != reset_sequence());
        }
        assert(text =~= seq![text[0]] + rest);
    }
    assert(reset_sequence() =~= seq![esc(), '[', '0', 'm']);
}

/// The SGR parameters of bold blue, as `colored` writes them.
pub open spec fn bold_blue_codes() -> Seq<char> {
    seq!['1', ';', '3', '4']
}

/// The SGR parameters of bold green.
pub open spec fn bold_green_codes() -> Seq<char> {
    seq!['1', ';', '3', '2']
}

/// The SGR parameters of bold yellow.
pub open spec fn bold_yellow_codes() -> Seq<char> {
    seq!['1', ';', '3', '3']
}

/// The SGR parameters of bold red.
pub open spec fn bold_red_codes() -> Seq<char> {
    seq!['1', ';', '3', '1']
}

/// The SGR parameters of blue.
pub open spec fn blue_codes() -> Seq<char> {
    seq!['3', '4']
}

/// The SGR parameters of bold white on green.
pub open spec fn white_bold_on_green_codes() -> Seq<char> {
    seq!['1', ';', '4', '2', ';', '3', '7']
}

/// The SGR parameters of bold white on red.
pub open spec fn white_bold_on_red_codes() -> Seq<char> {
    seq!['1', ';', '4', '1', ';', '3', '7']
}

/// `text.blue().bold()` of `colored`, rendered: the bold style (`1`) and the
/// blue foreground (`34`) around the text, renewed after each reset in it,
/// or the bare text without colours.
#[verifier::external_body]
pub(crate) fn bold_blue(text: &str) -> (r: String)
    ensures
        shows_as(r@, text@, bold_blue_codes()),
{
    colored::Colorize::bold(colored::Colorize::blue(text)).to_string()
}

/// `text.green().bold()` of `colored`, rendered (`1;32`), or the bare text.
#[verifier::external_body]
pub(crate) fn bold_green(text: &str) -> (r: String)
    ensures
        shows_as(r@, text@, bold_green_codes()),
{
    colored::Colorize::bold(colored::Colorize::green(text)).to_string()
}

/// `text.yellow().bold()` of `colored`, rendered (`1;33`), or the bare text.
#[verifier::external_body]
pub(crate) fn bold_yellow(text: &str) -> (r: String)
    ensures
        shows_as(r@, text@, bold_yellow_codes()),
{
    colored::Colorize::bold(colored::Colorize::yellow(text)).to_string()
}

/// `text.red().bold()` of `colored`, rendered (`1;31`), or the bare text.
#[verifier::external_body]
pub(crate) fn bold_red(text: &str) -> (r: String)
    ensures
        shows_as(r@, text@, bold_red_codes()),
{
    colored::Colorize::bold(colored::Colorize::red(text)).to_string()
}

/// `text.blue()` of `colored`, rendered (`34`), or the bare text.
#[verifier::external_body]
pub(crate) fn blue(text: &str) -> (r: String)
    ensures
        shows_as(r@, text@, blue_codes()),
{
    colored::Colorize::blue(text).to_string()
}

/// `text.on_green().white().bold()` of `colored`, rendered: style, then
/// background, then foreground (`1;42;37`), or the bare text.
#[verifier::external_body]
pub(crate) fn white_bold_on_green(text: &str) -> (r: String)
    ensures
        shows_as(r@, text@, white_bold_on_green_codes()),
{
    colored::Colorize::bold(colored::Colorize::white(colored::Colorize::on_green(text))).to_string()
}

/// `text.on_red().white().bold()` of `colored`, rendered (`1;41;37`), or the
/// bare text.
#[verifier::external_body]
pub(crate) fn white_bold_on_red(text: &str) -> (r: String)
    ensures
        shows_as(r@, text@, white_bold_on_red_codes()),
{
    colored::Colorize::bold(colored::Colorize::white(colored::Colorize::on_red(text))).to_string()
}

/// `codes` holds only SGR parameter characters (digits and `;`), none of
/// which ends an escape sequence.
pub open spec fn sgr_parameters(codes: Seq<char>) -> bool {
    forall|k: int| 0 <= k < codes.len() ==> 0x30 <= (#[trigger] codes[k] as u32) <= 0x3b
}

/// Stripping from position `i` of a text that starts with `prefix` and
/// continues in `rest`: inside a sequence, the parameters are skipped.
proof fn lemma_skip_parameters(s: Seq<char>, from: int, to: int)
    requires
        0 <= from <= to < s.len(),
        forall|k: int| from <= k < to ==> !is_csi_final(#[trigger] s[k]),
    ensures
        strip_in_csi(s, from) == strip_in_csi(s, to),
    decreases to - from,
{
    if from < to {
        assert(!is_csi_final(s[from]));
        lemma_skip_parameters(s, from + 1, to);
    }
}

/// Where `painted(text, codes)` stands in `s` at `p`, stripping from `p`
/// gives the text and then what stripping gives after it.
pub proof fn lemma_painted_at(s: Seq<char>, p: int, text: Seq<char>, codes: Seq<char>)
    requires
        free_of_escapes(text),
        sgr_parameters(codes),
        0 <= p,
        p + painted(text, codes).len() <= s.len(),
        s.subrange(p, p + painted(text, codes).len()) == painted(text, codes),
    ensures
        strip_from(s, p) == text + strip_from(s, p + painted(text, codes).len()),
{
    let w = painted(text, codes);
    let c = codes.len() as int;
    let t = text.len() as int;
    assert(w.len() == c + t + 7);
    assert forall|k: int| 0 <= k < w.len() implies #[trigger] s[p + k] == w[k] by {
        assert(s.subrange(p, p + w.len())[k] == s[p + k]);
    }
    assert(s[p] == w[0] && s[p + 1] == w[1]);
    assert(s[p] == esc() && s[p + 1] == '[');
    assert forall|k: int| p + 2 <= k < p + 2 + c implies !is_csi_final(#[trigger] s[k]) by {
        assert(s[p + (k - p)] == w[k - p]);
        assert(w[k - p] == codes[k - p - 2]);
    }
    assert(s[p + (2 + c)] == w[2 + c]);
    assert(is_csi_final('m'));
    lemma_skip_parameters(s, p + 2, p + 2 + c);
    let start = p + 3 + c;
    let end = p + 3 + c + t;
    assert forall|k: int| start <= k < end implies #[trigger] s[k] != esc() by {
        assert(s[p + (k - p)] == w[k - p]);
        assert(w[k - p] == text[k - start]);
    }
    lemma_strip_plain_tail_at(s, start, end);
    assert forall|k: int| 0 <= k < t implies #[trigger] s.subrange(start, end)[k] == text[k] by {
        assert(s[p + (3 + c + k)] == w[3 + c + k]);
    }
    assert(s.subrange(start, end) =~= text);
    assert(s[p + (3 + c + t)] == w[3 + c + t]);
    assert(s[p + (4 + c + t)] == w[4 + c + t]);
    assert(s[p + (5 + c + t)] == w[5 + c + t]);
    assert(s[p + (6 + c + t)] == w[6 + c + t]);
    assert(!is_csi_final('0'));
    assert(strip_from(s, end) == strip_in_csi(s, end + 2));
    assert(strip_in_csi(s, end + 2) == strip_in_csi(s, end + 3));
    assert(strip_in_csi(s, end + 3) == strip_from(s, end + 4));
    assert(strip_in_csi(s, p + 2) == strip_in_csi(s, p + 2 + c));
    assert(strip_in_csi(s, p + 2 + c) == strip_from(s, start));
}

/// Where `r`, one of the forms `colored` gives `text`, stands in `s` at
/// `p`, stripping from `p` gives the text and then what follows.
pub proof fn lemma_shown_at(s: Seq<char>, p: int, r: Seq<char>, text: Seq<char>, codes: Seq<char>)
    requires
        free_of_escapes(text),
        sgr_parameters(codes),
        shows_as(r, text, codes),
        0 <= p,
        p + r.len() <= s.len(),
        s.subrange(p, p + r.len()) == r,
    ensures
        strip_from(s, p) == text + strip_from(s, p + r.len()),
{
    if r == text {
        assert forall|k: int| p <= k < p + r.len() implies #[trigger] s[k] != esc() by {
            assert(s.subrange(p, p + r.len())[k - p] == s[k]);
        }
        lemma_strip_plain_tail_at(s, p, p + r.len());
    } else {
        lemma_colored_form_plain(text, codes);
        lemma_painted_at(s, p, text, codes);
    }
}

/// Whatever form `colored` gives an escape-free text, stripping the escape
/// sequences gives the text back.
pub proof fn law_shown_text_strips_to_text(r: Seq<char>, text: Seq<char>, codes: Seq<char>)
    requires
        free_of_escapes(text),
        sgr_parameters(codes),
        shows_as(r, text, codes),
    ensures
        strip_ansi(r) == text,
{
    assert(r.subrange(0, r.len() as int) =~= r);
    lemma_shown_at(r, 0, r, text, codes);
    assert(strip_from(r, r.len() as int) == Seq::<char>::empty());
    assert(text + Seq::<char>::empty() =~= text);
}

/// The parameters of every style FastUp paints with are SGR parameters.
pub proof fn lemma_styles_are_parameters()
    ensures
        sgr_parameters(bold_blue_codes()),
        sgr_parameters(bold_green_codes()),
        sgr_parameters(bold_yellow_codes()),
        sgr_parameters(bold_red_codes()),
        sgr_parameters(blue_codes()),
        sgr_parameters(white_bold_on_green_codes()),
        sgr_parameters(white_bold_on_red_codes()),
{
    assert(('1' as u32) == 49 && (';' as u32) == 59 && ('2' as u32) == 50 && ('3' as u32) == 51);
    assert(('4' as u32) == 52 && ('7' as u32) == 55);
}

} // verus!
