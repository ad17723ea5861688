//! Finding the process that listens on a port in the listing that
//! `ss -tlnp` prints.
use vstd::prelude::*;

use crate::text::{
    chars_of, contains_chars, contains_seq, decimal, decimal_chars, find_chars, find_from,
    lemma_find_from, matches_at, occurs_at,
};

verus! {

/// What `char::is_numeric` returns for `c`: whether `c` belongs to one of
/// Unicode's numeric general categories.
pub uninterp spec fn char_is_numeric(c: char) -> bool;

/// `char::is_numeric`: tells whether `c` is a Unicode numeric character.
/// Claimed: the result is `char_is_numeric(c)`, a function of `c` alone.
#[verifier::external_body]
fn is_numeric(c: char) -> (r: bool)
    ensures
        r == char_is_numeric(c),
{
    c.is_numeric()
}

/// `t` without the carriage return it ends with, if any (applied to a line
/// that a line feed ends).
pub open spec fn strip_cr(t: Seq<char>) -> Seq<char> {
    if t.len() > 0 && t.last() == '\r' {
        t.drop_last()
    } else {
        t
    }
}

/// The position of the first line feed at or after `j`, or the length of
/// `s` when there is none.
pub open spec fn line_end(s: Seq<char>, j: int) -> int
    decreases s.len() - j,
{
    if j >= s.len() {
        s.len() as int
    } else if s[j] == '\n' {
        j
    } else {
        line_end(s, j + 1)
    }
}

/// `line_end` lies between `j` and the end, on a line feed when before the end.
pub proof fn lemma_line_end(s: Seq<char>, j: int)
    requires
        0 <= j <= s.len(),
    ensures
        j <= line_end(s, j) <= s.len(),
        line_end(s, j) < s.len() ==> s[line_end(s, j)] == '\n',
        forall|k: int| j <= k < line_end(s, j) ==> s[k] != '\n',
    decreases s.len() - j,
{
    if j < s.len() && s[j] != '\n' {
        lemma_line_end(s, j + 1);
    }
}

/// The lines of `s` from position `start` on, as `str::lines` yields them:
/// split at line feeds, a carriage return before a line feed dropped, and no
/// empty line after a final line feed.
pub open spec fn lines_from(s: Seq<char>, start: int) -> Seq<Seq<char>>
    decreases s.len() - start,
{
    if start < 0 || start >= s.len() {
        Seq::empty()
    } else {
        let e = line_end(s, start);
        if e >= s.len() {
            seq![s.subrange(start, s.len() as int)]
        } else {
            proof {
                lemma_line_end(s, start);
            }
            seq![strip_cr(s.subrange(start, e))] + lines_from(s, e + 1)
        }
    }
}

/// The lines of `s`.
pub open spec fn lines_of(s: Seq<char>) -> Seq<Seq<char>> {
    lines_from(s, 0)
}

/// `:` and the port in decimal, as `format!(":{}", port)` writes it.
pub open spec fn port_tag(port: u16) -> Seq<char> {
    seq![':'] + decimal(port as nat)
}

/// The state that `ss` prints for a listening socket.
pub open spec fn listen_tag() -> Seq<char> {
    seq!['L', 'I', 'S', 'T', 'E', 'N']
}

/// The key before the process id in `ss`'s `users:((..))` column.
pub open spec fn pid_tag() -> Seq<char> {
    seq!['p', 'i', 'd', '=']
}

/// `c` is one of the ASCII digits `0` to `9`.
pub open spec fn is_digit(c: char) -> bool {
    48 <= (c as u32) <= 57
}

/// The value of a sequence of ASCII digits.
pub open spec fn digits_value(d: Seq<char>) -> int
    decreases d.len(),
{
    if d.len() == 0 {
        0
    } else {
        digits_value(d.drop_last()) * 10 + ((d.last() as u32) - 48)
    }
}

/// What `str::parse::<usize>` gives for digits without a sign: their value
/// when there is at least one, all are ASCII digits and the value fits.
pub open spec fn parse_digits(d: Seq<char>) -> Option<usize> {
    if d.len() > 0 && (forall|k: int| 0 <= k < d.len() ==> is_digit(#[trigger] d[k]))
        && digits_value(d) <= usize::MAX {
        Some(digits_value(d) as usize)
    } else {
        None
    }
}

/// What `str::parse::<usize>` gives for `t`: an optional `+` sign, then
/// digits as `parse_digits` reads them.
pub open spec fn parse_usize(t: Seq<char>) -> Option<usize> {
    if t.len() > 0 && t[0] == '+' {
        parse_digits(t.skip(1))
    } else {
        parse_digits(t)
    }
}

/// The position of the first character at or after `j` that is not
/// numeric (what `str::find(|c| !c.is_numeric())` returns).
pub open spec fn numeric_end(t: Seq<char>, j: int) -> Option<int>
    decreases t.len() - j,
{
    if j < 0 || j >= t.len() {
        None
    } else if !char_is_numeric(t[j]) {
        Some(j)
    } else {
        numeric_end(t, j + 1)
    }
}

proof fn lemma_numeric_end(t: Seq<char>, j: int)
    ensures
        numeric_end(t, j) matches Some(e) ==> j <= e < t.len(),
    decreases t.len() - j,
{
    if 0 <= j < t.len() && char_is_numeric(t[j]) {
        lemma_numeric_end(t, j + 1);
    }
}

/// The process id written after `pid=`: the numeric characters up to the
/// first character that is not numeric, read as a `usize`. With no such
/// character, or digits that do not parse, there is none.
pub open spec fn pid_field(t: Seq<char>) -> Option<usize> {
    match numeric_end(t, 0) {
        Some(e) => parse_usize(t.take(e)),
        None => None,
    }
}

/// `:port` stands in `line` at `i`, and no digit follows it there (so that
/// port 80 is not found in `:8080`).
pub open spec fn port_at(line: Seq<char>, port: u16, i: int) -> bool {
    &&& occurs_at(line, port_tag(port), i)
    &&& (i + port_tag(port).len() >= line.len() || !is_digit(line[i + port_tag(port).len()]))
}

/// `line` mentions the port `port` itself: `:port` not followed by a digit.
pub open spec fn mentions_port(line: Seq<char>, port: u16) -> bool {
    exists|i: int| port_at(line, port, i)
}

/// The process id that a line of `ss -tlnp` gives for `port`: the line
/// must mention the port (`:port`, no digit after it) and `LISTEN`, and hold
/// `pid=` followed by a number.
pub open spec fn line_pid(line: Seq<char>, port: u16) -> Option<usize> {
    if mentions_port(line, port) && contains_seq(line, listen_tag()) {
        match find_from(line, pid_tag(), 0) {
            Some(p) => pid_field(line.skip(p + 4)),
            None => None,
        }
    } else {
        None
    }
}

/// The process id that the first line to give one gives.
pub open spec fn first_line_pid(lines: Seq<Seq<char>>, port: u16) -> Option<usize>
    decreases lines.len(),
{
    if lines.len() == 0 {
        None
    } else {
        match line_pid(lines[0], port) {
            Some(p) => Some(p),
            None => first_line_pid(lines.drop_first(), port),
        }
    }
}

/// The process that listens on `port`, read from the output of `ss -tlnp`.
pub open spec fn listening_pid(output: Seq<char>, port: u16) -> Option<usize> {
    first_line_pid(lines_of(output), port)
}

/// Reads `t` as `str::parse::<usize>` does: an optional `+`, then one or
/// more ASCII digits whose value fits in a `usize`.
pub fn parse_usize_chars(t: &Vec<char>) -> (r: Option<usize>)
    ensures
        r == parse_usize(t@),
{
    let mut i: usize = 0;
    if t.len() > 0 && t[0] == '+' {
        i = 1;
    }
    let ghost d = t@.skip(i as int);
    assert(t@.skip(0) =~= t@);
    assert(parse_usize(t@) == parse_digits(d));
    if i >= t.len() {
        assert(d.len() == 0);
        return None;
    }
    let mut value: usize = 0;
    let mut k: usize = i;
    while k < t.len()
        invariant
            i <= k <= t.len(),
            i < t.len(),
            d == t@.skip(i as int),
            parse_usize(t@) == parse_digits(d),
            forall|m: int| 0 <= m < k - i ==> is_digit(#[trigger] d[m]),
            value as nat == digits_value(d.take(k - i)),
        decreases t.len() - k,
    {
        let c = t[k];
        assert(d[k - i] == c);
        let code = c as u32;
        if !(48 <= code && code <= 57) {
            assert(!is_digit(d[k - i]));
            return None;
        }
        let digit: usize = (code - 48) as usize;
        assert(d.take(k - i + 1).drop_last() =~= d.take(k - i));
        assert(d.take(k - i + 1).last() == c);
        assert forall|m: int| 0 <= m < k - i + 1 implies is_digit(#[trigger] d[m]) by {
            if m < k - i {
            } else {
                assert(d[m] == c);
            }
        }
        proof {
            let q = d.take(k - i);
            assert forall|m: int| 0 <= m < q.len() implies is_digit(#[trigger] q[m]) by {
                assert(q[m] == d[m]);
            }
            lemma_digits_value_nonneg(q);
        }
        match value.checked_mul(10) {
            Some(tens) => match tens.checked_add(digit) {
                Some(v) => {
                    value = v;
                },
                None => {
                    proof {
                        lemma_overflow_fails(d, k - i + 1);
                    }
                    return None;
                },
            },
            None => {
                proof {
                    lemma_overflow_fails(d, k - i + 1);
                }
                return None;
            },
        }
        k = k + 1;
    }
    assert(d.take(t.len() - i) =~= d);
    Some(value)
}

/// The value of a prefix of digits is at most the value of the whole.
proof fn lemma_digits_value_prefix(d: Seq<char>, n: int)
    requires
        0 <= n <= d.len(),
        forall|k: int| 0 <= k < d.len() ==> is_digit(#[trigger] d[k]),
    ensures
        0 <= digits_value(d.take(n)) <= digits_value(d),
    decreases d.len() - n,
{
    if n < d.len() {
        lemma_digits_value_prefix(d, n + 1);
        assert(d.take(n + 1).drop_last() =~= d.take(n));
        assert(d.take(n + 1).last() == d[n]);
        assert(is_digit(d[n]));
    } else {
        assert(d.take(n) =~= d);
        lemma_digits_value_nonneg(d);
    }
}

proof fn lemma_digits_value_nonneg(d: Seq<char>)
    requires
        forall|k: int| 0 <= k < d.len() ==> is_digit(#[trigger] d[k]),
    ensures
        0 <= digits_value(d),
    decreases d.len(),
{
    if d.len() > 0 {
        let p = d.drop_last();
        assert forall|k: int| 0 <= k < p.len() implies is_digit(#[trigger] p[k]) by {
            assert(p[k] == d[k]);
        }
        lemma_digits_value_nonneg(p);
        assert(is_digit(d[d.len() - 1]));
    }
}

/// Where a prefix of digits already exceeds the largest `usize`, so does the whole.
proof fn lemma_overflow_fails(d: Seq<char>, n: int)
    requires
        1 <= n <= d.len(),
        forall|k: int| 0 <= k < n ==> is_digit(#[trigger] d[k]),
        digits_value(d.take(n)) > usize::MAX,
    ensures
        parse_digits(d) is None,
{
    if forall|k: int| 0 <= k < d.len() ==> is_digit(#[trigger] d[k]) {
        lemma_digits_value_prefix(d, n);
    }
}

/// The process id after `pid=`, given where the numeric characters of
/// `field` end (what `field.find(|c| !c.is_numeric())` returned).
pub fn pid_from_field(field: &Vec<char>, numeric_end_at: Option<usize>) -> (r: Option<usize>)
    ensures
        r == match numeric_end_at {
            Some(e) => if e <= field.len() {
                parse_usize(field@.take(e as int))
            } else {
                None
            },
            None => None,
        },
{
    match numeric_end_at {
        Some(e) => {
            if e <= field.len() {
                let mut digits: Vec<char> = Vec::new();
                let mut k: usize = 0;
                while k < e
                    invariant
                        k <= e <= field.len(),
                        digits@ == field@.take(k as int),
                    decreases e - k,
                {
                    digits.push(field[k]);
                    proof {
                        assert(field@.take(k + 1) =~= field@.take(k as int).push(field@[k as int]));
                    }
                    k = k + 1;
                }
                parse_usize_chars(&digits)
            } else {
                None
            }
        },
        None => None,
    }
}

/// The first position at or after `j` of a character that is not numeric.
fn find_non_numeric(t: &Vec<char>, j: usize) -> (r: Option<usize>)
    ensures
        match r {
            Some(e) => numeric_end(t@, j as int) == Some(e as int),
            None => numeric_end(t@, j as int) is None,
        },
{
    let mut k: usize = j;
    while k < t.len()
        invariant
            j <= k,
            numeric_end(t@, j as int) == numeric_end(t@, k as int),
        decreases t.len() - k,
    {
        if !is_numeric(t[k]) {
            return Some(k);
        }
        k = k + 1;
    }
    None
}

/// Whether `line` mentions the port whose tag (`:port`) is `tag`.
fn mentions_port_chars(line: &Vec<char>, tag: &Vec<char>, port: u16) -> (r: bool)
    requires
        tag@ == port_tag(port),
    ensures
        r == mentions_port(line@, port),
{
    if tag.len() > line.len() {
        return false;
    }
    let mut i: usize = 0;
    while i <= line.len() - tag.len()
        invariant
            tag@ == port_tag(port),
            tag.len() <= line.len(),
            i <= line.len() - tag.len() + 1,
            forall|j: int| 0 <= j < i ==> !#[trigger] port_at(line@, port, j),
        decreases line.len() - tag.len() + 1 - i,
    {
        if matches_at(line, tag, i) {
            let end = i + tag.len();
            if end >= line.len() {
                assert(port_at(line@, port, i as int));
                return true;
            }
            let code = line[end] as u32;
            if !(48 <= code && code <= 57) {
                assert(!is_digit(line@[end as int]));
                assert(port_at(line@, port, i as int));
                return true;
            }
        }
        i = i + 1;
    }
    assert forall|j: int| !#[trigger] port_at(line@, port, j) by {
        if 0 <= j && j + port_tag(port).len() <= line@.len() {
            assert(j < i);
        }
    }
    false
}

/// The process id that one line of `ss -tlnp` gives for `port`.
pub fn pid_in_line(line: &Vec<char>, port: u16) -> (r: Option<usize>)
    ensures
        r == line_pid(line@, port),
{
    let mut tag: Vec<char> = decimal_chars(port as u64);
    tag.insert(0, ':');
    assert(tag@ =~= port_tag(port));
    let listen: Vec<char> = vec!['L', 'I', 'S', 'T', 'E', 'N'];
    assert(listen@ =~= listen_tag());
    if !(mentions_port_chars(line, &tag, port) && contains_chars(line, &listen)) {
        return None;
    }
    let pid_key: Vec<char> = vec!['p', 'i', 'd', '='];
    assert(pid_key@ =~= pid_tag());
    match find_chars(line, &pid_key, 0) {
        None => None,
        Some(p) => {
            proof {
                assert(pid_tag().len() == 4);
                assert(find_from(line@, pid_tag(), 0) == Some(p as int));
                lemma_find_from(line@, pid_tag(), 0);
                assert(occurs_at(line@, pid_tag(), p as int));
                assert(p + 4 <= line.len());
            }
            let mut field: Vec<char> = Vec::new();
            let mut k: usize = p + 4;
            while k < line.len()
                invariant
                    p + 4 <= k <= line.len(),
                    field@ == line@.subrange(p + 4, k as int),
                decreases line.len() - k,
            {
                field.push(line[k]);
                proof {
                    assert(line@.subrange(p + 4, k + 1) =~= line@.subrange(p + 4, k as int).push(
                        line@[k as int],
                    ));
                }
                k = k + 1;
            }
            assert(field@ =~= line@.skip(p + 4));
            let e = find_non_numeric(&field, 0);
            proof {
                lemma_numeric_end(field@, 0);
            }
            pid_from_field(&field, e)
        },
    }
}

/// Finds the process listening on `port` in the output of `ss -tlnp`: the
/// process id of the first line that mentions `:port` (no digit after it)
/// and `LISTEN` and has a
/// `pid=` field with a number.
pub fn listening_pid_in(output: &str, port: u16) -> (r: Option<usize>)
    ensures
        r == listening_pid(output@, port),
{
    let s = chars_of(output);
    let mut start: usize = 0;
    while start < s.len()
        invariant
            s@ == output@,
            start <= s.len(),
            listening_pid(output@, port) == first_line_pid(lines_from(s@, start as int), port),
        decreases s.len() - start,
    {
        let mut e: usize = start;
        while e < s.len() && s[e] != '\n'
            invariant
                start <= e <= s.len(),
                line_end(s@, start as int) == line_end(s@, e as int),
            decreases s.len() - e,
        {
            e = e + 1;
        }
        proof {
            lemma_line_end(s@, start as int);
        }
        let mut stop = e;
        if e < s.len() && e > start && s[e - 1] == '\r' {
            stop = e - 1;
        }
        let mut line: Vec<char> = Vec::new();
        let mut k: usize = start;
        while k < stop
            invariant
                start <= k <= stop,
                stop <= s.len(),
                line@ == s@.subrange(start as int, k as int),
            decreases stop - k,
        {
            line.push(s[k]);
            proof {
                assert(s@.subrange(start as int, k + 1) =~= s@.subrange(start as int, k as int).push(
                    s@[k as int],
                ));
            }
            k = k + 1;
        }
        let ghost rest = lines_from(s@, e + 1);
        proof {
            if e < s.len() {
                let t = s@.subrange(start as int, e as int);
                if e > start && s@[e - 1] == '\r' {
                    assert(strip_cr(t) =~= line@);
                } else {
                    assert(strip_cr(t) =~= line@);
                }
                let all = lines_from(s@, start as int);
                assert(all == seq![line@] + rest);
                assert(all[0] == line@);
                assert(all.drop_first() =~= rest);
            } else {
                let all = lines_from(s@, start as int);
                assert(all == seq![line@]);
                assert(all.drop_first() =~= Seq::<Seq<char>>::empty());
            }
        }
        match pid_in_line(&line, port) {
            Some(p) => {
                return Some(p);
            },
            None => {},
        }
        if e >= s.len() {
            proof {
                let all = lines_from(s@, start as int);
                assert(all == seq![line@]);
                assert(all.drop_first() =~= Seq::<Seq<char>>::empty());
                assert(first_line_pid(all, port) == first_line_pid(all.drop_first(), port));
                assert(first_line_pid(Seq::<Seq<char>>::empty(), port) is None);
            }
            return None;
        }
        start = e + 1;
    }
    None
}

} // verus!

verus! {

/// A process id found in the listing comes from one of its lines that
/// mentions the port (`:port`, no digit after it) and `LISTEN` and gives that id.
pub proof fn law_found_pid_comes_from_a_listening_line(output: Seq<char>, port: u16)
    ensures
        listening_pid(output, port) matches Some(p) ==> exists|i: int|
            0 <= i < lines_of(output).len() && #[trigger] line_pid(lines_of(output)[i], port)
                == Some(p) && mentions_port(lines_of(output)[i], port) && contains_seq(
                lines_of(output)[i],
                listen_tag(),
            ),
{
    lemma_first_line_pid(lines_of(output), port);
}

proof fn lemma_first_line_pid(lines: Seq<Seq<char>>, port: u16)
    ensures
        first_line_pid(lines, port) matches Some(p) ==> exists|i: int|
            0 <= i < lines.len() && #[trigger] line_pid(lines[i], port) == Some(p)
                && mentions_port(lines[i], port) && contains_seq(lines[i], listen_tag()),
    decreases lines.len(),
{
    if lines.len() > 0 {
        match line_pid(lines[0], port) {
            Some(p) => {
                assert(line_pid(lines[0], port) == Some(p));
            },
            None => {
                let rest = lines.drop_first();
                lemma_first_line_pid(rest, port);
                if let Some(p) = first_line_pid(rest, port) {
                    let i = choose|i: int|
                        0 <= i < rest.len() && #[trigger] line_pid(rest[i], port) == Some(p)
                            && mentions_port(rest[i], port) && contains_seq(
                            rest[i],
                            listen_tag(),
                        );
                    assert(lines[i + 1] == rest[i]);
                    assert(line_pid(lines[i + 1], port) == Some(p));
                }
            },
        }
    }
}

} // verus!

verus! {

/// The decimal digit for `d` (0 to 9) is an ASCII digit of value `d`.
proof fn lemma_digit_char(d: nat)
    requires
        d < 10,
    ensures
        is_digit(crate::text::digit_char(d)),
        (crate::text::digit_char(d) as u32) - 48 == d,
{
    let x: u32 = (48 + d) as u32;
    assert(x < 0xD800);
    assert((x as char) as u32 == x);
}

/// The decimal rendering of a number is made of ASCII digits and reads back
/// as the number itself: every digit of it is printed.
pub proof fn law_decimal_reads_back(n: nat)
    ensures
        decimal(n).len() > 0,
        forall|k: int| 0 <= k < decimal(n).len() ==> is_digit(#[trigger] decimal(n)[k]),
        digits_value(decimal(n)) == n,
    decreases n,
{
    if n < 10 {
        lemma_digit_char(n);
        let d = decimal(n);
        assert(d.drop_last() =~= Seq::<char>::empty());
        assert(digits_value(Seq::<char>::empty()) == 0);
        assert(d.last() == crate::text::digit_char(n));
        assert(digits_value(d) == digits_value(d.drop_last()) * 10 + ((d.last() as u32) - 48));
    } else {
        law_decimal_reads_back(n / 10);
        lemma_digit_char(n % 10);
        let d = decimal(n);
        assert(d.drop_last() =~= decimal(n / 10));
        assert(d.last() == crate::text::digit_char(n % 10));
        assert((n / 10) * 10 + n % 10 == n) by (nonlinear_arith);
        assert(digits_value(d) == digits_value(d.drop_last()) * 10 + ((d.last() as u32) - 48));
        assert forall|k: int| 0 <= k < d.len() implies is_digit(#[trigger] d[k]) by {
            if k < d.len() - 1 {
                assert(d[k] == decimal(n / 10)[k]);
            }
        }
    }
}

} // verus!

verus! {

/// Scanning for the end of the numeric characters from `j` stops at `n`
/// when every character from `j` up to `n` is numeric and the one at `n`
/// is not.
proof fn lemma_numeric_end_at(t: Seq<char>, j: int, n: int)
    requires
        0 <= j <= n < t.len(),
        forall|k: int| j <= k < n ==> char_is_numeric(#[trigger] t[k]),
        !char_is_numeric(t[n]),
    ensures
        numeric_end(t, j) == Some(n),
    decreases n - j,
{
    if j < n {
        lemma_numeric_end_at(t, j + 1, n);
    }
}

/// The process id is read in full, however many digits it has: on a line
/// that mentions the port and `LISTEN`, when the first `pid=` is followed by
/// `n` ASCII digits (numeric characters, as `is_numeric` holds for them)
/// and then by a character that is not numeric, the line gives the value of
/// those digits, if it fits in a `usize`.
pub proof fn law_pid_is_read_to_its_end(line: Seq<char>, port: u16, p: int, n: int)
    requires
        mentions_port(line, port),
        contains_seq(line, listen_tag()),
        find_from(line, pid_tag(), 0) == Some(p),
        0 < n,
        p + 4 + n < line.len(),
        forall|k: int|
            p + 4 <= k < p + 4 + n ==> is_digit(#[trigger] line[k]) && char_is_numeric(line[k]),
        !char_is_numeric(line[p + 4 + n]),
        digits_value(line.subrange(p + 4, p + 4 + n)) <= usize::MAX,
    ensures
        line_pid(line, port) == Some(digits_value(line.subrange(p + 4, p + 4 + n)) as usize),
{
    lemma_find_from(line, pid_tag(), 0);
    let t = line.skip(p + 4);
    let d = line.subrange(p + 4, p + 4 + n);
    assert forall|k: int| 0 <= k < n implies char_is_numeric(#[trigger] t[k]) by {
        assert(t[k] == line[p + 4 + k]);
    }
    assert(t[n] == line[p + 4 + n]);
    lemma_numeric_end_at(t, 0, n);
    assert(t.take(n) =~= d);
    assert forall|k: int| 0 <= k < d.len() implies is_digit(#[trigger] d[k]) by {
        assert(d[k] == line[p + 4 + k]);
    }
    assert(is_digit(d[0]));
    assert(d[0] != '+');
    assert(parse_usize(d) == parse_digits(d));
}

} // verus!
