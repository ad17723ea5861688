//! Character-sequence helpers: searching, joining and decimal rendering,
//! each specified over `Seq<char>`.
use vstd::prelude::*;

verus! {

/// `needle` occurs in `hay` starting at position `i`.
pub open spec fn occurs_at(hay: Seq<char>, needle: Seq<char>, i: int) -> bool {
    &&& 0 <= i
    &&& i + needle.len() <= hay.len()
    &&& hay.subrange(i, i + needle.len()) =~= needle
}

/// `needle` occurs somewhere in `hay` (what `str::contains` decides).
pub open spec fn contains_seq(hay: Seq<char>, needle: Seq<char>) -> bool {
    exists|i: int| occurs_at(hay, needle, i)
}

/// The first position at or after `start` where `needle` occurs in `hay`
/// (what `str::find` returns, counted in characters).
pub open spec fn find_from(hay: Seq<char>, needle: Seq<char>, start: int) -> Option<int>
    decreases hay.len() - start,
{
    if start < 0 || start + needle.len() > hay.len() {
        None
    } else if occurs_at(hay, needle, start) {
        Some(start)
    } else if start >= hay.len() {
        None
    } else {
        find_from(hay, needle, start + 1)
    }
}

/// `find_from` gives the least occurrence at or after `start`, and `None`
/// exactly when there is none.
pub proof fn lemma_find_from(hay: Seq<char>, needle: Seq<char>, start: int)
    requires
        0 <= start,
    ensures
        match find_from(hay, needle, start) {
            Some(i) => start <= i && occurs_at(hay, needle, i) && forall|j: int|
                start <= j < i ==> !#[trigger] occurs_at(hay, needle, j),
            None => forall|j: int| start <= j ==> !#[trigger] occurs_at(hay, needle, j),
        },
    decreases hay.len() - start,
{
    if start + needle.len() > hay.len() {
    } else if occurs_at(hay, needle, start) {
    } else if start >= hay.len() {
        assert(hay.subrange(start, start + needle.len()) =~= needle);
    } else {
        lemma_find_from(hay, needle, start + 1);
    }
}

/// Appends one character to a string (std's `String::push`).
#[verifier::external_body]
pub(crate) fn push_char(s: &mut String, c: char)
    ensures
        final(s)@ == old(s)@.push(c),
{
    s.push(c);
}

/// The characters of a string slice, in order.
pub fn chars_of(s: &str) -> (v: Vec<char>)
    ensures
        v@ == s@,
{
    let mut v: Vec<char> = Vec::new();
    for c in it: s.chars()
        invariant
            v@ == it.seq().take(it.index() as int),
    {
        v.push(c);
    }
    v
}

/// Whether `needle` occurs in `hay` at position `i`.
pub fn matches_at(hay: &Vec<char>, needle: &Vec<char>, i: usize) -> (r: bool)
    ensures
        r == occurs_at(hay@, needle@, i as int),
{
    if needle.len() > hay.len() || i > hay.len() - needle.len() {
        return false;
    }
    let mut k: usize = 0;
    while k < needle.len()
        invariant
            k <= needle.len(),
            i + needle.len() <= hay.len(),
            forall|m: int| 0 <= m < k ==> hay@[i + m] == needle@[m],
        decreases needle.len() - k,
    {
        if hay[i + k] != needle[k] {
            assert(hay@.subrange(i as int, i + needle.len())[k as int] != needle@[k as int]);
            return false;
        }
        k = k + 1;
    }
    assert(hay@.subrange(i as int, i + needle.len()) =~= needle@);
    true
}

/// The first position at or after `start` where `needle` occurs in `hay`.
pub fn find_chars(hay: &Vec<char>, needle: &Vec<char>, start: usize) -> (r: Option<usize>)
    ensures
        match r {
            Some(i) => find_from(hay@, needle@, start as int) == Some(i as int),
            None => find_from(hay@, needle@, start as int) is None,
        },
{
    if needle.len() > hay.len() || start > hay.len() - needle.len() {
        return None;
    }
    let mut i: usize = start;
    while i <= hay.len() - needle.len()
        invariant
            start <= i,
            needle.len() <= hay.len(),
            i <= hay.len() - needle.len() + 1,
            find_from(hay@, needle@, start as int) == find_from(hay@, needle@, i as int),
        decreases hay.len() - needle.len() + 1 - i,
    {
        if matches_at(hay, needle, i) {
            return Some(i);
        }
        if i >= hay.len() {
            return None;
        }
        i = i + 1;
    }
    None
}

/// Whether `needle` occurs anywhere in `hay`.
pub fn contains_chars(hay: &Vec<char>, needle: &Vec<char>) -> (r: bool)
    ensures
        r == contains_seq(hay@, needle@),
{
    proof {
        lemma_find_from(hay@, needle@, 0);
    }
    match find_chars(hay, needle, 0) {
        Some(i) => true,
        None => false,
    }
}

/// Words joined by single spaces (what `[String]::join(" ")` builds).
pub open spec fn join_words(parts: Seq<Seq<char>>) -> Seq<char>
    decreases parts.len(),
{
    if parts.len() == 0 {
        Seq::empty()
    } else if parts.len() == 1 {
        parts[0]
    } else {
        join_words(parts.drop_last()) + seq![' '] + parts.last()
    }
}

/// The views of a vector of strings.
pub open spec fn views_of(parts: Seq<String>) -> Seq<Seq<char>> {
    parts.map_values(|s: String| s@)
}

/// The characters of `parts` joined by single spaces.
pub fn join_with_spaces(parts: &Vec<String>) -> (r: Vec<char>)
    ensures
        r@ == join_words(views_of(parts@)),
{
    let mut out: Vec<char> = Vec::new();
    let mut i: usize = 0;
    while i < parts.len()
        invariant
            i <= parts.len(),
            out@ == join_words(views_of(parts@).take(i as int)),
        decreases parts.len() - i,
    {
        let ghost before = out@;
        if i > 0 {
            out.push(' ');
        }
        let part = chars_of(parts[i].as_str());
        let mut k: usize = 0;
        while k < part.len()
            invariant
                k <= part.len(),
                i > 0 ==> out@ == before + seq![' '] + part@.take(k as int),
                i == 0 ==> out@ == before + part@.take(k as int),
            decreases part.len() - k,
        {
            out.push(part[k]);
            proof {
                assert(part@.take(k + 1) =~= part@.take(k as int).push(part@[k as int]));
            }
            k = k + 1;
        }
        proof {
            let t = views_of(parts@).take(i + 1);
            assert(part@.take(part.len() as int) =~= part@);
            assert(t.drop_last() =~= views_of(parts@).take(i as int));
            assert(t.last() == parts@[i as int]@);
            if i == 0 {
                assert(before =~= Seq::<char>::empty());
                assert(out@ =~= join_words(t));
            } else {
                assert(out@ =~= join_words(t));
            }
        }
        i = i + 1;
    }
    assert(views_of(parts@).take(parts.len() as int) =~= views_of(parts@));
    out
}

/// The decimal digit character for `d` (0 to 9).
pub open spec fn digit_char(d: nat) -> char {
    ((48 + d) as u32) as char
}

/// The decimal rendering of `n`, without leading zeros (what `Display`
/// prints for an unsigned integer).
pub open spec fn decimal(n: nat) -> Seq<char>
    decreases n,
{
    if n < 10 {
        seq![digit_char(n)]
    } else {
        decimal(n / 10).push(digit_char(n % 10))
    }
}

/// The decimal rendering of `n`.
pub fn decimal_chars(n: u64) -> (r: Vec<char>)
    ensures
        r@ == decimal(n as nat),
        forall|k: int| 0 <= k < r@.len() ==> crate::ports::is_digit(#[trigger] r@[k]),
        crate::ports::digits_value(r@) == n,
    decreases n,
{
    proof {
        crate::ports::law_decimal_reads_back(n as nat);
    }
    let d: u8 = (n % 10) as u8;
    let c: char = (48u8 + d) as char;
    if n < 10 {
        let mut v: Vec<char> = Vec::new();
        v.push(c);
        proof {
            assert(v@ =~= decimal(n as nat));
        }
        v
    } else {
        let mut v = decimal_chars(n / 10);
        v.push(c);
        v
    }
}

} // verus!
