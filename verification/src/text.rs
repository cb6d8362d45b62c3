//! Text operations on slices of characters. Each does what the function of the
//! same name in [`crate::strings`] says.

use vstd::prelude::*;
use vstd::slice::slice_subrange;

use crate::strings;

verus! {

/// `String::push` appends one character to the end of the string.
pub assume_specification[ String::push ](s: &mut String, c: char)
    ensures
        final(s)@ == old(s)@.push(c),
;

/// Whether `char::is_alphanumeric` holds of a character: whether it has the
/// Unicode `Alphabetic` property or is of a numeric category.
pub uninterp spec fn is_alphanumeric(c: char) -> bool;

/// `char::is_alphanumeric` is a property of the character alone. Among the
/// characters of ASCII it holds of the letters and the digits. Which of the
/// others it holds of is left to the Unicode tables.
pub assume_specification[ char::is_alphanumeric ](c: char) -> (r: bool)
    ensures
        r == is_alphanumeric(c),
        c <= '\u{7f}' ==> r == strings::is_ascii_alnum(c),
;

/// The text that `str::to_lowercase` makes of `s`.
pub uninterp spec fn lowercase(s: Seq<char>) -> Seq<char>;

/// `s` with the letters `A` to `Z` made small.
pub open spec fn ascii_lowercase(s: Seq<char>) -> Seq<char> {
    s.map_values(
        |c: char|
            if 'A' <= c <= 'Z' {
                (c as int + 32) as char
            } else {
                c
            },
    )
}

/// `str::to_lowercase` is a function of the text alone. In a text of ASCII
/// characters it changes the capital letters and nothing else; what it makes of
/// other characters is left to the Unicode tables.
pub assume_specification[ str::to_lowercase ](s: &str) -> (r: String)
    ensures
        r@ == lowercase(s@),
        s.is_ascii() ==> r@ == ascii_lowercase(s@),
;

/// `s` in small letters: the capitals of a text of ASCII characters made small, and
/// of any other text what the Unicode tables make of it.
pub open spec fn lowered(s: Seq<char>) -> Seq<char> {
    if vstd::utf8::is_ascii_chars(s) {
        ascii_lowercase(s)
    } else {
        lowercase(s)
    }
}

/// The text that the `Debug` form of a string is.
pub uninterp spec fn debug_form(s: Seq<char>) -> Seq<char>;

/// The `Debug` form of `str`, through `format!`: a function of the text alone.
/// Which characters it escapes, and how, is left to the standard library.
#[verifier::external_body]
pub(crate) fn debug_text(s: &str) -> (r: String)
    ensures
        r@ == debug_form(s@),
{
    format!("{:?}", s)
}

/// What each of the pieces holds.
pub open spec fn views(parts: Seq<&[char]>) -> Seq<Seq<char>> {
    Seq::new(parts.len(), |i: int| parts[i]@)
}

/// The characters of `s`.
pub fn chars_of(s: &str) -> (r: Vec<char>)
    ensures
        r@ == s@,
{
    let mut out: Vec<char> = Vec::new();
    for c in it: s.chars()
        invariant
            out@ == s@.take(it.index() as int),
            it.seq() == s@,
    {
        out.push(c);
    }
    out
}

/// The string made of `cs`.
pub fn string_of(cs: &[char]) -> (r: String)
    ensures
        r@ == cs@,
{
    let mut out = String::new();
    let mut i: usize = 0;
    while i < cs.len()
        invariant
            i <= cs@.len(),
            out@ == cs@.take(i as int),
        decreases cs@.len() - i,
    {
        out.push(cs[i]);
        i += 1;
    }
    out
}

/// Whether two slices hold the same characters.
pub fn same(a: &[char], b: &[char]) -> (r: bool)
    ensures
        r == (a@ == b@),
{
    if a.len() != b.len() {
        return false;
    }
    let mut i: usize = 0;
    while i < a.len()
        invariant
            i <= a@.len() == b@.len(),
            forall|j: int| 0 <= j < i ==> a@[j] == b@[j],
        decreases a@.len() - i,
    {
        if a[i] != b[i] {
            return false;
        }
        i += 1;
    }
    assert(a@ =~= b@);
    true
}

/// Whether `a` holds the characters of `lit`.
pub fn is_text(a: &[char], lit: &str) -> (r: bool)
    ensures
        r == (a@ == lit@),
{
    let b = chars_of(lit);
    same(a, b.as_slice())
}

/// Whether two strings hold the same characters.
pub fn same_str(a: &str, b: &str) -> (r: bool)
    ensures
        r == (a@ == b@),
{
    let x = chars_of(a);
    is_text(x.as_slice(), b)
}

pub fn is_white(c: char) -> (r: bool)
    ensures
        r == strings::is_white(c),
{
    ('\u{9}' <= c && c <= '\u{d}') || c == ' ' || c == '\u{85}' || c == '\u{a0}' || c == '\u{1680}'
        || ('\u{2000}' <= c && c <= '\u{200a}') || c == '\u{2028}' || c == '\u{2029}' || c
        == '\u{202f}' || c == '\u{205f}' || c == '\u{3000}'
}

pub fn is_control(c: char) -> (r: bool)
    ensures
        r == strings::is_control(c),
{
    c <= '\u{1f}' || ('\u{7f}' <= c && c <= '\u{9f}')
}

pub fn is_ascii_alnum(c: char) -> (r: bool)
    ensures
        r == strings::is_ascii_alnum(c),
{
    ('a' <= c && c <= 'z') || ('A' <= c && c <= 'Z') || ('0' <= c && c <= '9')
}

pub fn trim<'a>(s: &'a [char]) -> (r: &'a [char])
    ensures
        r@ == strings::trim(s@),
{
    let mut i: usize = 0;
    assert(s@.skip(0) =~= s@);
    while i < s.len() && is_white(s[i])
        invariant
            i <= s@.len(),
            strings::trim_start(s@) == strings::trim_start(s@.skip(i as int)),
        decreases s@.len() - i,
    {
        assert(s@.skip(i as int).skip(1) =~= s@.skip(i + 1));
        i += 1;
    }
    let ghost body = s@.skip(i as int);
    let mut j: usize = s.len();
    assert(s@.subrange(i as int, j as int) =~= body);
    while j > i && is_white(s[j - 1])
        invariant
            i <= j <= s@.len(),
            strings::trim_end(body) == strings::trim_end(s@.subrange(i as int, j as int)),
        decreases j,
    {
        assert(s@.subrange(i as int, j as int).drop_last() =~= s@.subrange(i as int, j - 1));
        j -= 1;
    }
    slice_subrange(s, i, j)
}

/// Whether `set` holds `c`.
pub fn is_one_of(c: char, set: &[char]) -> (r: bool)
    ensures
        r == set@.contains(c),
{
    let mut i: usize = 0;
    while i < set.len()
        invariant
            i <= set@.len(),
            forall|j: int| 0 <= j < i ==> set@[j] != c,
        decreases set@.len() - i,
    {
        if set[i] == c {
            return true;
        }
        i += 1;
    }
    false
}

pub fn trim_of<'a>(s: &'a [char], set: &[char]) -> (r: &'a [char])
    ensures
        r@ == strings::trim_of(s@, set@),
{
    let mut i: usize = 0;
    assert(s@.skip(0) =~= s@);
    while i < s.len() && is_one_of(s[i], set)
        invariant
            i <= s@.len(),
            strings::trim_start_of(s@, set@) == strings::trim_start_of(s@.skip(i as int), set@),
        decreases s@.len() - i,
    {
        assert(s@.skip(i as int).skip(1) =~= s@.skip(i + 1));
        i += 1;
    }
    let ghost body = s@.skip(i as int);
    let mut j: usize = s.len();
    assert(s@.subrange(i as int, j as int) =~= body);
    while j > i && is_one_of(s[j - 1], set)
        invariant
            i <= j <= s@.len(),
            strings::trim_end_of(body, set@) == strings::trim_end_of(
                s@.subrange(i as int, j as int),
                set@,
            ),
        decreases j,
    {
        assert(s@.subrange(i as int, j as int).drop_last() =~= s@.subrange(i as int, j - 1));
        j -= 1;
    }
    slice_subrange(s, i, j)
}

pub fn without_white(s: &[char]) -> (r: String)
    ensures
        r@ == strings::without_white(s@),
{
    let mut out = String::new();
    let mut i: usize = 0;
    while i < s.len()
        invariant
            i <= s@.len(),
            out@ == strings::without_white(s@.take(i as int)),
        decreases s@.len() - i,
    {
        assert(s@.take(i + 1).drop_last() =~= s@.take(i as int));
        if !is_white(s[i]) {
            out.push(s[i]);
        }
        i += 1;
    }
    assert(s@.take(i as int) =~= s@);
    out
}

pub fn first_at(s: &[char], c: char) -> (r: usize)
    ensures
        r == strings::first_at(s@, c),
        r <= s@.len(),
{
    let mut i: usize = 0;
    while i < s.len() && s[i] != c
        invariant
            i <= s@.len(),
            forall|j: int| 0 <= j < i ==> s@[j] != c,
        decreases s@.len() - i,
    {
        i += 1;
    }
    proof {
        strings::lemma_first_at_is(s@, c, i as int);
    }
    i
}

/// The place of the last `c`, or `None`.
pub fn last_at(s: &[char], c: char) -> (r: Option<usize>)
    ensures
        r == if strings::last_at(s@, c) >= 0 {
            Some(strings::last_at(s@, c) as usize)
        } else {
            None::<usize>
        },
        r matches Some(i) ==> i < s@.len() && i == strings::last_at(s@, c),
{
    let mut i: usize = s.len();
    while i > 0
        invariant
            i <= s@.len(),
            forall|j: int| i <= j < s@.len() ==> s@[j] != c,
        decreases i,
    {
        if s[i - 1] == c {
            proof {
                strings::lemma_last_at_is(s@, c, i - 1);
            }
            return Some(i - 1);
        }
        i -= 1;
    }
    proof {
        strings::lemma_last_at_is(s@, c, -1);
    }
    None
}

/// Whether `c` stands in `s`.
pub fn has_char(s: &[char], c: char) -> (r: bool)
    ensures
        r == s@.contains(c),
{
    is_one_of(c, s)
}

pub fn split<'a>(s: &'a [char], c: char) -> (r: Vec<&'a [char]>)
    ensures
        views(r@) == strings::split(s@, c),
        r@.len() >= 1,
{
    let mut out: Vec<&'a [char]> = Vec::new();
    let mut start: usize = 0;
    let mut i: usize = 0;
    assert(s@.skip(0) =~= s@);
    assert(views(out@) + strings::split(s@, c) =~= strings::split(s@, c));
    while i < s.len()
        invariant
            start <= i <= s@.len(),
            forall|j: int| start <= j < i ==> s@[j] != c,
            strings::split(s@, c) == views(out@) + strings::split(s@.skip(start as int), c),
        decreases s@.len() - i,
    {
        if s[i] == c {
            let ghost rest = s@.skip(start as int);
            proof {
                strings::lemma_first_at_is(rest, c, i - start);
                assert(rest.skip(i - start + 1) =~= s@.skip(i + 1));
                assert(rest.take(i - start) =~= s@.subrange(start as int, i as int));
            }
            let ghost before = views(out@);
            out.push(slice_subrange(s, start, i));
            assert(views(out@) =~= before.push(s@.subrange(start as int, i as int)));
            assert(strings::split(s@, c) =~= views(out@) + strings::split(s@.skip(i + 1), c));
            start = i + 1;
        }
        i += 1;
    }
    let ghost rest = s@.skip(start as int);
    proof {
        strings::lemma_first_at_is(rest, c, rest.len() as int);
        assert(rest =~= s@.subrange(start as int, s@.len() as int));
    }
    let ghost before = views(out@);
    out.push(slice_subrange(s, start, s.len()));
    assert(views(out@) =~= before.push(rest));
    assert(views(out@) =~= strings::split(s@, c));
    out
}

/// The parts before and after the first `c`.
pub fn split_once<'a>(s: &'a [char], c: char) -> (r: Option<(&'a [char], &'a [char])>)
    ensures
        match r {
            Some(p) => strings::split_once(s@, c) == Some((p.0@, p.1@)),
            None => strings::split_once(s@, c) is None,
        },
{
    let i = first_at(s, c);
    if i == s.len() {
        None
    } else {
        let a = slice_subrange(s, 0, i);
        let b = slice_subrange(s, i + 1, s.len());
        assert(a@ =~= s@.take(i as int));
        assert(b@ =~= s@.skip(i + 1));
        Some((a, b))
    }
}

pub fn before<'a>(s: &'a [char], c: char) -> (r: &'a [char])
    ensures
        r@ == strings::before(s@, c),
{
    let i = first_at(s, c);
    let r = slice_subrange(s, 0, i);
    assert(r@ =~= s@.take(i as int));
    r
}

pub fn after_last<'a>(s: &'a [char], c: char) -> (r: &'a [char])
    ensures
        r@ == strings::after_last(s@, c),
{
    match last_at(s, c) {
        Some(i) => {
            let n = s.len();
            let r = slice_subrange(s, i + 1, n);
            assert(r@ =~= s@.skip(i + 1));
            r
        },
        None => {
            proof {
                strings::lemma_last_at(s@, c);
                assert(s@.skip(0) =~= s@);
            }
            s
        },
    }
}

/// Whether `pat` stands in `s` at place `i`.
fn occurs_at(s: &[char], pat: &[char], i: usize) -> (r: bool)
    requires
        i <= s@.len(),
    ensures
        r == strings::occurs_at(s@, pat@, i as int),
{
    if pat.len() > s.len() - i {
        return false;
    }
    let part = slice_subrange(s, i, i + pat.len());
    same(part, pat)
}

/// The place of the first `pat`, or `None`.
pub fn first_text(s: &[char], pat: &[char]) -> (r: Option<usize>)
    ensures
        match r {
            Some(i) => strings::first_text(s@, pat@) == Some(i as int) && i + pat@.len()
                <= s@.len(),
            None => strings::first_text(s@, pat@) is None,
        },
{
    let mut i: usize = 0;
    loop
        invariant
            i <= s@.len(),
            forall|j: int| 0 <= j < i ==> !#[trigger] strings::occurs_at(s@, pat@, j),
        decreases s@.len() - i,
    {
        if occurs_at(s, pat, i) {
            proof {
                strings::lemma_first_text_is(s@, pat@, i as int);
            }
            return Some(i);
        }
        if i == s.len() {
            proof {
                strings::lemma_first_text(s@, pat@);
                if let Some(n) = strings::first_text(s@, pat@) {
                    assert(strings::occurs_at(s@, pat@, n));
                }
            }
            return None;
        }
        i += 1;
    }
}

pub fn split_text<'a>(s: &'a [char], pat: &[char]) -> (r: Vec<&'a [char]>)
    requires
        pat@.len() > 0,
    ensures
        views(r@) == strings::split_text(s@, pat@),
{
    let mut out: Vec<&'a [char]> = Vec::new();
    let mut start: usize = 0;
    let n = s.len();
    assert(s@.skip(0) =~= s@);
    assert(views(out@) + strings::split_text(s@, pat@) =~= strings::split_text(s@, pat@));
    loop
        invariant
            start <= s@.len(),
            n == s@.len(),
            pat@.len() > 0,
            strings::split_text(s@, pat@) == views(out@) + strings::split_text(
                s@.skip(start as int),
                pat@,
            ),
        decreases s@.len() - start,
    {
        let rest = slice_subrange(s, start, n);
        assert(rest@ =~= s@.skip(start as int));
        let ghost before = views(out@);
        match first_text(rest, pat) {
            Some(i) => {
                let piece = slice_subrange(rest, 0, i);
                assert(piece@ =~= rest@.take(i as int));
                assert(rest@.skip(i + pat@.len()) =~= s@.skip(start + i + pat@.len()));
                out.push(piece);
                assert(views(out@) =~= before.push(piece@));
                assert(before + (seq![piece@] + strings::split_text(
                    s@.skip(start + i + pat@.len()),
                    pat@,
                )) =~= views(out@) + strings::split_text(
                    s@.skip(start + i + pat@.len()),
                    pat@,
                ));
                start = start + i + pat.len();
            },
            None => {
                out.push(rest);
                assert(views(out@) =~= before.push(rest@));
                assert(views(out@) =~= strings::split_text(s@, pat@));
                return out;
            },
        }
    }
}

pub fn contains_text(s: &[char], pat: &[char]) -> (r: bool)
    ensures
        r == strings::contains_text(s@, pat@),
{
    let r = first_text(s, pat);
    proof {
        strings::lemma_first_text(s@, pat@);
        if let Some(i) = r {
            assert(strings::occurs_at(s@, pat@, i as int));
        }
    }
    r.is_some()
}

pub fn starts_with(s: &[char], lit: &str) -> (r: bool)
    ensures
        r == strings::starts_with(s@, lit@),
{
    let p = chars_of(lit);
    if p.len() > s.len() {
        return false;
    }
    let head = slice_subrange(s, 0, p.len());
    assert(head@ =~= s@.take(p@.len() as int));
    same(head, p.as_slice())
}

pub fn strip_prefix<'a>(s: &'a [char], lit: &str) -> (r: Option<&'a [char]>)
    ensures
        match r {
            Some(t) => strings::strip_prefix(s@, lit@) == Some(t@),
            None => strings::strip_prefix(s@, lit@) is None,
        },
{
    let p = chars_of(lit);
    if p.len() > s.len() {
        return None;
    }
    let head = slice_subrange(s, 0, p.len());
    assert(head@ =~= s@.take(p@.len() as int));
    if same(head, p.as_slice()) {
        let t = slice_subrange(s, p.len(), s.len());
        assert(t@ =~= s@.skip(p@.len() as int));
        Some(t)
    } else {
        None
    }
}

pub fn strip_suffix<'a>(s: &'a [char], lit: &str) -> (r: Option<&'a [char]>)
    ensures
        match r {
            Some(t) => strings::strip_suffix(s@, lit@) == Some(t@),
            None => strings::strip_suffix(s@, lit@) is None,
        },
{
    let p = chars_of(lit);
    if p.len() > s.len() {
        return None;
    }
    let cut = s.len() - p.len();
    let tail = slice_subrange(s, cut, s.len());
    assert(tail@ =~= s@.skip(cut as int));
    if same(tail, p.as_slice()) {
        let t = slice_subrange(s, 0, cut);
        assert(t@ =~= s@.take(cut as int));
        Some(t)
    } else {
        None
    }
}

/// What each of the strings holds.
pub open spec fn string_views(parts: Seq<String>) -> Seq<Seq<char>> {
    Seq::new(parts.len(), |i: int| parts[i]@)
}

pub fn join(parts: &[String], sep: &str) -> (r: String)
    ensures
        r@ == strings::join(string_views(parts@), sep@),
{
    let mut out = String::new();
    let mut i: usize = 0;
    let ghost all = string_views(parts@);
    while i < parts.len()
        invariant
            i <= parts@.len(),
            all == string_views(parts@),
            out@ == strings::join(all.take(i as int), sep@),
        decreases parts@.len() - i,
    {
        let ghost now = all.take(i + 1);
        assert(now.drop_last() =~= all.take(i as int));
        if i > 0 {
            out.append(sep);
            out.append(parts[i].as_str());
        } else {
            assert(out@ =~= seq![]);
            out.append(parts[i].as_str());
            assert(out@ =~= parts@[0]@);
        }
        i += 1;
    }
    assert(all.take(i as int) =~= all);
    out
}

pub fn replace(s: &[char], c: char, with: &str) -> (r: String)
    ensures
        r@ == strings::replace(s@, c, with@),
{
    let mut out = String::new();
    let mut i: usize = 0;
    while i < s.len()
        invariant
            i <= s@.len(),
            out@ == strings::replace(s@.take(i as int), c, with@),
        decreases s@.len() - i,
    {
        assert(s@.take(i + 1).drop_last() =~= s@.take(i as int));
        if s[i] == c {
            out.append(with);
        } else {
            out.push(s[i]);
        }
        i += 1;
    }
    assert(s@.take(i as int) =~= s@);
    out
}

pub fn lines<'a>(s: &'a [char]) -> (r: Vec<&'a [char]>)
    ensures
        views(r@) == strings::lines(s@),
{
    let mut out: Vec<&'a [char]> = Vec::new();
    let mut start: usize = 0;
    let mut i: usize = 0;
    assert(s@.skip(0) =~= s@);
    assert(views(out@) + strings::lines(s@) =~= strings::lines(s@));
    while i < s.len()
        invariant
            start <= i <= s@.len(),
            forall|j: int| start <= j < i ==> s@[j] != '\n',
            strings::lines(s@) == views(out@) + strings::lines(s@.skip(start as int)),
        decreases s@.len() - i,
    {
        if s[i] == '\n' {
            let ghost rest = s@.skip(start as int);
            proof {
                strings::lemma_first_at_is(rest, '\n', i - start);
                assert(rest.skip(i - start + 1) =~= s@.skip(i + 1));
                assert(rest.take(i - start) =~= s@.subrange(start as int, i as int));
            }
            let ghost before = views(out@);
            let end: usize = if i > start && s[i - 1] == '\r' {
                i - 1
            } else {
                i
            };
            let line = slice_subrange(s, start, end);
            assert(line@ =~= strings::line_of(rest.take(i - start)));
            out.push(line);
            assert(views(out@) =~= before.push(line@));
            assert(strings::lines(s@) =~= views(out@) + strings::lines(s@.skip(i + 1)));
            start = i + 1;
        }
        i += 1;
    }
    let ghost rest = s@.skip(start as int);
    proof {
        strings::lemma_first_at_is(rest, '\n', rest.len() as int);
        assert(rest =~= s@.subrange(start as int, s@.len() as int));
    }
    if start < s.len() {
        let ghost before = views(out@);
        out.push(slice_subrange(s, start, s.len()));
        assert(views(out@) =~= before.push(rest));
    }
    assert(views(out@) =~= strings::lines(s@));
    out
}

/// The digit that `c` is to base `radix`.
fn digit(c: char, radix: u64) -> (r: Option<u64>)
    requires
        2 <= radix <= 10,
    ensures
        match r {
            Some(v) => strings::is_digit(c, radix as int) && v == strings::digit(c),
            None => !strings::is_digit(c, radix as int),
        },
{
    let v: u64 = match c {
        '0' => 0,
        '1' => 1,
        '2' => 2,
        '3' => 3,
        '4' => 4,
        '5' => 5,
        '6' => 6,
        '7' => 7,
        '8' => 8,
        '9' => 9,
        _ => 10,
    };
    if v < radix {
        Some(v)
    } else {
        None
    }
}

/// The unsigned number that `s` writes to base `radix`.
pub fn parse_unsigned(s: &[char], radix: u64) -> (r: Option<u64>)
    requires
        2 <= radix <= 10,
    ensures
        r == strings::parse_unsigned(s@, radix as int),
{
    let start: usize = if s.len() > 0 && s[0] == '+' {
        1
    } else {
        0
    };
    let ghost d = strings::without_plus(s@);
    assert(d =~= s@.skip(start as int));
    if start == s.len() {
        return None;
    }
    let mut i: usize = start;
    while i < s.len()
        invariant
            start <= i <= s@.len(),
            2 <= radix <= 10,
            d == s@.skip(start as int),
            d == strings::without_plus(s@),
            forall|j: int| 0 <= j < i - start ==> strings::is_digit(#[trigger] d[j], radix as int),
        decreases s@.len() - i,
    {
        let c = s[i];
        assert(d[i - start] == c);
        if digit(c, radix).is_none() {
            assert(!strings::is_digit(d[i - start], radix as int));
            return None;
        }
        i += 1;
    }
    let mut total: u64 = 0;
    i = start;
    while i < s.len()
        invariant
            start <= i <= s@.len(),
            2 <= radix <= 10,
            d == s@.skip(start as int),
            d.len() > 0,
            d == strings::without_plus(s@),
            forall|j: int| 0 <= j < d.len() ==> strings::is_digit(#[trigger] d[j], radix as int),
            total == strings::number(d.take(i - start), radix as int),
        decreases s@.len() - i,
    {
        let c = s[i];
        assert(d[i - start] == c);
        let v: u64 = match digit(c, radix) {
            Some(v) => v,
            None => 0,
        };
        assert(strings::is_digit(d[i - start], radix as int));
        proof {
            let next = d.take(i - start + 1);
            assert(next.drop_last() =~= d.take(i - start));
            assert(next.last() == c);
            strings::lemma_number_grows(d, radix as int, i - start + 1);
        }
        match total.checked_mul(radix) {
            Some(t) => match t.checked_add(v) {
                Some(u) => {
                    total = u;
                },
                None => {
                    return None;
                },
            },
            None => {
                return None;
            },
        }
        i += 1;
    }
    assert(d.take(i - start) =~= d);
    Some(total)
}

} // verus!
