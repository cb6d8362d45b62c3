//! What the text operations of this crate mean, as functions on sequences of
//! characters, with the facts about them that the proofs rest on.

use vstd::prelude::*;

verus! {

/// A code point with the Unicode `White_Space` property.
pub open spec fn is_white(c: char) -> bool {
    ||| '\u{9}' <= c <= '\u{d}'
    ||| c == ' '
    ||| c == '\u{85}'
    ||| c == '\u{a0}'
    ||| c == '\u{1680}'
    ||| '\u{2000}' <= c <= '\u{200a}'
    ||| c == '\u{2028}'
    ||| c == '\u{2029}'
    ||| c == '\u{202f}'
    ||| c == '\u{205f}'
    ||| c == '\u{3000}'
}

/// A code point of the Unicode general category `Cc`.
pub open spec fn is_control(c: char) -> bool {
    c <= '\u{1f}' || '\u{7f}' <= c <= '\u{9f}'
}

/// A letter or digit of ASCII.
pub open spec fn is_ascii_alnum(c: char) -> bool {
    'a' <= c <= 'z' || 'A' <= c <= 'Z' || '0' <= c <= '9'
}

/// `s` without its leading white space.
pub open spec fn trim_start(s: Seq<char>) -> Seq<char>
    decreases s.len(),
{
    if s.len() > 0 && is_white(s[0]) {
        trim_start(s.skip(1))
    } else {
        s
    }
}

/// `s` without its trailing white space.
pub open spec fn trim_end(s: Seq<char>) -> Seq<char>
    decreases s.len(),
{
    if s.len() > 0 && is_white(s.last()) {
        trim_end(s.drop_last())
    } else {
        s
    }
}

/// `s` without white space at either end.
pub open spec fn trim(s: Seq<char>) -> Seq<char> {
    trim_end(trim_start(s))
}

/// `s` without its leading characters that occur in `set`.
pub open spec fn trim_start_of(s: Seq<char>, set: Seq<char>) -> Seq<char>
    decreases s.len(),
{
    if s.len() > 0 && set.contains(s[0]) {
        trim_start_of(s.skip(1), set)
    } else {
        s
    }
}

/// `s` without its trailing characters that occur in `set`.
pub open spec fn trim_end_of(s: Seq<char>, set: Seq<char>) -> Seq<char>
    decreases s.len(),
{
    if s.len() > 0 && set.contains(s.last()) {
        trim_end_of(s.drop_last(), set)
    } else {
        s
    }
}

/// `s` without the characters of `set` at either end.
pub open spec fn trim_of(s: Seq<char>, set: Seq<char>) -> Seq<char> {
    trim_end_of(trim_start_of(s, set), set)
}

/// `s` without any of its white space.
pub open spec fn without_white(s: Seq<char>) -> Seq<char>
    decreases s.len(),
{
    if s.len() == 0 {
        s
    } else if is_white(s.last()) {
        without_white(s.drop_last())
    } else {
        without_white(s.drop_last()).push(s.last())
    }
}

/// The place of the first `c` in `s`, or the length of `s` where there is none.
pub open spec fn first_at(s: Seq<char>, c: char) -> int
    decreases s.len(),
{
    if s.len() == 0 || s[0] == c {
        0
    } else {
        1 + first_at(s.skip(1), c)
    }
}

/// The place of the last `c` in `s`, or -1 where there is none.
pub open spec fn last_at(s: Seq<char>, c: char) -> int
    decreases s.len(),
{
    if s.len() == 0 {
        -1
    } else if s.last() == c {
        s.len() - 1
    } else {
        last_at(s.drop_last(), c)
    }
}

/// The pieces of `s` between the occurrences of `c`.
pub open spec fn split(s: Seq<char>, c: char) -> Seq<Seq<char>>
    decreases s.len(),
{
    proof {
        lemma_first_at(s, c);
    }
    let i = first_at(s, c);
    if i == s.len() {
        seq![s]
    } else {
        seq![s.take(i)] + split(s.skip(i + 1), c)
    }
}

/// The parts before and after the first `c` in `s`.
pub open spec fn split_once(s: Seq<char>, c: char) -> Option<(Seq<char>, Seq<char>)> {
    let i = first_at(s, c);
    if i == s.len() {
        None
    } else {
        Some((s.take(i), s.skip(i + 1)))
    }
}

/// The part of `s` before the first `c`, or the whole of `s`.
pub open spec fn before(s: Seq<char>, c: char) -> Seq<char> {
    s.take(first_at(s, c))
}

/// The part of `s` after the last `c`, or the whole of `s`.
pub open spec fn after_last(s: Seq<char>, c: char) -> Seq<char> {
    s.skip(last_at(s, c) + 1)
}

/// `pat` stands in `s` at place `i`.
pub open spec fn occurs_at(s: Seq<char>, pat: Seq<char>, i: int) -> bool {
    &&& 0 <= i
    &&& i + pat.len() <= s.len()
    &&& s.subrange(i, i + pat.len()) == pat
}

/// `pat` stands somewhere in `s`.
pub open spec fn contains_text(s: Seq<char>, pat: Seq<char>) -> bool {
    exists|i: int| #[trigger] occurs_at(s, pat, i)
}

/// The place of the first `pat` in `s`, or `None`.
pub open spec fn first_text(s: Seq<char>, pat: Seq<char>) -> Option<int>
    decreases s.len(),
{
    if occurs_at(s, pat, 0) {
        Some(0)
    } else if s.len() == 0 {
        None
    } else {
        match first_text(s.skip(1), pat) {
            Some(i) => Some(i + 1),
            None => None,
        }
    }
}

/// The pieces of `s` between the `pat`s, of which each starts where the one before
/// it has ended.
pub open spec fn split_text(s: Seq<char>, pat: Seq<char>) -> Seq<Seq<char>>
    decreases s.len(),
{
    if pat.len() == 0 {
        seq![s]
    } else {
        proof {
            lemma_first_text(s, pat);
        }
        match first_text(s, pat) {
            Some(i) => seq![s.take(i)] + split_text(s.skip(i + pat.len()), pat),
            None => seq![s],
        }
    }
}

/// `s` begins with `p`.
pub open spec fn starts_with(s: Seq<char>, p: Seq<char>) -> bool {
    p.len() <= s.len() && s.take(p.len() as int) == p
}

/// `s` ends with `p`.
pub open spec fn ends_with(s: Seq<char>, p: Seq<char>) -> bool {
    p.len() <= s.len() && s.skip(s.len() - p.len()) == p
}

/// What follows the prefix `p` of `s`, where `s` begins with it.
pub open spec fn strip_prefix(s: Seq<char>, p: Seq<char>) -> Option<Seq<char>> {
    if starts_with(s, p) {
        Some(s.skip(p.len() as int))
    } else {
        None
    }
}

/// What precedes the suffix `p` of `s`, where `s` ends with it.
pub open spec fn strip_suffix(s: Seq<char>, p: Seq<char>) -> Option<Seq<char>> {
    if ends_with(s, p) {
        Some(s.take(s.len() - p.len()))
    } else {
        None
    }
}

/// The parts one after another, with `sep` between neighbours.
pub open spec fn join(parts: Seq<Seq<char>>, sep: Seq<char>) -> Seq<char>
    decreases parts.len(),
{
    if parts.len() == 0 {
        seq![]
    } else if parts.len() == 1 {
        parts[0]
    } else {
        join(parts.drop_last(), sep) + sep + parts.last()
    }
}

/// `s` with every `c` replaced by `with`.
pub open spec fn replace(s: Seq<char>, c: char, with: Seq<char>) -> Seq<char>
    decreases s.len(),
{
    if s.len() == 0 {
        seq![]
    } else {
        replace(s.drop_last(), c, with) + if s.last() == c {
            with
        } else {
            seq![s.last()]
        }
    }
}

/// One line without its carriage return.
pub open spec fn line_of(s: Seq<char>) -> Seq<char> {
    if s.len() > 0 && s.last() == '\r' {
        s.drop_last()
    } else {
        s
    }
}

/// The lines of `s`: the pieces that newlines end, without the newline and a
/// carriage return before it, and what follows the last newline where that is
/// not empty.
pub open spec fn lines(s: Seq<char>) -> Seq<Seq<char>>
    decreases s.len(),
{
    proof {
        lemma_first_at(s, '\n');
    }
    let i = first_at(s, '\n');
    if s.len() == 0 {
        seq![]
    } else if i == s.len() {
        seq![s]
    } else {
        seq![line_of(s.take(i))] + lines(s.skip(i + 1))
    }
}

/// The digit that `c` is, where it is one below ten.
pub open spec fn digit(c: char) -> int {
    c as int - '0' as int
}

/// `c` is a digit of numbers written to base `radix`, which is at most ten.
pub open spec fn is_digit(c: char, radix: int) -> bool {
    '0' <= c && digit(c) < radix
}

/// The number that the digits `s` write to base `radix`.
pub open spec fn number(s: Seq<char>, radix: int) -> int
    decreases s.len(),
{
    if s.len() == 0 {
        0
    } else {
        number(s.drop_last(), radix) * radix + digit(s.last())
    }
}

/// The digits of an unsigned number, which may have a plus sign before them.
pub open spec fn without_plus(s: Seq<char>) -> Seq<char> {
    if s.len() > 0 && s[0] == '+' {
        s.skip(1)
    } else {
        s
    }
}

/// The 64-bit unsigned number that `s` writes to base `radix`: an optional plus
/// sign, then one or more digits, and nothing else.
pub open spec fn parse_unsigned(s: Seq<char>, radix: int) -> Option<u64> {
    let d = without_plus(s);
    if d.len() > 0 && (forall|i: int| 0 <= i < d.len() ==> is_digit(#[trigger] d[i], radix))
        && number(d, radix) <= u64::MAX {
        Some(number(d, radix) as u64)
    } else {
        None
    }
}

/// `first_at` is within `s`, finds `c`, and passes none over.
pub proof fn lemma_first_at(s: Seq<char>, c: char)
    ensures
        0 <= first_at(s, c) <= s.len(),
        forall|j: int| 0 <= j < first_at(s, c) ==> s[j] != c,
        first_at(s, c) < s.len() ==> s[first_at(s, c)] == c,
    decreases s.len(),
{
    if s.len() > 0 && s[0] != c {
        lemma_first_at(s.skip(1), c);
        let n = first_at(s.skip(1), c);
        assert forall|j: int| 0 <= j < first_at(s, c) implies s[j] != c by {
            if j > 0 {
                assert(s.skip(1)[j - 1] == s[j]);
            }
        }
        if n < s.skip(1).len() {
            assert(s.skip(1)[n] == s[n + 1]);
        }
    }
}

/// The place that holds `c` with none before it is `first_at`.
pub proof fn lemma_first_at_is(s: Seq<char>, c: char, i: int)
    requires
        0 <= i <= s.len(),
        forall|j: int| 0 <= j < i ==> s[j] != c,
        i < s.len() ==> s[i] == c,
    ensures
        first_at(s, c) == i,
{
    lemma_first_at(s, c);
    let n = first_at(s, c);
    if n < i {
        assert(s[n] != c);
    }
}

/// `last_at` is within `s`, finds `c`, and passes none over.
pub proof fn lemma_last_at(s: Seq<char>, c: char)
    ensures
        -1 <= last_at(s, c) < s.len(),
        forall|j: int| last_at(s, c) < j < s.len() ==> s[j] != c,
        last_at(s, c) >= 0 ==> s[last_at(s, c)] == c,
    decreases s.len(),
{
    if s.len() > 0 && s.last() != c {
        lemma_last_at(s.drop_last(), c);
        assert forall|j: int| last_at(s, c) < j < s.len() implies s[j] != c by {
            if j < s.len() - 1 {
                assert(s.drop_last()[j] == s[j]);
            }
        }
    }
}

/// The place that holds `c` with none after it is `last_at`.
pub proof fn lemma_last_at_is(s: Seq<char>, c: char, i: int)
    requires
        -1 <= i < s.len(),
        forall|j: int| i < j < s.len() ==> s[j] != c,
        i >= 0 ==> s[i] == c,
    ensures
        last_at(s, c) == i,
{
    lemma_last_at(s, c);
    let n = last_at(s, c);
    if n > i {
        assert(s[n] != c);
    }
}

/// Trimming at the end keeps the start, unless nothing but white space is there.
proof fn lemma_trim_end_first(s: Seq<char>)
    ensures
        s.len() > 0 && !is_white(s[0]) ==> trim_end(s).len() > 0 && trim_end(s)[0] == s[0],
    decreases s.len(),
{
    if s.len() > 0 && is_white(s.last()) {
        lemma_trim_end_first(s.drop_last());
    }
}

/// Before the first character that trimming leaves stands white space alone; the
/// place of that character is handed out, the length of `s` where none is left.
pub proof fn lemma_trim_first(s: Seq<char>) -> (k: int)
    ensures
        0 <= k <= s.len(),
        forall|j: int| 0 <= j < k ==> is_white(s[j]),
        trim(s).len() == 0 ==> k == s.len(),
        trim(s).len() > 0 ==> k < s.len() && trim(s)[0] == s[k],
    decreases s.len(),
{
    if s.len() > 0 && is_white(s[0]) {
        let n = lemma_trim_first(s.skip(1));
        assert forall|j: int| 0 <= j < n + 1 implies is_white(s[j]) by {
            if j > 0 {
                assert(s.skip(1)[j - 1] == s[j]);
            }
        }
        n + 1
    } else {
        lemma_trim_end_first(s);
        0
    }
}

/// Trimming makes nothing longer.
pub proof fn lemma_trim_len(s: Seq<char>)
    ensures
        trim_start(s).len() <= s.len(),
        trim_end(s).len() <= s.len(),
        trim(s).len() <= s.len(),
    decreases s.len(),
{
    if s.len() > 0 {
        lemma_trim_len(s.skip(1));
        lemma_trim_len(s.drop_last());
    }
    if trim_start(s).len() < s.len() {
        lemma_trim_len(trim_start(s));
    }
}

/// A text splits into at least one piece.
pub proof fn lemma_split_nonempty(s: Seq<char>, c: char)
    ensures
        split(s, c).len() >= 1,
    decreases s.len(),
{
    lemma_first_at(s, c);
}

/// The number that more digits write is no smaller.
pub proof fn lemma_number_grows(s: Seq<char>, radix: int, i: int)
    requires
        0 <= i <= s.len(),
        1 <= radix,
        forall|j: int| 0 <= j < s.len() ==> is_digit(#[trigger] s[j], radix),
    ensures
        0 <= number(s.take(i), radix) <= number(s, radix),
    decreases s.len(),
{
    if i < s.len() {
        let p = s.drop_last();
        assert forall|j: int| 0 <= j < p.len() implies is_digit(#[trigger] p[j], radix) by {
            assert(p[j] == s[j]);
        }
        lemma_number_grows(p, radix, i);
        assert(p.take(i) =~= s.take(i));
        assert(is_digit(s[s.len() - 1], radix));
        let n = number(p, radix);
        assert(n <= n * radix) by (nonlinear_arith)
            requires
                0 <= n,
                1 <= radix,
        ;
    } else {
        assert(s.take(i) =~= s);
        if s.len() > 0 {
            let p = s.drop_last();
            assert forall|j: int| 0 <= j < p.len() implies is_digit(#[trigger] p[j], radix) by {
                assert(p[j] == s[j]);
            }
            lemma_number_grows(p, radix, p.len() as int);
            assert(p.take(p.len() as int) =~= p);
            assert(is_digit(s[s.len() - 1], radix));
            let n = number(p, radix);
            assert(0 <= n * radix) by (nonlinear_arith)
                requires
                    0 <= n,
                    1 <= radix,
            ;
        }
    }
}

/// Where `pat` first stands in `s`.
pub proof fn lemma_first_text(s: Seq<char>, pat: Seq<char>)
    ensures
        first_text(s, pat) matches Some(i) ==> occurs_at(s, pat, i) && forall|j: int|
            0 <= j < i ==> !#[trigger] occurs_at(s, pat, j),
        first_text(s, pat) is None ==> !contains_text(s, pat),
    decreases s.len(),
{
    if !occurs_at(s, pat, 0) && s.len() > 0 {
        let t = s.skip(1);
        lemma_first_text(t, pat);
        assert forall|j: int| 0 < j implies occurs_at(s, pat, j) == #[trigger] occurs_at(
            t,
            pat,
            j - 1,
        ) by {
            if j + pat.len() <= s.len() {
                assert(s.subrange(j, j + pat.len()) =~= t.subrange(j - 1, j - 1 + pat.len()));
            }
        }
        if let Some(i) = first_text(t, pat) {
            assert(occurs_at(t, pat, i));
            assert(occurs_at(s, pat, i + 1) == occurs_at(t, pat, i + 1 - 1));
            assert forall|j: int| 0 <= j < i + 1 implies !#[trigger] occurs_at(s, pat, j) by {
                if j > 0 {
                    assert(occurs_at(s, pat, j) == occurs_at(t, pat, j - 1));
                }
            }
        } else {
            assert forall|j: int| !#[trigger] occurs_at(s, pat, j) by {
                if j > 0 {
                    assert(occurs_at(s, pat, j) == occurs_at(t, pat, j - 1));
                }
            }
        }
    } else if s.len() == 0 && !occurs_at(s, pat, 0) {
        assert forall|j: int| !#[trigger] occurs_at(s, pat, j) by {
            if occurs_at(s, pat, j) {
                assert(j == 0);
            }
        }
    }
}

/// The place where `pat` stands with no earlier one is `first_text`.
pub proof fn lemma_first_text_is(s: Seq<char>, pat: Seq<char>, i: int)
    requires
        occurs_at(s, pat, i),
        forall|j: int| 0 <= j < i ==> !#[trigger] occurs_at(s, pat, j),
    ensures
        first_text(s, pat) == Some(i),
{
    lemma_first_text(s, pat);
    assert(contains_text(s, pat));
    let n = first_text(s, pat)->0;
    assert(occurs_at(s, pat, n));
}

/// A text holds itself.
pub proof fn lemma_contains_itself(s: Seq<char>)
    ensures
        contains_text(s, s),
{
    assert(s.subrange(0, s.len() as int) =~= s);
    assert(occurs_at(s, s, 0));
}

/// A text that stands in the middle of another is held by it.
pub proof fn lemma_contains_middle(a: Seq<char>, b: Seq<char>, c: Seq<char>)
    ensures
        contains_text(a + b + c, b),
{
    let s = a + b + c;
    assert(s.subrange(a.len() as int, a.len() as int + b.len()) =~= b);
    assert(occurs_at(s, b, a.len() as int));
}

/// What a part of a text holds, the text holds.
pub proof fn lemma_contains_transitive(a: Seq<char>, b: Seq<char>, c: Seq<char>)
    requires
        contains_text(a, b),
        contains_text(b, c),
    ensures
        contains_text(a, c),
{
    let i = choose|i: int| #[trigger] occurs_at(a, b, i);
    let j = choose|j: int| #[trigger] occurs_at(b, c, j);
    assert(a.subrange(i + j, i + j + c.len()) =~= b.subrange(j, j + c.len()));
    assert(occurs_at(a, c, i + j));
}

/// A joined text holds each of its parts.
pub proof fn lemma_join_contains(parts: Seq<Seq<char>>, sep: Seq<char>, i: int)
    requires
        0 <= i < parts.len(),
    ensures
        contains_text(join(parts, sep), parts[i]),
    decreases parts.len(),
{
    let whole = join(parts, sep);
    if parts.len() == 1 {
        lemma_contains_itself(whole);
    } else if i == parts.len() - 1 {
        let front = join(parts.drop_last(), sep) + sep;
        lemma_contains_middle(front, parts[i], seq![]);
        assert(front + parts[i] + seq![] =~= whole);
    } else {
        let front = parts.drop_last();
        lemma_join_contains(front, sep, i);
        assert(front[i] == parts[i]);
        let back = sep + parts.last();
        lemma_contains_middle(seq![], join(front, sep), back);
        assert(seq![] + join(front, sep) + back =~= whole);
        lemma_contains_transitive(whole, join(front, sep), parts[i]);
    }
}

/// The last piece of a split text is what follows the last separator.
pub proof fn lemma_split_last(s: Seq<char>, c: char)
    ensures
        split(s, c).len() >= 1,
        split(s, c).last() == after_last(s, c),
    decreases s.len(),
{
    lemma_first_at(s, c);
    lemma_last_at(s, c);
    let i = first_at(s, c);
    if i == s.len() {
        lemma_last_at_is(s, c, -1);
        assert(s.skip(0) =~= s);
    } else {
        let rest = s.skip(i + 1);
        lemma_split_last(rest, c);
        lemma_last_at(rest, c);
        let j = last_at(rest, c);
        assert forall|m: int| i + 1 + j < m < s.len() implies s[m] != c by {
            assert(s[m] == rest[m - i - 1]);
        }
        lemma_last_at_is(s, c, i + 1 + j);
        assert(rest.skip(j + 1) =~= s.skip(i + 1 + j + 1));
    }
}

/// A text that holds no separator is one piece.
pub proof fn lemma_split_one(s: Seq<char>, c: char)
    requires
        !s.contains(c),
    ensures
        split(s, c) == seq![s],
{
    assert forall|j: int| 0 <= j < s.len() implies s[j] != c by {
        assert(s.contains(s[j]));
    }
    lemma_first_at_is(s, c, s.len() as int);
}

/// A text, a separator and a text without one: the last is one more piece.
proof fn lemma_split_push(a: Seq<char>, c: char, b: Seq<char>)
    requires
        !b.contains(c),
    ensures
        split(a + seq![c] + b, c) == split(a, c).push(b),
    decreases a.len(),
{
    let s = a + seq![c] + b;
    lemma_first_at(a, c);
    let i = first_at(a, c);
    if i == a.len() {
        assert(s[i] == c);
        assert forall|j: int| 0 <= j < i implies s[j] != c by {
            assert(s[j] == a[j]);
        }
        lemma_first_at_is(s, c, i);
        assert(s.take(i) =~= a);
        assert(s.skip(i + 1) =~= b);
        lemma_split_one(b, c);
        assert(split(s, c) =~= split(a, c).push(b));
    } else {
        assert(s[i] == a[i]);
        assert forall|j: int| 0 <= j < i implies s[j] != c by {
            assert(s[j] == a[j]);
        }
        lemma_first_at_is(s, c, i);
        assert(s.take(i) =~= a.take(i));
        assert(s.skip(i + 1) =~= a.skip(i + 1) + seq![c] + b);
        lemma_split_push(a.skip(i + 1), c, b);
        assert(split(s, c) =~= split(a, c).push(b));
    }
}

/// Two texts with `c` between them are split apart from each other.
pub proof fn lemma_split_between(a: Seq<char>, c: char, b: Seq<char>)
    ensures
        split(a + seq![c] + b, c) == split(a, c) + split(b, c),
    decreases a.len(),
{
    let whole = a + seq![c] + b;
    lemma_first_at(a, c);
    let i = first_at(a, c);
    lemma_first_at_is(whole, c, i);
    assert(whole.take(i) =~= a.take(i));
    if i == a.len() {
        assert(a.take(i) =~= a);
        assert(whole.skip(i + 1) =~= b);
    } else {
        let rest = a.skip(i + 1);
        lemma_split_between(rest, c, b);
        assert(whole.skip(i + 1) =~= rest + seq![c] + b);
        assert(seq![a.take(i)] + (split(rest, c) + split(b, c)) =~= split(a, c) + split(b, c));
    }
}

/// Parts that hold no separator are what their join splits into.
pub proof fn lemma_split_join(parts: Seq<Seq<char>>, c: char)
    requires
        parts.len() > 0,
        forall|i: int| 0 <= i < parts.len() ==> !(#[trigger] parts[i]).contains(c),
    ensures
        split(join(parts, seq![c]), c) == parts,
    decreases parts.len(),
{
    if parts.len() == 1 {
        lemma_split_one(parts[0], c);
        assert(seq![parts[0]] =~= parts);
    } else {
        let front = parts.drop_last();
        assert forall|i: int| 0 <= i < front.len() implies !(#[trigger] front[i]).contains(c) by {
            assert(front[i] == parts[i]);
        }
        lemma_split_join(front, c);
        lemma_split_push(join(front, seq![c]), c, parts.last());
        assert(front.push(parts.last()) =~= parts);
    }
}

/// Replacing goes on from the front as it does from the end.
pub proof fn lemma_replace_front(s: Seq<char>, c: char, with: Seq<char>)
    requires
        s.len() > 0,
    ensures
        replace(s, c, with) == (if s[0] == c {
            with
        } else {
            seq![s[0]]
        }) + replace(s.skip(1), c, with),
    decreases s.len(),
{
    let head = if s[0] == c {
        with
    } else {
        seq![s[0]]
    };
    if s.len() == 1 {
        assert(s.drop_last() =~= seq![]);
        assert(s.skip(1) =~= seq![]);
        assert(replace(s, c, with) =~= head + replace(s.skip(1), c, with));
    } else {
        lemma_replace_front(s.drop_last(), c, with);
        assert(s.drop_last().skip(1) =~= s.skip(1).drop_last());
        assert(replace(s, c, with) =~= head + replace(s.skip(1), c, with));
    }
}

/// All of the characters are white space.
pub open spec fn all_white(s: Seq<char>) -> bool {
    forall|i: int| 0 <= i < s.len() ==> is_white(#[trigger] s[i])
}

/// A text is empty, or has no white space at either end.
pub open spec fn is_trimmed(s: Seq<char>) -> bool {
    s.len() > 0 ==> !is_white(s[0]) && !is_white(s.last())
}

proof fn lemma_trim_start_is(a: Seq<char>, m: Seq<char>)
    requires
        all_white(a),
        m.len() > 0 ==> !is_white(m[0]),
    ensures
        trim_start(a + m) == m,
    decreases a.len(),
{
    let s = a + m;
    if a.len() == 0 {
        assert(s =~= m);
    } else {
        assert(is_white(a[0]));
        assert(s[0] == a[0]);
        let rest = a.skip(1);
        assert(all_white(rest)) by {
            assert forall|i: int| 0 <= i < rest.len() implies is_white(#[trigger] rest[i]) by {
                assert(rest[i] == a[i + 1]);
            }
        }
        assert(s.skip(1) =~= rest + m);
        lemma_trim_start_is(rest, m);
    }
}

proof fn lemma_trim_end_is(m: Seq<char>, b: Seq<char>)
    requires
        all_white(b),
        m.len() > 0 ==> !is_white(m.last()),
    ensures
        trim_end(m + b) == m,
    decreases b.len(),
{
    let s = m + b;
    if b.len() == 0 {
        assert(s =~= m);
    } else {
        assert(is_white(b[b.len() - 1]));
        assert(s.last() == b[b.len() - 1]);
        let front = b.drop_last();
        assert(all_white(front)) by {
            assert forall|i: int| 0 <= i < front.len() implies is_white(#[trigger] front[i]) by {
                assert(front[i] == b[i]);
            }
        }
        assert(s.drop_last() =~= m + front);
        lemma_trim_end_is(m, front);
    }
}

/// Trimming takes the white space around a text away, and no more.
pub proof fn law_trim_takes_white_space_away(a: Seq<char>, m: Seq<char>, b: Seq<char>)
    requires
        all_white(a),
        all_white(b),
        is_trimmed(m),
    ensures
        trim(a + m + b) == m,
{
    if m.len() == 0 {
        let w = a + b;
        assert(all_white(w));
        assert(a + m + b =~= w + m);
        lemma_trim_start_is(w, m);
        assert(m + Seq::<char>::empty() =~= m);
        lemma_trim_end_is(m, seq![]);
    } else {
        assert(a + m + b =~= a + (m + b));
        lemma_trim_start_is(a, m + b);
        lemma_trim_end_is(m, b);
    }
}

/// A text with no white space at either end is what trimming leaves of it.
pub proof fn lemma_trim_trimmed(m: Seq<char>)
    requires
        is_trimmed(m),
    ensures
        trim(m) == m,
{
    assert(Seq::<char>::empty() + m + Seq::<char>::empty() =~= m);
    law_trim_takes_white_space_away(seq![], m, seq![]);
}

proof fn lemma_trim_start_parts(s: Seq<char>) -> (k: int)
    ensures
        0 <= k <= s.len(),
        all_white(s.take(k)),
        trim_start(s) == s.skip(k),
        k < s.len() ==> !is_white(s[k]),
    decreases s.len(),
{
    if s.len() > 0 && is_white(s[0]) {
        let n = lemma_trim_start_parts(s.skip(1));
        assert(s.skip(1).skip(n) =~= s.skip(n + 1));
        assert forall|i: int| 0 <= i < n + 1 implies is_white(#[trigger] s.take(n + 1)[i]) by {
            if i > 0 {
                assert(s.skip(1).take(n)[i - 1] == s[i]);
            }
        }
        n + 1
    } else {
        assert(s.skip(0) =~= s);
        0
    }
}

proof fn lemma_trim_end_parts(s: Seq<char>) -> (k: int)
    ensures
        0 <= k <= s.len(),
        all_white(s.skip(k)),
        trim_end(s) == s.take(k),
        k > 0 ==> !is_white(s[k - 1]),
    decreases s.len(),
{
    if s.len() > 0 && is_white(s.last()) {
        let p = s.drop_last();
        let n = lemma_trim_end_parts(p);
        assert(p.take(n) =~= s.take(n));
        assert forall|i: int| 0 <= i < s.len() - n implies is_white(#[trigger] s.skip(n)[i]) by {
            if i < p.len() - n {
                assert(p.skip(n)[i] == s[n + i]);
            }
        }
        n
    } else {
        assert(s.take(s.len() as int) =~= s);
        s.len() as int
    }
}

/// A text is what trimming leaves of it with white space around; what is left has
/// none at either end.
pub proof fn law_trimmed_text_is_in_the_text(s: Seq<char>) -> (r: (Seq<char>, Seq<char>))
    ensures
        s == r.0 + trim(s) + r.1,
        all_white(r.0),
        all_white(r.1),
        is_trimmed(trim(s)),
{
    let k = lemma_trim_start_parts(s);
    let t = s.skip(k);
    let n = lemma_trim_end_parts(t);
    assert(s =~= s.take(k) + t.take(n) + t.skip(n));
    if n > 0 {
        assert(t[0] == s[k]);
    }
    (s.take(k), t.skip(n))
}

/// What is left without white space are the other characters, in their order.
pub proof fn law_without_white_keeps_the_rest(a: Seq<char>, b: Seq<char>)
    ensures
        without_white(a + b) == without_white(a) + without_white(b),
        all_white(a) ==> without_white(a).len() == 0,
        (forall|i: int| 0 <= i < a.len() ==> !is_white(#[trigger] a[i])) ==> without_white(a) == a,
    decreases a.len(), b.len(),
{
    let s = a + b;
    if b.len() > 0 {
        law_without_white_keeps_the_rest(a, b.drop_last());
        assert(s.drop_last() =~= a + b.drop_last());
        assert(s.last() == b.last());
        assert(without_white(s) =~= without_white(a) + without_white(b));
    } else {
        assert(s =~= a);
        assert(without_white(s) =~= without_white(a) + without_white(b));
        if a.len() > 0 {
            let p = a.drop_last();
            law_without_white_keeps_the_rest(p, b);
            if all_white(a) {
                assert(is_white(a[a.len() - 1]));
                assert forall|i: int| 0 <= i < p.len() implies is_white(#[trigger] p[i]) by {
                    assert(p[i] == a[i]);
                }
            }
            if forall|i: int| 0 <= i < a.len() ==> !is_white(#[trigger] a[i]) {
                assert(!is_white(a[a.len() - 1]));
                assert forall|i: int| 0 <= i < p.len() implies !is_white(#[trigger] p[i]) by {
                    assert(p[i] == a[i]);
                }
                assert(without_white(a) =~= a);
            }
        }
    }
}

/// White space is what Unicode gives the property `White_Space`, by its code points.
pub proof fn law_white_space(c: char)
    ensures
        is_white(c) == {
            let n = c as int;
            ||| 9 <= n <= 13
            ||| n == 32
            ||| n == 133
            ||| n == 160
            ||| n == 5760
            ||| 8192 <= n <= 8202
            ||| n == 8232
            ||| n == 8233
            ||| n == 8239
            ||| n == 8287
            ||| n == 12288
        },
        is_control(c) == (0 <= c as int <= 31 || 127 <= c as int <= 159),
{
}

/// Splitting loses nothing: the pieces with separators between them are the text,
/// and no piece holds a separator.
pub proof fn law_split_loses_nothing(s: Seq<char>, c: char)
    ensures
        join(split(s, c), seq![c]) == s,
        forall|i: int| 0 <= i < split(s, c).len() ==> !(#[trigger] split(s, c)[i]).contains(c),
    decreases s.len(),
{
    lemma_first_at(s, c);
    let i = first_at(s, c);
    if i < s.len() {
        let rest = s.skip(i + 1);
        law_split_loses_nothing(rest, c);
        lemma_split_nonempty(rest, c);
        lemma_join_front(s.take(i), split(rest, c), seq![c]);
        assert(s =~= s.take(i) + seq![c] + rest);
        assert forall|j: int| 0 <= j < split(s, c).len() implies !(#[trigger] split(
            s,
            c,
        )[j]).contains(c) by {
            if j > 0 {
                assert(split(s, c)[j] == split(rest, c)[j - 1]);
            }
        }
    }
}

/// Joining goes on from the front as it does from the end.
pub proof fn lemma_join_front(first: Seq<char>, rest: Seq<Seq<char>>, sep: Seq<char>)
    requires
        rest.len() > 0,
    ensures
        join(seq![first] + rest, sep) == first + sep + join(rest, sep),
    decreases rest.len(),
{
    let all = seq![first] + rest;
    if rest.len() == 1 {
        assert(all.drop_last() =~= seq![first]);
        assert(join(seq![first], sep) == first);
        assert(all.last() == rest[0]);
        assert(join(all, sep) =~= first + sep + join(rest, sep));
    } else {
        lemma_join_front(first, rest.drop_last(), sep);
        assert(all.drop_last() =~= seq![first] + rest.drop_last());
        assert(all.last() == rest.last());
        assert(join(all, sep) =~= first + sep + join(rest, sep));
    }
}

/// A newline ends a line, and what follows it is read on its own. A carriage return
/// before the newline is no part of the line.
pub proof fn law_newlines_end_lines(line: Seq<char>, rest: Seq<char>)
    requires
        !line.contains('\n'),
    ensures
        lines(line + seq!['\n'] + rest) == seq![line_of(line)] + lines(rest),
        line.len() > 0 ==> lines(line) == seq![line],
        lines(Seq::<char>::empty()) == Seq::<Seq<char>>::empty(),
        line_of(line + seq!['\r']) == line,
        line.len() == 0 || line.last() != '\r' ==> line_of(line) == line,
{
    let s = line + seq!['\n'] + rest;
    let i = line.len() as int;
    assert forall|j: int| 0 <= j < i implies s[j] != '\n' && line[j] != '\n' by {
        assert(line.contains(line[j]));
        assert(s[j] == line[j]);
    }
    lemma_first_at_is(s, '\n', i);
    assert(s.take(i) =~= line);
    assert(s.skip(i + 1) =~= rest);
    lemma_first_at_is(line, '\n', i);
    assert((line + seq!['\r']).drop_last() =~= line);
}

/// The digits of a number to base ten, with more digits after them: each shifts the
/// number by one place.
pub proof fn law_digits_are_places(s: Seq<char>, c: char, radix: int)
    ensures
        number(s.push(c), radix) == number(s, radix) * radix + (c as int - 48),
        number(Seq::<char>::empty(), radix) == 0,
{
    assert(s.push(c).drop_last() =~= s);
}

/// A text that ends where `pat` first stands is a piece of its own, and what follows
/// `pat` is split on its own.
pub proof fn law_split_text_parts(a: Seq<char>, pat: Seq<char>, rest: Seq<char>)
    requires
        pat.len() > 0,
        forall|i: int| 0 <= i < a.len() ==> !#[trigger] occurs_at(a + pat + rest, pat, i),
    ensures
        split_text(a + pat + rest, pat) == seq![a] + split_text(rest, pat),
{
    let s = a + pat + rest;
    let n = a.len() as int;
    assert(s.subrange(n, n + pat.len()) =~= pat);
    assert(occurs_at(s, pat, n));
    lemma_first_text_is(s, pat, n);
    assert(s.take(n) =~= a);
    assert(s.skip(n + pat.len()) =~= rest);
}

/// A text in which `pat` does not stand is one piece.
pub proof fn law_split_text_of_one_piece(a: Seq<char>, pat: Seq<char>)
    requires
        pat.len() > 0,
        !contains_text(a, pat),
    ensures
        split_text(a, pat) == seq![a],
{
    lemma_first_text(a, pat);
    if let Some(i) = first_text(a, pat) {
        assert(occurs_at(a, pat, i));
    }
}

/// All of the characters occur in `set`.
pub open spec fn all_of(s: Seq<char>, set: Seq<char>) -> bool {
    forall|i: int| 0 <= i < s.len() ==> set.contains(#[trigger] s[i])
}

proof fn lemma_trim_start_of_is(a: Seq<char>, m: Seq<char>, set: Seq<char>)
    requires
        all_of(a, set),
        m.len() > 0 ==> !set.contains(m[0]),
    ensures
        trim_start_of(a + m, set) == m,
    decreases a.len(),
{
    let s = a + m;
    if a.len() == 0 {
        assert(s =~= m);
    } else {
        assert(set.contains(a[0]));
        assert(s[0] == a[0]);
        let rest = a.skip(1);
        assert forall|i: int| 0 <= i < rest.len() implies set.contains(#[trigger] rest[i]) by {
            assert(rest[i] == a[i + 1]);
        }
        assert(s.skip(1) =~= rest + m);
        lemma_trim_start_of_is(rest, m, set);
    }
}

proof fn lemma_trim_end_of_is(m: Seq<char>, b: Seq<char>, set: Seq<char>)
    requires
        all_of(b, set),
        m.len() > 0 ==> !set.contains(m.last()),
    ensures
        trim_end_of(m + b, set) == m,
    decreases b.len(),
{
    let s = m + b;
    if b.len() == 0 {
        assert(s =~= m);
    } else {
        assert(set.contains(b[b.len() - 1]));
        assert(s.last() == b[b.len() - 1]);
        let front = b.drop_last();
        assert forall|i: int| 0 <= i < front.len() implies set.contains(#[trigger] front[i]) by {
            assert(front[i] == b[i]);
        }
        assert(s.drop_last() =~= m + front);
        lemma_trim_end_of_is(m, front, set);
    }
}

/// Trimming of some characters takes those around a text away, and no more.
pub proof fn law_trim_of_takes_the_set_away(
    a: Seq<char>,
    m: Seq<char>,
    b: Seq<char>,
    set: Seq<char>,
)
    requires
        all_of(a, set),
        all_of(b, set),
        m.len() > 0 ==> !set.contains(m[0]) && !set.contains(m.last()),
    ensures
        trim_of(a + m + b, set) == m,
{
    if m.len() == 0 {
        let w = a + b;
        assert(all_of(w, set)) by {
            assert forall|i: int| 0 <= i < w.len() implies set.contains(#[trigger] w[i]) by {
                if i < a.len() {
                    assert(set.contains(a[i]));
                } else {
                    assert(set.contains(b[i - a.len()]));
                }
            }
        }
        assert(a + m + b =~= w + m);
        lemma_trim_start_of_is(w, m, set);
        assert(m + Seq::<char>::empty() =~= m);
        lemma_trim_end_of_is(m, seq![], set);
    } else {
        assert(a + m + b =~= a + (m + b));
        lemma_trim_start_of_is(a, m + b, set);
        lemma_trim_end_of_is(m, b, set);
    }
}

/// Replacing goes on character by character: what stands before a character has no
/// bearing on what becomes of it.
pub proof fn law_replace_goes_on(a: Seq<char>, b: Seq<char>, c: char, with: Seq<char>, d: char)
    ensures
        replace(a + b, c, with) == replace(a, c, with) + replace(b, c, with),
        replace(seq![c], c, with) == with,
        d != c ==> replace(seq![d], c, with) == seq![d],
        replace(seq![], c, with) == Seq::<char>::empty(),
    decreases b.len(),
{
    let s = a + b;
    if b.len() == 0 {
        assert(s =~= a);
        assert(replace(a, c, with) + replace(b, c, with) =~= replace(a, c, with));
    } else {
        law_replace_goes_on(a, b.drop_last(), c, with, d);
        assert(s.drop_last() =~= a + b.drop_last());
        assert(s.last() == b.last());
        assert(replace(s, c, with) =~= replace(a, c, with) + replace(b, c, with));
    }
    reveal_with_fuel(replace, 2);
    assert(seq![c].drop_last() =~= seq![]);
    assert(seq![d].drop_last() =~= seq![]);
    assert(Seq::<char>::empty() + with =~= with);
    assert(Seq::<char>::empty() + seq![d] =~= seq![d]);
}

/// A text without the character stays as it is.
pub proof fn lemma_replace_nothing(s: Seq<char>, c: char, with: Seq<char>)
    requires
        !s.contains(c),
    ensures
        replace(s, c, with) == s,
    decreases s.len(),
{
    if s.len() > 0 {
        let front = s.drop_last();
        assert(s[s.len() - 1] != c);
        assert(!front.contains(c)) by {
            if front.contains(c) {
                let i = choose|i: int| 0 <= i < front.len() && front[i] == c;
                assert(s[i] == c);
            }
        }
        lemma_replace_nothing(front, c, with);
        assert(front + seq![s.last()] =~= s);
    }
}

/// A plus sign before the digits of an unsigned number says nothing. Without digits, with
/// anything but digits, and beyond sixty-four bits there is no number.
pub proof fn law_unsigned_numbers(d: Seq<char>, radix: int, i: int)
    requires
        2 <= radix <= 10,
    ensures
        d.len() > 0 && d[0] != '+' ==> parse_unsigned(seq!['+'] + d, radix) == parse_unsigned(
            d,
            radix,
        ),
        parse_unsigned(seq![], radix) is None,
        parse_unsigned(seq!['+'], radix) is None,
        0 <= i < d.len() && !(48 <= d[i] as int && (d[i] as int) < 48 + radix) && (d[i] != '+' || i
            > 0) ==> parse_unsigned(d, radix) is None,
        (d.len() > 0 && forall|j: int|
            0 <= j < d.len() ==> 48 <= (#[trigger] d[j]) as int && (d[j] as int) < 48 + radix) ==> {
            match parse_unsigned(d, radix) {
                Some(n) => n == number(d, radix),
                None => number(d, radix) > u64::MAX,
            }
        },
        number(d, radix) >= 0x1_0000_0000_0000_0000 && d.len() > 0 && d[0] != '+'
            ==> parse_unsigned(d, radix) is None,
{
    let s = seq!['+'] + d;
    assert(s.skip(1) =~= d);
    assert(seq!['+'].skip(1) =~= seq![]);
    let w = without_plus(d);
    if 0 <= i < d.len() && !(48 <= d[i] as int && (d[i] as int) < 48 + radix) && (d[i] != '+' || i
        > 0) {
        if d[0] == '+' {
            assert(i > 0);
            assert(w[i - 1] == d[i]);
            assert(!is_digit(w[i - 1], radix));
        } else {
            assert(w[i] == d[i]);
            assert(!is_digit(w[i], radix));
        }
    }
    if d.len() > 0 && forall|j: int|
        0 <= j < d.len() ==> 48 <= (#[trigger] d[j]) as int && (d[j] as int) < 48 + radix {
        assert(48 <= d[0] as int);
        assert(w == d);
        assert forall|j: int| 0 <= j < d.len() implies is_digit(#[trigger] d[j], radix) by {
            assert(48 <= d[j] as int);
        }
        lemma_number_grows(d, radix, 0);
        assert(d.take(0) =~= seq![]);
    }
}

} // verus!
