//! GitHub.

use vstd::prelude::*;

use crate::strings;
use crate::text;

verus! {

/// A character that may stand in a git ref: no white space, no control
/// character, and none that has a meaning of its own in git or in a URL.
pub open spec fn is_ref_char(c: char) -> bool {
    &&& !strings::is_white(c)
    &&& !strings::is_control(c)
    &&& c != '~'
    &&& c != '^'
    &&& c != ':'
    &&& c != '?'
    &&& c != '*'
    &&& c != '['
    &&& c != '\\'
    &&& c != '&'
    &&& c != '#'
    &&& c != '%'
}

/// A branch, tag or commit that can be asked for.
pub open spec fn is_git_ref(r: Seq<char>) -> bool {
    r.len() > 0 && forall|i: int| 0 <= i < r.len() ==> is_ref_char(#[trigger] r[i])
}

/// Whether `r` can be asked for as a branch, tag or commit.
pub fn is_valid_git_ref(r: &[char]) -> (ok: bool)
    ensures
        ok == is_git_ref(r@),
{
    if r.len() == 0 {
        return false;
    }
    let mut i: usize = 0;
    while i < r.len()
        invariant
            i <= r@.len(),
            forall|j: int| 0 <= j < i ==> is_ref_char(#[trigger] r@[j]),
        decreases r@.len() - i,
    {
        let c = r[i];
        if text::is_white(c) || text::is_control(c) || c == '~' || c == '^' || c == ':' || c == '?'
            || c == '*' || c == '[' || c == '\\' || c == '&' || c == '#' || c == '%' {
            assert(!is_ref_char(r@[i as int]));
            return false;
        }
        i += 1;
    }
    true
}

/// A ref holds no white space, no control character and nothing that has a meaning of
/// its own in git or in a URL. Everything else may stand in it: letters of any script,
/// digits, slashes, dots and hyphens.
pub proof fn law_characters_of_a_ref(c: char, r: Seq<char>)
    ensures
        is_ref_char(c) == !(c == ' ' || c == '~' || c == '^' || c == ':' || c == '?' || c == '*' || c
            == '[' || c == '\\' || c == '&' || c == '#' || c == '%' || c as int <= 31 || 127
            <= c as int <= 160 || c as int == 5760 || 8192 <= c as int <= 8202 || c as int == 8232
            || c as int == 8233 || c as int == 8239 || c as int == 8287 || c as int == 12288),
        is_git_ref(r.push(c)) == (is_ref_char(c) && (r.len() == 0 || is_git_ref(r))),
        !is_git_ref(Seq::<char>::empty()),
{
    let s = r.push(c);
    if is_git_ref(s) {
        assert(is_ref_char(s[r.len() as int]));
        assert forall|i: int| 0 <= i < r.len() implies is_ref_char(#[trigger] r[i]) by {
            assert(is_ref_char(s[i]));
        }
    }
}

} // verus!
