//! Names of packages. They go into manifest keys, lockfile entries and library
//! paths, so they are made of the characters of R package names only.

use vstd::prelude::*;

use crate::strings;
use crate::text;

verus! {

/// A character of a package name.
pub open spec fn is_name_char(c: char) -> bool {
    ||| c == '.'
    ||| c == '-'
    ||| c == '_'
    ||| if c <= '\u{7f}' {
        strings::is_ascii_alnum(c)
    } else {
        text::is_alphanumeric(c)
    }
}

/// A name that a package can have.
pub open spec fn is_package_name(name: Seq<char>) -> bool {
    &&& name.len() > 0
    &&& name != "."@
    &&& name != ".."@
    &&& forall|i: int| 0 <= i < name.len() ==> is_name_char(#[trigger] name[i])
}

/// Whether a package can have this name: letters, digits, `.`, `-` and `_`, and
/// neither `.` nor `..`.
pub fn is_valid(name: &str) -> (r: bool)
    ensures
        r == is_package_name(name@),
{
    let cs = text::chars_of(name);
    if cs.len() == 0 || text::is_text(cs.as_slice(), ".") || text::is_text(cs.as_slice(), "..") {
        return false;
    }
    let mut i: usize = 0;
    while i < cs.len()
        invariant
            i <= cs@.len(),
            cs@ == name@,
            forall|j: int| 0 <= j < i ==> is_name_char(#[trigger] name@[j]),
        decreases cs@.len() - i,
    {
        let c = cs[i];
        assert(name@[i as int] == c);
        if !(c.is_alphanumeric() || c == '.' || c == '-' || c == '_') {
            assert(!is_name_char(c));
            return false;
        }
        assert(is_name_char(c));
        i += 1;
    }
    true
}

/// A package name is one segment of a path: it holds no separator, and it is not a
/// name that a path gives a meaning.
pub proof fn law_name_is_one_segment(name: Seq<char>)
    requires
        is_package_name(name),
    ensures
        !name.contains('/'),
        !name.contains('\\'),
        !name.contains(':'),
        strings::split(name, '/') == seq![name],
        name != "."@,
        name != ".."@,
{
    assert forall|i: int| 0 <= i < name.len() implies name[i] != '/' && name[i] != '\\' && name[i]
        != ':' by {
        assert(is_name_char(name[i]));
    }
    strings::lemma_first_at_is(name, '/', name.len() as int);
}

/// A character of ASCII that a package name may hold: a digit, a letter, or one of `-`,
/// `.` and `_`, by their code points.
pub open spec fn is_plain_code(n: int) -> bool {
    48 <= n <= 57 || 65 <= n <= 90 || 97 <= n <= 122 || n == 45 || n == 46 || n == 95
}

/// A text of ASCII characters is a package name where it is not empty, each character
/// is a digit, a letter or one of three signs, and it is neither `.` nor `..`.
pub proof fn law_ascii_names(name: Seq<char>)
    requires
        forall|i: int| 0 <= i < name.len() ==> (#[trigger] name[i]) as int <= 127,
    ensures
        is_package_name(name) <==> name.len() > 0 && name != seq!['.'] && name != seq!['.', '.']
            && forall|i: int| 0 <= i < name.len() ==> is_plain_code((#[trigger] name[i]) as int),
{
    reveal_strlit(".");
    reveal_strlit("..");
    assert("."@ =~= seq!['.']);
    assert(".."@ =~= seq!['.', '.']);
    assert forall|i: int| 0 <= i < name.len() implies (is_name_char(#[trigger] name[i])
        <==> is_plain_code(name[i] as int)) by {}
}

/// A name stays a name with another after it, and with a sign and another after it: the
/// characters are judged one by one. A character beyond ASCII is judged by the Unicode
/// tables.
pub proof fn law_names_one_after_another(a: Seq<char>, b: Seq<char>, c: char)
    requires
        is_package_name(a),
        is_package_name(b),
    ensures
        a + b != "."@ && a + b != ".."@ ==> is_package_name(a + b),
        is_package_name(a + seq!['_'] + b),
        c as int > 127 ==> (is_package_name(a + seq![c]) <==> text::is_alphanumeric(c)),
{
    let s = a + b;
    assert forall|i: int| 0 <= i < s.len() implies is_name_char(#[trigger] s[i]) by {
        if i < a.len() {
            assert(is_name_char(a[i]));
        } else {
            assert(is_name_char(b[i - a.len()]));
        }
    }
    let t = a + seq!['_'] + b;
    assert forall|i: int| 0 <= i < t.len() implies is_name_char(#[trigger] t[i]) by {
        if i < a.len() {
            assert(is_name_char(a[i]));
        } else if i > a.len() {
            assert(is_name_char(b[i - a.len() - 1]));
        }
    }
    reveal_strlit(".");
    reveal_strlit("..");
    let u = a + seq![c];
    assert(u[a.len() as int] == c);
    if c as int > 127 && text::is_alphanumeric(c) {
        assert forall|i: int| 0 <= i < u.len() implies is_name_char(#[trigger] u[i]) by {
            if i < a.len() {
                assert(is_name_char(a[i]));
            }
        }
        if u == ".."@ {
            assert(u[1] == '.');
        }
    }
    assert(t.len() >= 3);
}

} // verus!
