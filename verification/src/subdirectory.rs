//! Subdirectories of repositories. They go into the paths of URLs and into the
//! extraction of archives, so they are relative and portable.

use vstd::prelude::*;

use crate::error::UvrError;
use crate::strings;
use crate::text;
use crate::url;

verus! {

/// A segment that goes down one level.
pub open spec fn goes_down(segment: Seq<char>) -> bool {
    segment.len() > 0 && segment != "."@ && segment != ".."@
}

/// A relative path that only goes down, without a character that some system gives
/// a meaning of its own.
pub open spec fn is_subdirectory(path: Seq<char>) -> bool {
    &&& forall|i: int|
        0 <= i < path.len() ==> (#[trigger] path[i]) != '\\' && path[i] != ':'
            && !strings::is_control(path[i])
    &&& forall|i: int|
        0 <= i < strings::split(path, '/').len() ==> goes_down(
            #[trigger] strings::split(path, '/')[i],
        )
}

/// Whether a path is a subdirectory: relative, without a backslash, a colon or a
/// control character, and without empty segments and segments `.` and `..`.
pub fn is_valid(path: &str) -> (r: bool)
    ensures
        r == is_subdirectory(path@),
{
    let cs = text::chars_of(path);
    let mut i: usize = 0;
    while i < cs.len()
        invariant
            i <= cs@.len(),
            cs@ == path@,
            forall|j: int|
                0 <= j < i ==> (#[trigger] path@[j]) != '\\' && path@[j] != ':'
                    && !strings::is_control(path@[j]),
        decreases cs@.len() - i,
    {
        let c = cs[i];
        if c == '\\' || c == ':' || text::is_control(c) {
            assert(path@[i as int] == c);
            return false;
        }
        i += 1;
    }
    let segments = text::split(cs.as_slice(), '/');
    let ghost all = strings::split(path@, '/');
    let mut j: usize = 0;
    while j < segments.len()
        invariant
            j <= segments@.len(),
            all == strings::split(path@, '/'),
            all == text::views(segments@),
            forall|k: int| 0 <= k < j ==> goes_down(#[trigger] all[k]),
        decreases segments@.len() - j,
    {
        let segment = segments[j];
        assert(all[j as int] == segment@);
        if segment.len() == 0 || text::is_text(segment, ".") || text::is_text(segment, "..") {
            assert(!goes_down(all[j as int]));
            return false;
        }
        j += 1;
    }
    true
}

/// What is told of a path that is no subdirectory.
pub open spec fn refusal(path: Seq<char>) -> Seq<char> {
    "Invalid subdirectory '"@ + path
        + "'. Expected a repository-relative path such as 'pkg' or 'r/pkg': no leading '/', no '\\', no ':', no '.' or '..' segments, and no empty segments."@
}

/// Refuses a path that is no subdirectory.
pub fn validate(path: &str) -> (r: Result<(), UvrError>)
    ensures
        is_subdirectory(path@) ==> r is Ok,
        !is_subdirectory(path@) ==> (r matches Err(UvrError::Other(m)) && m@ == refusal(path@)),
{
    if is_valid(path) {
        return Ok(());
    }
    let mut m = "Invalid subdirectory '".to_owned();
    m.append(path);
    m.append(
        "'. Expected a repository-relative path such as 'pkg' or 'r/pkg': no leading '/', no '\\', no ':', no '.' or '..' segments, and no empty segments.",
    );
    Err(UvrError::Other(m))
}

/// A path in a URL: its segments encoded, the slashes between them kept.
pub open spec fn encoded_path(path: Seq<char>) -> Seq<char> {
    strings::join(
        strings::split(path, '/').map_values(|s: Seq<char>| url::percent_encoded(s)),
        "/"@,
    )
}

/// A path in a URL: its segments encoded, the slashes between them kept.
pub fn encode_segments(path: &str) -> (r: String)
    ensures
        r@ == encoded_path(path@),
{
    let cs = text::chars_of(path);
    let segments = text::split(cs.as_slice(), '/');
    let ghost all = strings::split(path@, '/');
    let mut out: Vec<String> = Vec::new();
    let mut i: usize = 0;
    while i < segments.len()
        invariant
            i <= segments@.len(),
            all == strings::split(path@, '/'),
            all == text::views(segments@),
            out@.len() == i,
            forall|j: int| 0 <= j < i ==> (#[trigger] out@[j])@ == url::percent_encoded(all[j]),
        decreases segments@.len() - i,
    {
        assert(all[i as int] == segments@[i as int]@);
        out.push(url::encode(text::string_of(segments[i]).as_str()));
        i += 1;
    }
    assert(text::string_views(out@) =~= all.map_values(|s: Seq<char>| url::percent_encoded(s)));
    text::join(out.as_slice(), "/")
}

/// Encoding keeps the segments apart: the encoded path has as many of them, and
/// each is the encoded segment of the path.
pub proof fn law_encoding_keeps_segments(path: Seq<char>)
    ensures
        strings::split(encoded_path(path), '/') == strings::split(path, '/').map_values(
            |s: Seq<char>| url::percent_encoded(s),
        ),
{
    let parts = strings::split(path, '/').map_values(|s: Seq<char>| url::percent_encoded(s));
    strings::lemma_split_nonempty(path, '/');
    assert forall|i: int| 0 <= i < parts.len() implies !(#[trigger] parts[i]).contains('/') by {
        url::law_encoded_text_stays_in_place(strings::split(path, '/')[i]);
    }
    reveal_strlit("/");
    assert("/"@ =~= seq!['/']);
    strings::lemma_split_join(parts, '/');
}

/// A subdirectory is not empty and not absolute, and none of its segments leads up
/// or out.
pub proof fn law_subdirectory_stays_inside(path: Seq<char>)
    requires
        is_subdirectory(path),
    ensures
        path.len() > 0,
        path[0] != '/',
        path.last() != '/',
        forall|i: int|
            0 <= i < strings::split(path, '/').len() ==> #[trigger] strings::split(path, '/')[i]
                != ".."@,
{
    let parts = strings::split(path, '/');
    strings::lemma_first_at(path, '/');
    assert(goes_down(parts[0]));
    strings::lemma_split_last(path, '/');
    assert(goes_down(parts.last()));
}

/// A path of two parts is a subdirectory where both parts are.
pub proof fn law_parts_of_a_subdirectory(a: Seq<char>, b: Seq<char>)
    ensures
        is_subdirectory(a + seq!['/'] + b) <==> is_subdirectory(a) && is_subdirectory(b),
{
    let s = a + seq!['/'] + b;
    let x = strings::split(a, '/');
    let y = strings::split(b, '/');
    let all = strings::split(s, '/');
    strings::lemma_split_between(a, '/', b);
    assert(all == x + y);
    if is_subdirectory(s) {
        assert forall|i: int| 0 <= i < a.len() implies (#[trigger] a[i]) != '\\' && a[i] != ':'
            && !strings::is_control(a[i]) by {
            assert(s[i] == a[i]);
        }
        assert forall|i: int| 0 <= i < b.len() implies (#[trigger] b[i]) != '\\' && b[i] != ':'
            && !strings::is_control(b[i]) by {
            assert(s[a.len() + 1 + i] == b[i]);
        }
        assert forall|i: int| 0 <= i < x.len() implies goes_down(#[trigger] x[i]) by {
            assert(all[i] == x[i]);
        }
        assert forall|i: int| 0 <= i < y.len() implies goes_down(#[trigger] y[i]) by {
            assert(all[x.len() + i] == y[i]);
        }
    }
    if is_subdirectory(a) && is_subdirectory(b) {
        assert forall|i: int| 0 <= i < s.len() implies (#[trigger] s[i]) != '\\' && s[i] != ':'
            && !strings::is_control(s[i]) by {
            if i < a.len() {
                assert(s[i] == a[i]);
            } else if i > a.len() {
                assert(s[i] == b[i - a.len() - 1]);
            }
        }
        assert forall|i: int| 0 <= i < all.len() implies goes_down(#[trigger] all[i]) by {
            if i < x.len() {
                assert(all[i] == x[i]);
            } else {
                assert(all[i] == y[i - x.len()]);
            }
        }
    }
}

/// A path without slashes is a subdirectory where it is not empty, neither `.` nor `..`,
/// and holds no backslash, no colon and no control character.
pub proof fn law_one_level(s: Seq<char>)
    requires
        !s.contains('/'),
    ensures
        is_subdirectory(s) <==> s.len() > 0 && s != seq!['.'] && s != seq!['.', '.'] && (forall|
            i: int,
        |
            0 <= i < s.len() ==> {
                let n = (#[trigger] s[i]) as int;
                n != 92 && n != 58 && n >= 32 && !(127 <= n <= 159)
            }),
{
    reveal_strlit(".");
    reveal_strlit("..");
    assert("."@ =~= seq!['.']);
    assert(".."@ =~= seq!['.', '.']);
    assert forall|i: int| 0 <= i < s.len() implies s[i] != '/' by {
        assert(s.contains(s[i]));
    }
    strings::lemma_split_one(s, '/');
    let all = strings::split(s, '/');
    assert(all[0] == s);
    if is_subdirectory(s) {
        assert(goes_down(all[0]));
    }
}

/// In a URL every part of a path is encoded by itself, and the slashes stay. What is
/// told of a path that is refused holds the path.
pub proof fn law_parts_are_encoded_apart(a: Seq<char>, b: Seq<char>)
    ensures
        encoded_path(a + seq!['/'] + b) == encoded_path(a) + seq!['/'] + encoded_path(b),
        !a.contains('/') ==> encoded_path(a) == url::percent_encoded(a),
        strings::contains_text(refusal(a), a),
{
    reveal_strlit("/");
    assert("/"@ =~= seq!['/']);
    let f = |s: Seq<char>| url::percent_encoded(s);
    let x = strings::split(a, '/');
    let y = strings::split(b, '/');
    strings::lemma_split_between(a, '/', b);
    strings::lemma_split_nonempty(a, '/');
    strings::lemma_split_nonempty(b, '/');
    let p = x.map_values(f);
    let q = y.map_values(f);
    assert((x + y).map_values(f) =~= p + q);
    lemma_join_both(p, q);
    if !a.contains('/') {
        assert forall|i: int| 0 <= i < a.len() implies a[i] != '/' by {
            assert(a.contains(a[i]));
        }
        strings::lemma_split_one(a, '/');
        assert(x.map_values(f) =~= seq![url::percent_encoded(a)]);
    }
    strings::lemma_contains_middle(
        "Invalid subdirectory '"@,
        a,
        "'. Expected a repository-relative path such as 'pkg' or 'r/pkg': no leading '/', no '\\', no ':', no '.' or '..' segments, and no empty segments."@,
    );
}

/// Parts joined with others.
proof fn lemma_join_both(p: Seq<Seq<char>>, q: Seq<Seq<char>>)
    requires
        p.len() > 0,
        q.len() > 0,
    ensures
        strings::join(p + q, "/"@) == strings::join(p, "/"@) + "/"@ + strings::join(q, "/"@),
    decreases q.len(),
{
    let both = p + q;
    assert(both.last() == q.last());
    assert(both.drop_last() =~= p + q.drop_last());
    if q.len() == 1 {
        assert(both.drop_last() =~= p);
    } else {
        lemma_join_both(p, q.drop_last());
        assert(strings::join(both, "/"@) =~= strings::join(p, "/"@) + "/"@ + strings::join(q, "/"@));
    }
}

} // verus!
