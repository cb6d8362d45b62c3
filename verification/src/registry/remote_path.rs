//! The shape `host/segment/.../segment[@ref]` that GitLab and Forgejo specs share.

use vstd::prelude::*;
use vstd::slice::slice_subrange;

use crate::registry::github;
use crate::strings;
use crate::text;

verus! {

/// A character of a host, its port included.
pub open spec fn is_host_char(c: char) -> bool {
    strings::is_ascii_alnum(c) || c == '.' || c == '-' || c == ':'
}

/// A host, with or without a port.
pub open spec fn is_host(h: Seq<char>) -> bool {
    h.len() > 0 && forall|i: int| 0 <= i < h.len() ==> is_host_char(#[trigger] h[i])
}

/// A character of a path segment.
pub open spec fn is_segment_char(c: char) -> bool {
    strings::is_ascii_alnum(c) || c == '.' || c == '-' || c == '_'
}

/// A segment of a project path.
pub open spec fn is_segment(s: Seq<char>) -> bool {
    s.len() > 0 && forall|i: int| 0 <= i < s.len() ==> is_segment_char(#[trigger] s[i])
}

/// All of the parts are segments.
pub open spec fn are_segments(parts: Seq<Seq<char>>) -> bool {
    forall|i: int| 0 <= i < parts.len() ==> is_segment(#[trigger] parts[i])
}

/// A host with the path on it and the ref, where one is named.
pub struct RemotePath {
    pub host: Seq<char>,
    pub path: Seq<char>,
    pub git_ref: Option<Seq<char>>,
}

/// What stands before the last `@`, or all of it.
pub open spec fn path_part(body: Seq<char>) -> Seq<char> {
    let at = strings::last_at(body, '@');
    if at < 0 {
        body
    } else {
        body.take(at)
    }
}

/// What stands after the last `@`, or nothing.
pub open spec fn ref_part(body: Seq<char>) -> Seq<char> {
    let at = strings::last_at(body, '@');
    if at < 0 {
        seq![]
    } else {
        body.skip(at + 1)
    }
}

/// The host, the path and the ref that `body` names. There is no scheme in it,
/// the host is not empty, and the path has at least two segments.
pub open spec fn remote_path(body: Seq<char>) -> Option<RemotePath> {
    let p = path_part(body);
    let r = ref_part(body);
    let parts = strings::split(p, '/');
    if r.len() > 0 && !github::is_git_ref(r) {
        None
    } else if strings::contains_text(p, "://"@) {
        None
    } else if parts.len() < 3 || !is_host(parts[0]) || !are_segments(parts.skip(1)) {
        None
    } else {
        Some(
            RemotePath {
                host: parts[0],
                path: p.skip(parts[0].len() as int + 1),
                git_ref: if r.len() > 0 {
                    Some(r)
                } else {
                    None
                },
            },
        )
    }
}

/// Whether `h` is a host.
fn host_ok(h: &[char]) -> (ok: bool)
    ensures
        ok == is_host(h@),
{
    if h.len() == 0 {
        return false;
    }
    let mut i: usize = 0;
    while i < h.len()
        invariant
            i <= h@.len(),
            forall|j: int| 0 <= j < i ==> is_host_char(#[trigger] h@[j]),
        decreases h@.len() - i,
    {
        let c = h[i];
        if !(text::is_ascii_alnum(c) || c == '.' || c == '-' || c == ':') {
            assert(!is_host_char(h@[i as int]));
            return false;
        }
        i += 1;
    }
    true
}

/// Whether `s` is a segment.
fn segment_ok(s: &[char]) -> (ok: bool)
    ensures
        ok == is_segment(s@),
{
    if s.len() == 0 {
        return false;
    }
    let mut i: usize = 0;
    while i < s.len()
        invariant
            i <= s@.len(),
            forall|j: int| 0 <= j < i ==> is_segment_char(#[trigger] s@[j]),
        decreases s@.len() - i,
    {
        let c = s[i];
        if !(text::is_ascii_alnum(c) || c == '.' || c == '-' || c == '_') {
            assert(!is_segment_char(s@[i as int]));
            return false;
        }
        i += 1;
    }
    true
}

/// A host with the path on it and the ref, where one is named.
pub struct RemoteParts<'a> {
    pub host: &'a [char],
    pub path: &'a [char],
    pub git_ref: Option<&'a [char]>,
}

impl<'a> RemoteParts<'a> {
    /// What the parts hold.
    pub open spec fn model(self) -> RemotePath {
        RemotePath {
            host: self.host@,
            path: self.path@,
            git_ref: match self.git_ref {
                Some(r) => Some(r@),
                None => None,
            },
        }
    }
}

/// The host, the path and the ref that `body` names.
pub fn parse_remote_path<'a>(body: &'a [char]) -> (r: Option<RemoteParts<'a>>)
    ensures
        match r {
            Some(p) => remote_path(body@) == Some(p.model()),
            None => remote_path(body@) is None,
        },
{
    let n = body.len();
    let (path, git_ref): (&'a [char], &'a [char]) = match text::last_at(body, '@') {
        Some(at) => (slice_subrange(body, 0, at), slice_subrange(body, at + 1, n)),
        None => (body, slice_subrange(body, n, n)),
    };
    proof {
        strings::lemma_last_at(body@, '@');
    }
    assert(path@ =~= path_part(body@));
    assert(git_ref@ =~= ref_part(body@));
    if git_ref.len() > 0 && !github::is_valid_git_ref(git_ref) {
        return None;
    }
    let scheme = text::chars_of("://");
    if text::contains_text(path, scheme.as_slice()) {
        return None;
    }
    let parts = text::split(path, '/');
    let ghost all = strings::split(path@, '/');
    if parts.len() < 3 {
        return None;
    }
    let host = parts[0];
    assert(all[0] == host@);
    if !host_ok(host) {
        return None;
    }
    let mut i: usize = 1;
    while i < parts.len()
        invariant
            1 <= i <= parts@.len(),
            all == text::views(parts@),
            forall|j: int| 1 <= j < i ==> is_segment(#[trigger] all[j]),
            remote_path(body@) is None || are_segments(all.skip(1)),
        decreases parts@.len() - i,
    {
        assert(all[i as int] == parts@[i as int]@);
        if !segment_ok(parts[i]) {
            assert(all.skip(1)[i - 1] == all[i as int]);
            return None;
        }
        i += 1;
    }
    assert(are_segments(all.skip(1))) by {
        assert forall|j: int| 0 <= j < all.skip(1).len() implies is_segment(
            #[trigger] all.skip(1)[j],
        ) by {
            assert(all.skip(1)[j] == all[j + 1]);
        }
    }
    proof {
        strings::lemma_first_at(path@, '/');
    }
    let m = path.len();
    let rest = slice_subrange(path, host.len() + 1, m);
    assert(rest@ =~= path@.skip(all[0].len() as int + 1));
    Some(
        RemoteParts {
            host,
            path: rest,
            git_ref: if git_ref.len() > 0 {
                Some(git_ref)
            } else {
                None
            },
        },
    )
}

/// A host with a path and a ref that can be written down and read again.
pub open spec fn is_remote_path(r: RemotePath) -> bool {
    &&& is_host(r.host)
    &&& strings::split(r.path, '/').len() >= 2
    &&& are_segments(strings::split(r.path, '/'))
    &&& r.git_ref matches Some(g) ==> github::is_git_ref(g) && !g.contains('@')
}

/// The host, the path and the ref in writing.
pub open spec fn written(r: RemotePath) -> Seq<char> {
    r.host + seq!['/'] + r.path + match r.git_ref {
        Some(g) => seq!['@'] + g,
        None => seq![],
    }
}

/// What is read is well formed.
pub proof fn law_read_is_well_formed(body: Seq<char>)
    ensures
        remote_path(body) matches Some(r) ==> is_remote_path(r),
{
    if let Some(r) = remote_path(body) {
        let p = path_part(body);
        let parts = strings::split(p, '/');
        strings::lemma_first_at(p, '/');
        strings::lemma_last_at(body, '@');
        let i = strings::first_at(p, '/');
        assert(parts[0] =~= p.take(i));
        assert(parts.skip(1) =~= strings::split(p.skip(i + 1), '/'));
        if let Some(g) = r.git_ref {
            let at = strings::last_at(body, '@');
            assert forall|j: int| 0 <= j < g.len() implies g[j] != '@' by {
                assert(g[j] == body[at + 1 + j]);
            }
        }
    }
}

/// What is written down is read back as it was.
pub proof fn law_written_is_read_back(r: RemotePath)
    requires
        is_remote_path(r),
    ensures
        remote_path(written(r)) == Some(r),
{
    let body = written(r);
    let p = r.host + seq!['/'] + r.path;
    assert(!r.path.contains('@')) by {
        lemma_segments_hold_no_other(r.path, '@');
    }
    assert forall|j: int| 0 <= j < p.len() implies p[j] != '@' by {
        if j < r.host.len() {
            assert(is_host_char(r.host[j]));
        } else if j > r.host.len() {
            assert(p[j] == r.path[j - r.host.len() - 1]);
        }
    }
    match r.git_ref {
        Some(g) => {
            assert forall|j: int| p.len() < j < body.len() implies body[j] != '@' by {
                assert(body[j] == g[j - p.len() - 1]);
            }
            assert(body[p.len() as int] == '@');
            strings::lemma_last_at_is(body, '@', p.len() as int);
            assert(body.take(p.len() as int) =~= p);
            assert(body.skip(p.len() as int + 1) =~= g);
        },
        None => {
            assert(body =~= p);
            strings::lemma_last_at_is(body, '@', -1);
        },
    }
    assert(path_part(body) == p);
    // The first slash ends the host, and the rest splits as the path does.
    assert forall|j: int| 0 <= j < r.host.len() implies p[j] != '/' by {
        assert(is_host_char(r.host[j]));
    }
    strings::lemma_first_at_is(p, '/', r.host.len() as int);
    assert(p.take(r.host.len() as int) =~= r.host);
    assert(p.skip(r.host.len() as int + 1) =~= r.path);
    let parts = strings::split(p, '/');
    assert(parts[0] == r.host);
    assert(parts.skip(1) =~= strings::split(r.path, '/'));
    // No scheme: a slash is never followed by another.
    reveal_strlit("://");
    if strings::contains_text(p, "://"@) {
        let i = choose|i: int| #[trigger] strings::occurs_at(p, "://"@, i);
        let t = p.subrange(i, i + 3);
        assert(t == "://"@);
        assert(t[1] == p[i + 1] && t[2] == p[i + 2]);
        assert(p[i + 1] == '/' && p[i + 2] == '/');
        assert(i + 1 >= r.host.len());
        let k = i + 2 - r.host.len() - 1;
        assert(r.path[k] == '/');
        if k > 0 {
            assert(r.path[k - 1] == '/');
        }
        lemma_no_empty_segment(r.path, k);
    }
}

/// In a path of segments stand slashes and characters of segments only.
proof fn lemma_segments_hold_no_other(path: Seq<char>, c: char)
    requires
        are_segments(strings::split(path, '/')),
        c != '/',
        !is_segment_char(c),
    ensures
        !path.contains(c),
    decreases path.len(),
{
    strings::lemma_first_at(path, '/');
    let i = strings::first_at(path, '/');
    let parts = strings::split(path, '/');
    assert(is_segment(parts[0]));
    if path.contains(c) {
        let j = choose|j: int| 0 <= j < path.len() && path[j] == c;
        if i == path.len() {
            assert(is_segment_char(parts[0][j]));
        } else {
            let rest = path.skip(i + 1);
            assert(parts.skip(1) =~= strings::split(rest, '/'));
            assert(are_segments(strings::split(rest, '/'))) by {
                assert forall|m: int| 0 <= m < parts.skip(1).len() implies is_segment(
                    #[trigger] parts.skip(1)[m],
                ) by {
                    assert(parts.skip(1)[m] == parts[m + 1]);
                }
            }
            lemma_segments_hold_no_other(rest, c);
            if j < i {
                assert(parts[0] == path.take(i));
                assert(is_segment_char(parts[0][j]));
            } else if j > i {
                assert(rest[j - i - 1] == c);
            }
        }
    }
}

/// In a path of segments no slash stands at the start or after another one.
proof fn lemma_no_empty_segment(path: Seq<char>, k: int)
    requires
        are_segments(strings::split(path, '/')),
        0 <= k < path.len(),
        path[k] == '/',
    ensures
        k > 0 && path[k - 1] != '/',
    decreases path.len(),
{
    strings::lemma_first_at(path, '/');
    let i = strings::first_at(path, '/');
    let parts = strings::split(path, '/');
    assert(is_segment(parts[0]));
    assert(parts[0] == path.take(i));
    if k > i {
        let rest = path.skip(i + 1);
        assert(parts.skip(1) =~= strings::split(rest, '/'));
        assert(are_segments(strings::split(rest, '/'))) by {
            assert forall|m: int| 0 <= m < parts.skip(1).len() implies is_segment(
                #[trigger] parts.skip(1)[m],
            ) by {
                assert(parts.skip(1)[m] == parts[m + 1]);
            }
        }
        let n = k - i - 1;
        assert(rest[n] == '/');
        lemma_no_empty_segment(rest, n);
        assert(rest[n - 1] == path[k - 1]);
    }
}

/// A host holds letters and digits of ASCII, dots, hyphens and the colon before a port.
/// A segment holds letters and digits of ASCII, dots, hyphens and underscores. Neither
/// is empty.
pub proof fn law_characters_of_a_path(c: char, s: Seq<char>)
    ensures
        is_host_char(c) == (48 <= c as int <= 58 || 65 <= c as int <= 90 || 97 <= c as int <= 122
            || c == '.' || c == '-'),
        is_segment_char(c) == (48 <= c as int <= 57 || 65 <= c as int <= 90 || 97 <= c as int
            <= 122 || c == '.' || c == '-' || c == '_'),
        is_host(s.push(c)) == (is_host_char(c) && (s.len() == 0 || is_host(s))),
        is_segment(s.push(c)) == (is_segment_char(c) && (s.len() == 0 || is_segment(s))),
        !is_host(Seq::<char>::empty()),
        !is_segment(Seq::<char>::empty()),
{
    let t = s.push(c);
    if is_host(t) {
        assert(is_host_char(t[s.len() as int]));
        assert forall|i: int| 0 <= i < s.len() implies is_host_char(#[trigger] s[i]) by {
            assert(is_host_char(t[i]));
        }
    }
    if is_segment(t) {
        assert(is_segment_char(t[s.len() as int]));
        assert forall|i: int| 0 <= i < s.len() implies is_segment_char(#[trigger] s[i]) by {
            assert(is_segment_char(t[i]));
        }
    }
}

/// What is read is what was written: the host, the path and the ref, or a sign for a
/// ref with none after it. Nothing else of the text is dropped.
pub proof fn law_all_of_the_text_is_read(body: Seq<char>)
    ensures
        remote_path(body) matches Some(r) ==> body == r.host + seq!['/'] + r.path + (
        match r.git_ref {
            Some(g) => seq!['@'] + g,
            None => if body.len() > 0 && body.last() == '@' {
                seq!['@']
            } else {
                seq![]
            },
        }) && r.path.contains('/'),
{
    if let Some(r) = remote_path(body) {
        let p = path_part(body);
        let parts = strings::split(p, '/');
        strings::lemma_first_at(p, '/');
        strings::lemma_last_at(body, '@');
        let at = strings::last_at(body, '@');
        let i = strings::first_at(p, '/');
        assert(parts[0] =~= p.take(i));
        assert(p =~= r.host + seq!['/'] + r.path);
        if at >= 0 {
            assert(body =~= body.take(at) + seq!['@'] + body.skip(at + 1));
            if r.git_ref is None {
                assert(body.skip(at + 1).len() == 0);
                assert(body.last() == body[at]);
            }
        } else {
            if body.len() > 0 && body.last() == '@' {
                assert(body[body.len() - 1] != '@');
            }
        }
        assert(body =~= r.host + seq!['/'] + r.path + (match r.git_ref {
            Some(g) => seq!['@'] + g,
            None => if body.len() > 0 && body.last() == '@' {
                seq!['@']
            } else {
                seq![]
            },
        }));
        law_read_is_well_formed(body);
        strings::lemma_first_at(r.path, '/');
        let j = strings::first_at(r.path, '/');
        if j < r.path.len() {
            assert(r.path[j] == '/');
        }
    }
}

/// A host and two or more segments are a path on the host, however many they are, and so
/// they are with a ref that can be asked for. A sign for a ref with none after it is no
/// ref. One segment is too few, and with a ref that cannot be asked for there is nothing.
pub proof fn law_every_path_is_read(
    host: Seq<char>,
    segments: Seq<Seq<char>>,
    g: Seq<char>,
    one: Seq<char>,
)
    requires
        is_host(host),
        segments.len() >= 2,
        forall|i: int| 0 <= i < segments.len() ==> is_segment(#[trigger] segments[i]),
        g.len() > 0,
        !g.contains('@'),
        is_segment(one),
    ensures
        ({
            let path = strings::join(segments, seq!['/']);
            let body = host + seq!['/'] + path;
            &&& remote_path(body) == Some(RemotePath { host, path, git_ref: None })
            &&& remote_path(body + seq!['@']) == Some(RemotePath { host, path, git_ref: None })
            &&& github::is_git_ref(g) ==> remote_path(body + seq!['@'] + g) == Some(
                RemotePath { host, path, git_ref: Some(g) },
            )
            &&& !github::is_git_ref(g) ==> remote_path(body + seq!['@'] + g) is None
            &&& remote_path(host + seq!['/'] + one) is None
        }),
{
    let path = strings::join(segments, seq!['/']);
    let body = host + seq!['/'] + path;
    assert forall|i: int| 0 <= i < segments.len() implies !(#[trigger] segments[i]).contains(
        '/',
    ) by {
        assert(is_segment(segments[i]));
    }
    strings::lemma_split_join(segments, '/');
    let bare = RemotePath { host, path, git_ref: None };
    let with = RemotePath { host, path, git_ref: Some(g) };
    assert(is_remote_path(bare));
    law_written_is_read_back(bare);
    assert(written(bare) =~= body);
    assert(!path.contains('@')) by {
        lemma_segments_hold_no_other(path, '@');
    }
    assert forall|j: int| 0 <= j < body.len() implies body[j] != '@' by {
        if j < host.len() {
            assert(is_host_char(host[j]));
        } else if j > host.len() {
            assert(body[j] == path[j - host.len() - 1]);
        }
    }
    let n = body.len() as int;
    strings::lemma_last_at_is(body, '@', -1);
    let sign = body + seq!['@'];
    assert(sign[n] == '@');
    strings::lemma_last_at_is(sign, '@', n);
    assert(sign.take(n) =~= body);
    assert(sign.skip(n + 1) =~= seq![]);
    let at = body + seq!['@'] + g;
    assert(at[n] == '@');
    assert forall|j: int| n < j < at.len() implies at[j] != '@' by {
        assert(at[j] == g[j - n - 1]);
        assert(g.contains(g[j - n - 1]));
    }
    strings::lemma_last_at_is(at, '@', n);
    assert(at.take(n) =~= body);
    assert(at.skip(n + 1) =~= g);
    let short = host + seq!['/'] + one;
    assert forall|j: int| 0 <= j < short.len() implies short[j] != '@' by {
        if j < host.len() {
            assert(is_host_char(host[j]));
        } else if j > host.len() {
            assert(is_segment_char(one[j - host.len() - 1]));
        }
    }
    strings::lemma_last_at_is(short, '@', -1);
    strings::lemma_split_between(host, '/', one);
    assert(!host.contains('/')) by {
        if host.contains('/') {
            let i = choose|i: int| 0 <= i < host.len() && host[i] == '/';
            assert(is_host_char(host[i]));
        }
    }
    assert forall|i: int| 0 <= i < host.len() implies host[i] != '/' by {
        assert(is_host_char(host[i]));
    }
    assert forall|i: int| 0 <= i < one.len() implies one[i] != '/' by {
        assert(is_segment_char(one[i]));
    }
    strings::lemma_split_one(host, '/');
    strings::lemma_split_one(one, '/');
}

} // verus!
