//! The `Remotes` field of a package description.

use vstd::prelude::*;

use crate::manifest::{Dependency, DependencySpec, Detail, DetailedDep};
use crate::registry::forgejo;
use crate::registry::gitlab;
use crate::registry::remote_path;
use crate::strings;
use crate::text;

verus! {

/// `name=path` parted into the name and the path. Without a name, or where what
/// follows the sign is no path, all of it is the path.
pub open spec fn explicit_name(body: Seq<char>) -> (Option<Seq<char>>, Seq<char>) {
    match strings::split_once(body, '=') {
        Some((n, p)) => if strings::trim(n).len() > 0 && strings::trim(p).contains('/') {
            (Some(strings::trim(n)), strings::trim(p))
        } else {
            (None, body)
        },
        None => (None, body),
    }
}

/// `path@ref#anchor` parted into the path and the ref. The anchor is dropped.
pub open spec fn path_and_ref(path: Seq<char>) -> (Seq<char>, Option<Seq<char>>) {
    match strings::split_once(path, '@') {
        Some((p, r)) => {
            let g = strings::trim(strings::before(r, '#'));
            (
                strings::trim(p),
                if g.len() == 0 {
                    None
                } else {
                    Some(g)
                },
            )
        },
        None => (strings::trim(strings::before(path, '#')), None),
    }
}

/// A dependency that comes from a repository.
pub open spec fn from_git(git: Seq<char>, rev: Option<Seq<char>>) -> Dependency {
    Dependency::Detailed(Detail { version: None, bioc: None, git: Some(git), rev })
}

/// The entry of the package `explicit`, or else `derived`, from `git`. A package
/// without a name is none.
pub open spec fn named_entry(
    explicit: Option<Seq<char>>,
    derived: Seq<char>,
    git: Seq<char>,
    rev: Option<Seq<char>>,
) -> Option<(Seq<char>, Dependency)> {
    let name = match explicit {
        Some(n) => n,
        None => derived,
    };
    if name.len() == 0 {
        None
    } else {
        Some((name, from_git(git, rev)))
    }
}

/// What `[name=]host/owner/repo[@ref]` on a Forgejo host declares.
pub open spec fn forgejo_entry(body: Seq<char>) -> Option<(Seq<char>, Dependency)> {
    let (explicit, path) = explicit_name(body);
    let (repo_path, rev) = path_and_ref(path);
    match forgejo::forgejo_parts(repo_path) {
        Some(p) => named_entry(
            explicit,
            p.repo,
            "forgejo::"@ + p.host + "/"@ + p.owner + "/"@ + p.repo,
            rev,
        ),
        None => None,
    }
}

/// What `[name=]host/group/.../project[@ref]` on a GitLab host declares.
pub open spec fn gitlab_entry(body: Seq<char>) -> Option<(Seq<char>, Dependency)> {
    let (explicit, path) = explicit_name(body);
    let (repo_path, rev) = path_and_ref(path);
    match gitlab::gitlab_parts(repo_path) {
        Some(p) => named_entry(
            explicit,
            strings::after_last(p.path, '/'),
            "gitlab::"@ + p.host + "/"@ + p.path,
            rev,
        ),
        None => None,
    }
}

/// What `[name=]owner/repo[@ref]` on GitHub declares.
pub open spec fn github_entry(body: Seq<char>) -> Option<(Seq<char>, Dependency)> {
    let (explicit, path) = explicit_name(body);
    let (repo_path, rev) = path_and_ref(path);
    if repo_path.contains('/') {
        named_entry(explicit, strings::after_last(repo_path, '/'), repo_path, rev)
    } else {
        None
    }
}

/// `entry` names a source other than GitHub.
pub open spec fn names_other_source(entry: Seq<char>) -> bool {
    match strings::first_text(entry, "::"@) {
        Some(i) => entry.take(i) != "github"@,
        None => false,
    }
}

/// What one entry of the field declares: the name of the package and where it
/// comes from.
pub open spec fn remote_entry(raw: Seq<char>) -> Option<(Seq<char>, Dependency)> {
    let entry = strings::trim(raw);
    if entry.len() == 0 {
        None
    } else if let Some(body) = strings::strip_prefix(entry, "forgejo::"@) {
        forgejo_entry(body)
    } else if let Some(body) = strings::strip_prefix(entry, "gitlab::"@) {
        gitlab_entry(body)
    } else if names_other_source(entry) {
        None
    } else if let Some(body) = strings::strip_prefix(entry, "github::"@) {
        github_entry(body)
    } else {
        github_entry(entry)
    }
}

/// What the entries declare, in their order.
pub open spec fn remote_entries(entries: Seq<Seq<char>>) -> Seq<(Seq<char>, Dependency)>
    decreases entries.len(),
{
    if entries.len() == 0 {
        seq![]
    } else {
        let before = remote_entries(entries.drop_last());
        match remote_entry(entries.last()) {
            Some(e) => before.push(e),
            None => before,
        }
    }
}

/// What the field declares.
pub open spec fn remotes_field(field: Seq<char>) -> Seq<(Seq<char>, Dependency)> {
    remote_entries(strings::split(field, ','))
}

/// Parts `name=path` into the name and the path.
fn split_explicit_name<'a>(body: &'a [char]) -> (r: (Option<&'a [char]>, &'a [char]))
    ensures
        match r.0 {
            Some(n) => explicit_name(body@) == (Some(n@), r.1@),
            None => explicit_name(body@) == (None::<Seq<char>>, r.1@),
        },
{
    match text::split_once(body, '=') {
        Some((n, p)) => {
            let name = text::trim(n);
            let path = text::trim(p);
            if name.len() > 0 && text::has_char(path, '/') {
                (Some(name), path)
            } else {
                (None, body)
            }
        },
        None => (None, body),
    }
}

/// Parts `path@ref#anchor` into the path and the ref.
fn split_path_and_ref<'a>(path: &'a [char]) -> (r: (&'a [char], Option<&'a [char]>))
    ensures
        match r.1 {
            Some(g) => path_and_ref(path@) == (r.0@, Some(g@)),
            None => path_and_ref(path@) == (r.0@, None::<Seq<char>>),
        },
{
    match text::split_once(path, '@') {
        Some((p, g)) => {
            let rev = text::trim(text::before(g, '#'));
            (
                text::trim(p),
                if rev.len() == 0 {
                    None
                } else {
                    Some(rev)
                },
            )
        },
        None => (text::trim(text::before(path, '#')), None),
    }
}

/// The entry of a package from a repository.
fn entry_of(
    explicit: Option<&[char]>,
    derived: String,
    git: String,
    rev: Option<&[char]>,
) -> (r: Option<(String, DependencySpec)>)
    ensures
        r.deep_view() == named_entry(
            match explicit {
                Some(n) => Some(n@),
                None => None,
            },
            derived@,
            git@,
            match rev {
                Some(g) => Some(g@),
                None => None,
            },
        ),
{
    let name = match explicit {
        Some(n) => text::string_of(n),
        None => derived,
    };
    if name.as_str().is_empty() {
        None
    } else {
        let spec = DependencySpec::Detailed(
            DetailedDep {
                version: None,
                bioc: None,
                git: Some(git),
                rev: match rev {
                    Some(g) => Some(text::string_of(g)),
                    None => None,
                },
            },
        );
        Some((name, spec))
    }
}

/// Reads `[name=]host/owner/repo[@ref]` of an entry with the prefix `forgejo::`.
/// The source keeps the prefix, which tells it from one on GitHub.
pub fn parse_forgejo_entry(body: &[char]) -> (r: Option<(String, DependencySpec)>)
    ensures
        r.deep_view() == forgejo_entry(body@),
{
    let (explicit, path) = split_explicit_name(body);
    let (repo_path, rev) = split_path_and_ref(path);
    let written = text::string_of(repo_path);
    match forgejo::parse_forgejo_parts(written.as_str()) {
        Some(p) => {
            let mut git = "forgejo::".to_owned();
            git.append(p.host.as_str());
            git.append("/");
            git.append(p.owner.as_str());
            git.append("/");
            git.append(p.repo.as_str());
            entry_of(explicit, p.repo, git, rev)
        },
        None => None,
    }
}

/// Reads `[name=]host/group/.../project[@ref]` of an entry with the prefix
/// `gitlab::`. The source keeps the prefix, which tells it from one on GitHub.
pub fn parse_gitlab_entry(body: &[char]) -> (r: Option<(String, DependencySpec)>)
    ensures
        r.deep_view() == gitlab_entry(body@),
{
    let (explicit, path) = split_explicit_name(body);
    let (repo_path, rev) = split_path_and_ref(path);
    let written = text::string_of(repo_path);
    match gitlab::parse_gitlab_parts(written.as_str()) {
        Some(p) => {
            let mut git = "gitlab::".to_owned();
            git.append(p.host.as_str());
            git.append("/");
            git.append(p.project_path.as_str());
            entry_of(explicit, p.project_name(), git, rev)
        },
        None => None,
    }
}

/// Reads `[name=]owner/repo[@ref]` of an entry on GitHub.
fn parse_github_entry(body: &[char]) -> (r: Option<(String, DependencySpec)>)
    ensures
        r.deep_view() == github_entry(body@),
{
    let (explicit, path) = split_explicit_name(body);
    let (repo_path, rev) = split_path_and_ref(path);
    if !text::has_char(repo_path, '/') {
        return None;
    }
    let derived = text::string_of(text::after_last(repo_path, '/'));
    entry_of(explicit, derived, text::string_of(repo_path), rev)
}

/// Reads one entry of the field.
fn parse_remote_entry(raw: &[char]) -> (r: Option<(String, DependencySpec)>)
    ensures
        r.deep_view() == remote_entry(raw@),
{
    let entry = text::trim(raw);
    if entry.len() == 0 {
        return None;
    }
    if let Some(body) = text::strip_prefix(entry, "forgejo::") {
        return parse_forgejo_entry(body);
    }
    if let Some(body) = text::strip_prefix(entry, "gitlab::") {
        return parse_gitlab_entry(body);
    }
    let colons = text::chars_of("::");
    if let Some(i) = text::first_text(entry, colons.as_slice()) {
        let prefix = vstd::slice::slice_subrange(entry, 0, i);
        assert(prefix@ =~= entry@.take(i as int));
        if !text::is_text(prefix, "github") {
            return None;
        }
    }
    match text::strip_prefix(entry, "github::") {
        Some(body) => parse_github_entry(body),
        None => parse_github_entry(entry),
    }
}

/// Reads a `Remotes` field into packages and where they come from. An entry is
/// `[name=]owner/repo[@ref]` on GitHub, with or without the prefix `github::`, or
/// one with the prefix `forgejo::` or `gitlab::`. Entries of other sources, and
/// entries that are malformed, are passed over.
pub fn parse_remotes_field(field: &str) -> (r: Vec<(String, DependencySpec)>)
    ensures
        r.deep_view() == remotes_field(field@),
{
    let cs = text::chars_of(field);
    let entries = text::split(cs.as_slice(), ',');
    let ghost all = text::views(entries@);
    let mut out: Vec<(String, DependencySpec)> = Vec::new();
    let mut i: usize = 0;
    assert(out.deep_view() =~= remote_entries(all.take(0)));
    while i < entries.len()
        invariant
            i <= entries@.len(),
            all == text::views(entries@),
            out.deep_view() == remote_entries(all.take(i as int)),
        decreases entries@.len() - i,
    {
        assert(all.take(i + 1).drop_last() =~= all.take(i as int));
        assert(all.take(i + 1).last() == entries@[i as int]@);
        let ghost before = out.deep_view();
        if let Some(e) = parse_remote_entry(entries[i]) {
            out.push(e);
            assert(out.deep_view() =~= before.push(e.deep_view()));
        }
        i += 1;
    }
    assert(all.take(i as int) =~= all);
    out
}

/// The source that an entry on a GitLab host is given reads back as the project
/// that the entry named: its prefix leads to the right host and project.
pub proof fn law_gitlab_source_is_read_back(body: Seq<char>)
    ensures
        gitlab_entry(body) matches Some((_, Dependency::Detailed(d))) ==> {
            &&& d.git matches Some(git)
            &&& gitlab::gitlab_parts(git) matches Some(back)
            &&& gitlab::gitlab_parts(path_and_ref(explicit_name(body).1).0) matches Some(named)
            &&& back.host == named.host
            &&& back.path == named.path
            &&& back.git_ref is None
        },
{
    let spec = path_and_ref(explicit_name(body).1).0;
    if let Some(p) = gitlab::gitlab_parts(spec) {
        gitlab::law_read_spec_is_well_formed(spec);
        let bare = remote_path::RemotePath { host: p.host, path: p.path, git_ref: None };
        gitlab::law_written_spec_is_read_back(bare);
        reveal_strlit("/");
        assert("gitlab::"@ + p.host + "/"@ + p.path =~= "gitlab::"@ + remote_path::written(bare));
    }
}

/// The source that an entry on a Forgejo host is given reads back as the repository
/// that the entry named.
pub proof fn law_forgejo_source_is_read_back(body: Seq<char>)
    ensures
        forgejo_entry(body) matches Some((_, Dependency::Detailed(d))) ==> {
            &&& d.git matches Some(git)
            &&& forgejo::forgejo_parts(git) matches Some(back)
            &&& forgejo::forgejo_parts(path_and_ref(explicit_name(body).1).0) matches Some(named)
            &&& back.host == named.host
            &&& back.owner == named.owner
            &&& back.repo == named.repo
            &&& back.git_ref is None
        },
{
    let spec = path_and_ref(explicit_name(body).1).0;
    if let Some(p) = forgejo::forgejo_parts(spec) {
        forgejo::law_read_spec_is_well_formed(spec);
        let bare = forgejo::ForgejoRepo {
            host: p.host,
            owner: p.owner,
            repo: p.repo,
            git_ref: None,
        };
        forgejo::law_written_spec_is_read_back(bare);
        reveal_strlit("/");
        let w = remote_path::written(forgejo::as_remote_path(bare));
        assert("forgejo::"@ + p.host + "/"@ + p.owner + "/"@ + p.repo =~= "forgejo::"@ + w);
    }
}

/// Entries one after another declare what they declare.
proof fn lemma_entries_after_entries(a: Seq<Seq<char>>, b: Seq<Seq<char>>)
    ensures
        remote_entries(a + b) == remote_entries(a) + remote_entries(b),
    decreases b.len(),
{
    let both = a + b;
    if b.len() == 0 {
        assert(both =~= a);
        assert(remote_entries(a) + remote_entries(b) =~= remote_entries(a));
    } else {
        lemma_entries_after_entries(a, b.drop_last());
        assert(both.drop_last() =~= a + b.drop_last());
        assert(both.last() == b.last());
        assert(remote_entries(both) =~= remote_entries(a) + remote_entries(b));
    }
}

/// The entries of a field are read one by one: what stands before a comma has no
/// bearing on what stands after it, so an entry that is none takes no other with it.
pub proof fn law_entries_are_read_apart(left: Seq<char>, right: Seq<char>)
    ensures
        remotes_field(left + seq![','] + right) == remotes_field(left) + remotes_field(right),
{
    strings::lemma_split_between(left, ',', right);
    lemma_entries_after_entries(strings::split(left, ','), strings::split(right, ','));
}

/// A text that can be part of a repository's path or of a ref: not empty, and without
/// white space, commas and signs that have a meaning in an entry.
pub open spec fn is_plain(s: Seq<char>) -> bool {
    &&& s.len() > 0
    &&& forall|i: int| 0 <= i < s.len() ==> is_plain_char(#[trigger] s[i])
}

/// A character that has no meaning of its own in an entry.
pub open spec fn is_plain_char(c: char) -> bool {
    !strings::is_white(c) && c != '/' && c != '@' && c != '#' && c != '=' && c != ':' && c != ','
}

/// A path of two plain parts.
proof fn lemma_plain_path(owner: Seq<char>, repo: Seq<char>)
    requires
        is_plain(owner),
        is_plain(repo),
    ensures
        ({
            let p = owner + seq!['/'] + repo;
            &&& forall|i: int|
                0 <= i < p.len() ==> (#[trigger] p[i] == '/' || is_plain_char(p[i]))
            &&& strings::is_trimmed(p)
            &&& p.contains('/')
            &&& strings::after_last(p, '/') == repo
            &&& p.len() >= 3
        }),
{
    let p = owner + seq!['/'] + repo;
    assert forall|i: int| 0 <= i < p.len() implies (#[trigger] p[i] == '/' || is_plain_char(
        p[i],
    )) by {
        if i < owner.len() {
            assert(is_plain_char(owner[i]));
        } else if i > owner.len() {
            assert(is_plain_char(repo[i - owner.len() - 1]));
        }
    }
    assert(p[0] == owner[0] && p.last() == repo.last());
    assert(is_plain_char(owner[0]));
    assert(is_plain_char(repo[repo.len() - 1]));
    let k = owner.len() as int;
    assert(p[k] == '/');
    assert forall|j: int| k < j < p.len() implies p[j] != '/' by {
        assert(is_plain_char(repo[j - k - 1]));
    }
    strings::lemma_last_at_is(p, '/', k);
    assert(p.skip(k + 1) =~= repo);
}

/// What stands before the first `c` is all of a text that does not hold it.
proof fn lemma_first_after(head: Seq<char>, c: char, tail: Seq<char>)
    requires
        forall|i: int| 0 <= i < head.len() ==> #[trigger] head[i] != c,
    ensures
        strings::split_once(head + seq![c] + tail, c) == Some((head, tail)),
        strings::before(head + seq![c] + tail, c) == head,
        strings::split_once(head, c) is None,
        strings::before(head, c) == head,
{
    let s = head + seq![c] + tail;
    assert forall|j: int| 0 <= j < head.len() implies s[j] != c by {
        assert(s[j] == head[j]);
    }
    strings::lemma_first_at_is(s, c, head.len() as int);
    strings::lemma_first_at_is(head, c, head.len() as int);
    assert(s.take(head.len() as int) =~= head);
    assert(s.skip(head.len() as int + 1) =~= tail);
    assert(head.take(head.len() as int) =~= head);
}

/// `owner/repo` with a ref or an anchor, or both, parts into the path and the ref.
proof fn lemma_path_and_ref(p: Seq<char>, g: Seq<char>, anchor: Seq<char>)
    requires
        forall|i: int| 0 <= i < p.len() ==> #[trigger] p[i] != '@' && p[i] != '#',
        strings::is_trimmed(p),
        forall|i: int| 0 <= i < g.len() ==> #[trigger] g[i] != '#',
        strings::is_trimmed(g),
    ensures
        path_and_ref(p) == (p, None::<Seq<char>>),
        g.len() > 0 ==> path_and_ref(p + seq!['@'] + g) == (p, Some(g)),
        g.len() > 0 ==> path_and_ref(p + seq!['@'] + (g + seq!['#'] + anchor)) == (p, Some(g)),
        (forall|i: int| 0 <= i < anchor.len() ==> #[trigger] anchor[i] != '@') ==> path_and_ref(
            p + seq!['#'] + anchor,
        ) == (p, None::<Seq<char>>),
{
    lemma_first_after(p, '@', g);
    lemma_first_after(p, '@', g + seq!['#'] + anchor);
    lemma_first_after(p, '#', anchor);
    lemma_first_after(g, '#', anchor);
    strings::lemma_trim_trimmed(p);
    strings::lemma_trim_trimmed(g);
    if forall|i: int| 0 <= i < anchor.len() ==> #[trigger] anchor[i] != '@' {
        let s = p + seq!['#'] + anchor;
        assert forall|i: int| 0 <= i < s.len() implies #[trigger] s[i] != '@' by {
            if i > p.len() {
                assert(anchor[i - p.len() - 1] != '@');
            }
        }
        lemma_first_after(s, '@', seq![]);
    }
}

/// An entry without a sign for a name has none.
proof fn lemma_no_explicit_name(body: Seq<char>)
    requires
        forall|i: int| 0 <= i < body.len() ==> #[trigger] body[i] != '=',
    ensures
        explicit_name(body) == (None::<Seq<char>>, body),
{
    lemma_first_after(body, '=', seq![]);
}

/// `owner/repo` on GitHub declares the package `repo` from there. A ref after `@` is
/// kept, and what follows a `#` is dropped.
pub proof fn law_github_entry_is_read(
    owner: Seq<char>,
    repo: Seq<char>,
    g: Seq<char>,
    anchor: Seq<char>,
)
    requires
        is_plain(owner),
        is_plain(repo),
        is_plain(g),
        is_plain(anchor),
    ensures
        ({
            let p = owner + seq!['/'] + repo;
            &&& github_entry(p) == Some((repo, from_git(p, None)))
            &&& github_entry(p + seq!['@'] + g) == Some((repo, from_git(p, Some(g))))
            &&& github_entry(p + seq!['#'] + anchor) == Some((repo, from_git(p, None)))
            &&& github_entry(p + seq!['@'] + (g + seq!['#'] + anchor)) == Some(
                (repo, from_git(p, Some(g))),
            )
        }),
{
    let p = owner + seq!['/'] + repo;
    lemma_plain_path(owner, repo);
    assert forall|i: int| 0 <= i < g.len() implies #[trigger] g[i] != '#' && g[i] != '=' by {
        assert(is_plain_char(g[i]));
    }
    assert(is_plain_char(g[0]) && is_plain_char(g[g.len() - 1]));
    assert forall|i: int| 0 <= i < anchor.len() implies #[trigger] anchor[i] != '@' && anchor[i]
        != '=' by {
        assert(is_plain_char(anchor[i]));
    }
    assert forall|i: int| 0 <= i < p.len() implies #[trigger] p[i] != '@' && p[i] != '#' by {
        assert(p[i] == '/' || is_plain_char(p[i]));
    }
    lemma_path_and_ref(p, g, anchor);
    let a = p + seq!['@'] + g;
    let b = p + seq!['#'] + anchor;
    let c = p + seq!['@'] + (g + seq!['#'] + anchor);
    assert forall|i: int| 0 <= i < p.len() implies #[trigger] p[i] != '=' by {
        assert(p[i] == '/' || is_plain_char(p[i]));
    }
    assert forall|i: int| 0 <= i < a.len() implies #[trigger] a[i] != '=' by {
        if i < p.len() {
            assert(p[i] != '=');
        } else if i > p.len() {
            assert(g[i - p.len() - 1] != '=');
        }
    }
    assert forall|i: int| 0 <= i < b.len() implies #[trigger] b[i] != '=' by {
        if i < p.len() {
            assert(p[i] != '=');
        } else if i > p.len() {
            assert(anchor[i - p.len() - 1] != '=');
        }
    }
    assert forall|i: int| 0 <= i < c.len() implies #[trigger] c[i] != '=' by {
        let k = p.len() as int + 1;
        if i < p.len() {
            assert(p[i] != '=');
        } else if k <= i < k + g.len() {
            assert(g[i - k] != '=');
        } else if i > k + g.len() {
            assert(anchor[i - k - g.len() - 1] != '=');
        }
    }
    lemma_no_explicit_name(p);
    lemma_no_explicit_name(a);
    lemma_no_explicit_name(b);
    lemma_no_explicit_name(c);
}

/// `name=path` binds the source to the name, whatever the path is called; without a
/// slash after the sign there is no name.
pub proof fn law_explicit_name_is_bound(
    before: Seq<char>,
    name: Seq<char>,
    gap: Seq<char>,
    path: Seq<char>,
    after: Seq<char>,
)
    requires
        strings::all_white(before),
        strings::all_white(gap),
        strings::all_white(after),
        strings::is_trimmed(name),
        strings::is_trimmed(path),
        !name.contains('='),
    ensures
        ({
            let body = before + name + gap + seq!['='] + (gap + path + after);
            &&& name.len() > 0 && path.contains('/') ==> explicit_name(body) == (Some(name), path)
            &&& name.len() == 0 || !path.contains('/') ==> explicit_name(body) == (
                None::<Seq<char>>,
                body,
            )
        }),
{
    let head = before + name + gap;
    let tail = gap + path + after;
    assert forall|i: int| 0 <= i < head.len() implies #[trigger] head[i] != '=' by {
        if i < before.len() {
            assert(strings::is_white(before[i]));
        } else if i < before.len() + name.len() {
            assert(name.contains(name[i - before.len()]));
        } else {
            assert(strings::is_white(gap[i - before.len() - name.len()]));
        }
    }
    lemma_first_after(head, '=', tail);
    strings::law_trim_takes_white_space_away(before, name, gap);
    strings::law_trim_takes_white_space_away(gap, path, after);
}

/// An explicit name goes before the one that the path gives. A source is what it is
/// named, with its ref and nothing else.
pub proof fn law_explicit_name_goes_first(
    explicit: Option<Seq<char>>,
    derived: Seq<char>,
    git: Seq<char>,
    rev: Option<Seq<char>>,
)
    ensures
        ({
            let name = match explicit {
                Some(n) => n,
                None => derived,
            };
            match named_entry(explicit, derived, git, rev) {
                Some((n, Dependency::Detailed(d))) => n == name && n.len() > 0 && d.git == Some(git)
                    && d.rev == rev && d.version is None && d.bioc is None,
                Some((_, Dependency::Version(_))) => false,
                None => name.len() == 0,
            }
        }),
{
}

/// Which source an entry names: `forgejo::` and `gitlab::` go to their hosts, and
/// `github::` says what goes without saying. White space around an entry has no
/// bearing, and an empty one declares nothing.
pub proof fn law_prefix_tells_the_source(before: Seq<char>, body: Seq<char>, after: Seq<char>)
    requires
        strings::all_white(before),
        strings::all_white(after),
        strings::is_trimmed(body),
        body.len() > 0,
    ensures
        remote_entry(before + ("forgejo::"@ + body) + after) == forgejo_entry(body),
        remote_entry(before + ("gitlab::"@ + body) + after) == gitlab_entry(body),
        remote_entry(before + ("github::"@ + body) + after) == github_entry(body),
        !strings::contains_text(body, "::"@) ==> remote_entry(before + body + after)
            == github_entry(body),
        remote_entry(before + after) is None,
{
    reveal_strlit("forgejo::");
    reveal_strlit("gitlab::");
    reveal_strlit("github::");
    reveal_strlit("github");
    reveal_strlit("::");
    let f = "forgejo::"@ + body;
    let l = "gitlab::"@ + body;
    let h = "github::"@ + body;
    assert(f[0] == 'f' && f.last() == body.last());
    assert(l[0] == 'g' && l.last() == body.last());
    assert(h[0] == 'g' && h.last() == body.last());
    strings::law_trim_takes_white_space_away(before, f, after);
    strings::law_trim_takes_white_space_away(before, l, after);
    strings::law_trim_takes_white_space_away(before, h, after);
    strings::law_trim_takes_white_space_away(before, body, after);
    strings::law_trim_takes_white_space_away(before, seq![], after);
    assert(before + Seq::<char>::empty() + after =~= before + after);
    assert(f.take(9) =~= "forgejo::"@ && f.skip(9) =~= body);
    assert(l.take(8) =~= "gitlab::"@ && l.skip(8) =~= body);
    assert(h.take(8) =~= "github::"@ && h.skip(8) =~= body);
    assert(l.take(9)[0] == 'g' || l.len() < 9);
    assert(!strings::starts_with(l, "forgejo::"@)) by {
        if strings::starts_with(l, "forgejo::"@) {
            assert(l.take(9)[0] == l[0]);
        }
    }
    assert(!strings::starts_with(h, "forgejo::"@)) by {
        if strings::starts_with(h, "forgejo::"@) {
            assert(h.take(9)[0] == h[0]);
        }
    }
    assert(!strings::starts_with(h, "gitlab::"@)) by {
        if strings::starts_with(h, "gitlab::"@) {
            assert(h.take(8)[3] == h[3]);
        }
    }
    assert(h.subrange(6, 8) =~= "::"@);
    assert(strings::occurs_at(h, "::"@, 6));
    assert forall|j: int| 0 <= j < 6 implies !#[trigger] strings::occurs_at(h, "::"@, j) by {
        if strings::occurs_at(h, "::"@, j) {
            assert(h.subrange(j, j + 2)[0] == h[j]);
            assert(h[j] == "github::"@[j]);
        }
    }
    strings::lemma_first_text_is(h, "::"@, 6);
    assert(h.take(6) =~= "github"@);
    if !strings::contains_text(body, "::"@) {
        strings::lemma_first_text(body, "::"@);
        if let Some(i) = strings::first_text(body, "::"@) {
            assert(strings::occurs_at(body, "::"@, i));
        }
        assert(!strings::starts_with(body, "forgejo::"@)) by {
            if strings::starts_with(body, "forgejo::"@) {
                let t = body.take(9);
                assert(t[7] == body[7] && t[8] == body[8]);
                assert(body.subrange(7, 9) =~= "::"@);
                assert(strings::occurs_at(body, "::"@, 7));
            }
        }
        assert(!strings::starts_with(body, "gitlab::"@)) by {
            if strings::starts_with(body, "gitlab::"@) {
                let t = body.take(8);
                assert(t[6] == body[6] && t[7] == body[7]);
                assert(body.subrange(6, 8) =~= "::"@);
                assert(strings::occurs_at(body, "::"@, 6));
            }
        }
        assert(!strings::starts_with(body, "github::"@)) by {
            if strings::starts_with(body, "github::"@) {
                let t = body.take(8);
                assert(t[6] == body[6] && t[7] == body[7]);
                assert(body.subrange(6, 8) =~= "::"@);
                assert(strings::occurs_at(body, "::"@, 6));
            }
        }
    }
}

/// An entry with any other prefix is passed over.
pub proof fn law_other_sources_are_passed_over(source: Seq<char>, body: Seq<char>)
    requires
        is_plain(source),
        strings::is_trimmed(body),
        body.len() > 0,
        source != "forgejo"@,
        source != "gitlab"@,
        source != "github"@,
    ensures
        remote_entry(source + seq![':', ':'] + body) is None,
{
    let e = source + seq![':', ':'] + body;
    reveal_strlit("forgejo::");
    reveal_strlit("gitlab::");
    reveal_strlit("forgejo");
    reveal_strlit("gitlab");
    reveal_strlit("::");
    assert(is_plain_char(source[0]));
    assert(e[0] == source[0] && e.last() == body.last());
    strings::lemma_trim_trimmed(e);
    let n = source.len() as int;
    assert(e.subrange(n, n + 2) =~= "::"@);
    assert(strings::occurs_at(e, "::"@, n));
    assert forall|j: int| 0 <= j < n implies !#[trigger] strings::occurs_at(e, "::"@, j) by {
        if strings::occurs_at(e, "::"@, j) {
            assert(e.subrange(j, j + 2)[0] == e[j]);
            assert(is_plain_char(source[j]));
        }
    }
    strings::lemma_first_text_is(e, "::"@, n);
    assert(e.take(n) =~= source);
    assert(!strings::starts_with(e, "forgejo::"@)) by {
        if strings::starts_with(e, "forgejo::"@) {
            let t = e.take(9);
            assert(t == "forgejo::"@);
            assert forall|i: int| 0 <= i < 7 implies #[trigger] e[i] != ':' by {
                assert(t[i] == e[i]);
            }
            assert(t[7] == e[7]);
            lemma_prefix_is_source(e, source, 7);
            assert(source =~= "forgejo"@) by {
                assert forall|i: int| 0 <= i < 7 implies source[i] == "forgejo"@[i] by {
                    assert(t[i] == e[i]);
                }
            }
        }
    }
    assert(!strings::starts_with(e, "gitlab::"@)) by {
        if strings::starts_with(e, "gitlab::"@) {
            let t = e.take(8);
            assert(t == "gitlab::"@);
            assert forall|i: int| 0 <= i < 6 implies #[trigger] e[i] != ':' by {
                assert(t[i] == e[i]);
            }
            assert(t[6] == e[6]);
            lemma_prefix_is_source(e, source, 6);
            assert(source =~= "gitlab"@) by {
                assert forall|i: int| 0 <= i < 6 implies source[i] == "gitlab"@[i] by {
                    assert(t[i] == e[i]);
                }
            }
        }
    }
}

/// The first colon of an entry ends its source.
proof fn lemma_prefix_is_source(e: Seq<char>, source: Seq<char>, n: int)
    requires
        is_plain(source),
        source.len() < e.len(),
        e[source.len() as int] == ':',
        forall|i: int| 0 <= i < source.len() ==> e[i] == #[trigger] source[i],
        0 <= n < e.len(),
        e[n] == ':',
        forall|i: int| 0 <= i < n ==> #[trigger] e[i] != ':',
    ensures
        source.len() == n,
{
    if n < source.len() {
        assert(is_plain_char(source[n]));
    }
    if n > source.len() {
        assert(e[source.len() as int] == ':');
    }
}

/// A path without a ref, a name or an anchor, that leads into a host.
pub open spec fn is_bare_path(body: Seq<char>) -> bool {
    &&& strings::is_trimmed(body)
    &&& body.contains('/')
    &&& !body.contains('=')
    &&& !body.contains('@')
    &&& !body.contains('#')
}

/// A ref that stands after a path.
pub open spec fn is_ref_text(g: Seq<char>) -> bool {
    &&& strings::is_trimmed(g)
    &&& g.len() > 0
    &&& !g.contains('=')
    &&& !g.contains('#')
}

/// How a bare path is parted, alone, with a ref, and with a name and a ref.
proof fn lemma_parting(body: Seq<char>, g: Seq<char>, name: Seq<char>)
    requires
        is_bare_path(body),
        is_ref_text(g),
        strings::is_trimmed(name),
        name.len() > 0,
        !name.contains('='),
    ensures
        ({
            let at = body + seq!['@'] + g;
            &&& explicit_name(body) == (None::<Seq<char>>, body)
            &&& explicit_name(at) == (None::<Seq<char>>, at)
            &&& explicit_name(name + seq!['='] + at) == (Some(name), at)
            &&& explicit_name(name + seq!['='] + body) == (Some(name), body)
            &&& path_and_ref(body) == (body, None::<Seq<char>>)
            &&& path_and_ref(at) == (body, Some(g))
        }),
{
    let at = body + seq!['@'] + g;
    assert forall|i: int| 0 <= i < body.len() implies #[trigger] body[i] != '@' && body[i] != '#'
        && body[i] != '=' by {
        assert(body.contains(body[i]));
    }
    assert forall|i: int| 0 <= i < g.len() implies #[trigger] g[i] != '#' && g[i] != '=' by {
        assert(g.contains(g[i]));
    }
    assert forall|i: int| 0 <= i < name.len() implies #[trigger] name[i] != '=' by {
        assert(name.contains(name[i]));
    }
    assert forall|i: int| 0 <= i < at.len() implies #[trigger] at[i] != '=' by {
        if i < body.len() {
            assert(body[i] != '=');
        } else if i > body.len() {
            assert(g[i - body.len() - 1] != '=');
        }
    }
    lemma_no_explicit_name(body);
    lemma_no_explicit_name(at);
    lemma_path_and_ref(body, g, seq![]);
    let k = choose|k: int| 0 <= k < body.len() && body[k] == '/';
    assert(at[k] == '/');
    assert(at[0] == body[0] && at.last() == g.last());
    strings::lemma_trim_trimmed(name);
    strings::lemma_trim_trimmed(body);
    strings::lemma_trim_trimmed(at);
    lemma_first_after(name, '=', at);
    lemma_first_after(name, '=', body);
}

/// An entry on a GitLab host is the package named like the last part of its path, or
/// as the entry says, from the project that the path names, at the ref that it names.
pub proof fn law_gitlab_entry_is_read(body: Seq<char>, g: Seq<char>, name: Seq<char>)
    requires
        is_bare_path(body),
        is_ref_text(g),
        strings::is_trimmed(name),
        name.len() > 0,
        !name.contains('='),
    ensures
        ({
            let at = body + seq!['@'] + g;
            match gitlab::gitlab_parts(body) {
                Some(p) => {
                    let git = "gitlab::"@ + p.host + "/"@ + p.path;
                    let last = strings::after_last(p.path, '/');
                    &&& last.len() > 0 ==> gitlab_entry(body) == Some((last, from_git(git, None)))
                    &&& last.len() > 0 ==> gitlab_entry(at) == Some((last, from_git(git, Some(g))))
                    &&& gitlab_entry(name + seq!['='] + body) == Some((name, from_git(git, None)))
                    &&& gitlab_entry(name + seq!['='] + at) == Some((name, from_git(git, Some(g))))
                },
                None => gitlab_entry(body) is None && gitlab_entry(at) is None && gitlab_entry(
                    name + seq!['='] + at,
                ) is None,
            }
        }),
{
    lemma_parting(body, g, name);
}

/// An entry on a Forgejo host is the package named like its repository, or as the
/// entry says, from the repository that the path names, at the ref that it names.
pub proof fn law_forgejo_entry_is_read(body: Seq<char>, g: Seq<char>, name: Seq<char>)
    requires
        is_bare_path(body),
        is_ref_text(g),
        strings::is_trimmed(name),
        name.len() > 0,
        !name.contains('='),
    ensures
        ({
            let at = body + seq!['@'] + g;
            match forgejo::forgejo_parts(body) {
                Some(p) => {
                    let git = "forgejo::"@ + p.host + "/"@ + p.owner + "/"@ + p.repo;
                    &&& p.repo.len() > 0 ==> forgejo_entry(body) == Some(
                        (p.repo, from_git(git, None)),
                    )
                    &&& p.repo.len() > 0 ==> forgejo_entry(at) == Some(
                        (p.repo, from_git(git, Some(g))),
                    )
                    &&& forgejo_entry(name + seq!['='] + body) == Some((name, from_git(git, None)))
                    &&& forgejo_entry(name + seq!['='] + at) == Some((name, from_git(git, Some(g))))
                },
                None => forgejo_entry(body) is None && forgejo_entry(at) is None && forgejo_entry(
                    name + seq!['='] + at,
                ) is None,
            }
        }),
{
    lemma_parting(body, g, name);
}

/// An entry on GitHub takes the name that it says, and the path and the ref that
/// follow it. One without an owner declares nothing.
pub proof fn law_github_entry_takes_its_name(body: Seq<char>, g: Seq<char>, name: Seq<char>)
    requires
        is_bare_path(body),
        is_ref_text(g),
        strings::is_trimmed(name),
        name.len() > 0,
        !name.contains('='),
        !name.contains('/'),
    ensures
        github_entry(name + seq!['='] + body) == Some((name, from_git(body, None))),
        github_entry(name + seq!['='] + (body + seq!['@'] + g)) == Some(
            (name, from_git(body, Some(g))),
        ),
        !name.contains('@') && !name.contains('#') ==> github_entry(name) is None,
{
    lemma_parting(body, g, name);
    if !name.contains('@') && !name.contains('#') {
        assert forall|i: int| 0 <= i < name.len() implies #[trigger] name[i] != '@' && name[i]
            != '#' && name[i] != '=' by {
            assert(name.contains(name[i]));
        }
        lemma_no_explicit_name(name);
        lemma_path_and_ref(name, g, seq![]);
    }
}

} // verus!
