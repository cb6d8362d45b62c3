//! Forgejo.

use vstd::prelude::*;

use crate::registry::github;
use crate::registry::remote_path;
use crate::strings;
use crate::text;

verus! {

/// A repository on a Forgejo host. `git_ref` is `None` where no ref is named.
#[derive(Debug, Clone, PartialEq, Eq)]
pub struct ForgejoSpec {
    pub host: String,
    pub owner: String,
    pub repo: String,
    pub git_ref: Option<String>,
}

/// What a [`ForgejoSpec`] holds.
pub struct ForgejoRepo {
    pub host: Seq<char>,
    pub owner: Seq<char>,
    pub repo: Seq<char>,
    pub git_ref: Option<Seq<char>>,
}

impl DeepView for ForgejoSpec {
    type V = ForgejoRepo;

    open spec fn deep_view(&self) -> ForgejoRepo {
        ForgejoRepo {
            host: self.host@,
            owner: self.owner@,
            repo: self.repo@,
            git_ref: self.git_ref.deep_view(),
        }
    }
}

/// The repository that `[forgejo::]host/owner/repo[@ref]` names.
pub open spec fn forgejo_parts(spec: Seq<char>) -> Option<ForgejoRepo> {
    let body = match strings::strip_prefix(spec, "forgejo::"@) {
        Some(b) => b,
        None => spec,
    };
    match remote_path::remote_path(body) {
        Some(r) => {
            let parts = strings::split(r.path, '/');
            if parts.len() == 2 {
                Some(
                    ForgejoRepo {
                        host: r.host,
                        owner: parts[0],
                        repo: parts[1],
                        git_ref: r.git_ref,
                    },
                )
            } else {
                None
            }
        },
        None => None,
    }
}

/// Reads and validates `[forgejo::]host/owner/repo[@ref]`.
pub fn parse_forgejo_parts(spec: &str) -> (r: Option<ForgejoSpec>)
    ensures
        r.deep_view() == forgejo_parts(spec@),
{
    let cs = text::chars_of(spec);
    let body = match text::strip_prefix(cs.as_slice(), "forgejo::") {
        Some(b) => b,
        None => cs.as_slice(),
    };
    let p = match remote_path::parse_remote_path(body) {
        Some(p) => p,
        None => {
            return None;
        },
    };
    let parts = text::split(p.path, '/');
    if parts.len() != 2 {
        return None;
    }
    assert(parts@[0]@ == strings::split(p.path@, '/')[0]);
    assert(parts@[1]@ == strings::split(p.path@, '/')[1]);
    Some(
        ForgejoSpec {
            host: text::string_of(p.host),
            owner: text::string_of(parts[0]),
            repo: text::string_of(parts[1]),
            git_ref: match p.git_ref {
                Some(g) => Some(text::string_of(g)),
                None => None,
            },
        },
    )
}

/// A repository that can be written down and read again.
pub open spec fn is_forgejo_repo(r: ForgejoRepo) -> bool {
    &&& remote_path::is_host(r.host)
    &&& remote_path::is_segment(r.owner)
    &&& remote_path::is_segment(r.repo)
    &&& r.git_ref matches Some(g) ==> github::is_git_ref(g) && !g.contains('@')
}

/// A repository as a host with a path.
pub open spec fn as_remote_path(r: ForgejoRepo) -> remote_path::RemotePath {
    remote_path::RemotePath {
        host: r.host,
        path: r.owner + seq!['/'] + r.repo,
        git_ref: r.git_ref,
    }
}

/// The path of an owner and a repository parts into the two.
proof fn lemma_owner_and_repo(owner: Seq<char>, repo: Seq<char>)
    requires
        remote_path::is_segment(owner),
        remote_path::is_segment(repo),
    ensures
        strings::split(owner + seq!['/'] + repo, '/') == seq![owner, repo],
{
    let parts = seq![owner, repo];
    assert forall|i: int| 0 <= i < parts.len() implies !(#[trigger] parts[i]).contains('/') by {
        assert(remote_path::is_segment(parts[i]));
    }
    strings::lemma_split_join(parts, '/');
    assert(parts.drop_last() =~= seq![owner]);
    assert(strings::join(parts.drop_last(), seq!['/']) =~= owner);
    assert(strings::join(parts, seq!['/']) =~= owner + seq!['/'] + repo);
}

/// A repository that is written down, with the prefix, is read back as it was.
pub proof fn law_written_spec_is_read_back(r: ForgejoRepo)
    requires
        is_forgejo_repo(r),
    ensures
        forgejo_parts("forgejo::"@ + remote_path::written(as_remote_path(r))) == Some(r),
{
    let p = "forgejo::"@;
    let remote = as_remote_path(r);
    let w = remote_path::written(remote);
    assert((p + w).take(p.len() as int) =~= p);
    assert((p + w).skip(p.len() as int) =~= w);
    lemma_owner_and_repo(r.owner, r.repo);
    assert(remote_path::is_remote_path(remote));
    remote_path::law_written_is_read_back(remote);
}

/// Every spec that is read gives a well-formed repository.
pub proof fn law_read_spec_is_well_formed(spec: Seq<char>)
    ensures
        forgejo_parts(spec) matches Some(r) ==> is_forgejo_repo(r),
{
    let body = match strings::strip_prefix(spec, "forgejo::"@) {
        Some(b) => b,
        None => spec,
    };
    remote_path::law_read_is_well_formed(body);
    if let Some(r) = remote_path::remote_path(body) {
        let parts = strings::split(r.path, '/');
        if parts.len() == 2 {
            assert(remote_path::is_segment(parts[0]));
            assert(remote_path::is_segment(parts[1]));
        }
    }
}

/// The prefix may be left out.
pub proof fn law_prefix_may_be_left_out(body: Seq<char>)
    requires
        !strings::starts_with(body, "forgejo::"@),
    ensures
        forgejo_parts("forgejo::"@ + body) == forgejo_parts(body),
{
    let p = "forgejo::"@;
    assert((p + body).take(p.len() as int) =~= p);
    assert((p + body).skip(p.len() as int) =~= body);
}

/// A spec is an owner and a repository on a host: the parts that are read, joined
/// again, are the path that was written, and its host and its ref are kept.
pub proof fn law_parts_are_of_the_spec(body: Seq<char>)
    requires
        !strings::starts_with(body, "forgejo::"@),
    ensures
        match (forgejo_parts(body), remote_path::remote_path(body)) {
            (Some(r), Some(p)) => {
                &&& r.host == p.host
                &&& r.git_ref == p.git_ref
                &&& p.path == r.owner + seq!['/'] + r.repo
                &&& !r.owner.contains('/')
                &&& !r.repo.contains('/')
            },
            (Some(_), None) => false,
            (None, Some(p)) => forall|owner: Seq<char>, repo: Seq<char>|
                remote_path::is_segment(owner) && remote_path::is_segment(repo) ==> p.path
                    != #[trigger] (owner + seq!['/'] + repo),
            (None, None) => true,
        },
{
    if let Some(p) = remote_path::remote_path(body) {
        let parts = strings::split(p.path, '/');
        strings::law_split_loses_nothing(p.path, '/');
        law_read_spec_is_well_formed(body);
        if parts.len() == 2 {
            lemma_owner_and_repo(parts[0], parts[1]);
            assert(parts.drop_last() =~= seq![parts[0]]);
            assert(strings::join(parts.drop_last(), seq!['/']) =~= parts[0]);
            assert(strings::join(parts, seq!['/']) =~= parts[0] + seq!['/'] + parts[1]);
            assert(remote_path::is_segment(parts[0]) && remote_path::is_segment(parts[1]));
        } else {
            assert forall|owner: Seq<char>, repo: Seq<char>|
                remote_path::is_segment(owner) && remote_path::is_segment(repo) implies p.path
                != #[trigger] (owner + seq!['/'] + repo) by {
                lemma_owner_and_repo(owner, repo);
            }
        }
    }
}

} // verus!
