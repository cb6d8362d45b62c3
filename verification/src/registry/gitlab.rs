//! GitLab.

use vstd::prelude::*;

use crate::dcf;
use crate::error;
use crate::error::UvrError;
use crate::http;
use crate::http::{Ask, Reply, Request};
use crate::lockfile::{Origin, PackageSource};
use crate::manifest::description;
use crate::manifest::remotes;
use crate::manifest::{Dependency, DependencySpec};
use crate::registry::cran;
use crate::registry::remote_path;
use crate::registry::{Dep, Need, Package, PackageInfo};
use crate::resolver;
use crate::strings;
use crate::strmap::StrMap;
use crate::text;
use crate::url;

verus! {

/// A project on a GitLab host. Projects live under groups that nest, so
/// `project_path` is the whole path of the project. `git_ref` is `None` where
/// no ref is named.
#[derive(Debug, Clone, PartialEq, Eq)]
pub struct GitlabSpec {
    pub host: String,
    pub project_path: String,
    pub git_ref: Option<String>,
}

impl DeepView for GitlabSpec {
    type V = remote_path::RemotePath;

    open spec fn deep_view(&self) -> remote_path::RemotePath {
        remote_path::RemotePath {
            host: self.host@,
            path: self.project_path@,
            git_ref: self.git_ref.deep_view(),
        }
    }
}

impl GitlabSpec {
    /// The name of the project: the last segment of its path.
    pub fn project_name(&self) -> (r: String)
        ensures
            r@ == strings::after_last(self.project_path@, '/'),
    {
        let cs = text::chars_of(self.project_path.as_str());
        text::string_of(text::after_last(cs.as_slice(), '/'))
    }
}

/// The project that `[gitlab::]host/group[/subgroup...]/project[@ref]` names.
pub open spec fn gitlab_parts(spec: Seq<char>) -> Option<remote_path::RemotePath> {
    remote_path::remote_path(
        match strings::strip_prefix(spec, "gitlab::"@) {
            Some(b) => b,
            None => spec,
        },
    )
}

/// Reads and validates `[gitlab::]host/group[/subgroup...]/project[@ref]`.
pub fn parse_gitlab_parts(spec: &str) -> (r: Option<GitlabSpec>)
    ensures
        r.deep_view() == gitlab_parts(spec@),
{
    let cs = text::chars_of(spec);
    let body = match text::strip_prefix(cs.as_slice(), "gitlab::") {
        Some(b) => b,
        None => cs.as_slice(),
    };
    match remote_path::parse_remote_path(body) {
        Some(p) => Some(
            GitlabSpec {
                host: text::string_of(p.host),
                project_path: text::string_of(p.path),
                git_ref: match p.git_ref {
                    Some(g) => Some(text::string_of(g)),
                    None => None,
                },
            },
        ),
        None => None,
    }
}

/// The host, the project path and the ref that a spec names, `HEAD` where it
/// names no ref.
pub open spec fn gitlab_spec(spec: Seq<char>) -> Option<(Seq<char>, Seq<char>, Seq<char>)> {
    match gitlab_parts(spec) {
        Some(r) => Some(
            (
                r.host,
                r.path,
                match r.git_ref {
                    Some(g) => g,
                    None => "HEAD"@,
                },
            ),
        ),
        None => None,
    }
}

/// Reads a spec into its host, its project path and its ref. A spec without a
/// ref asks for `HEAD`.
pub fn parse_gitlab_spec(spec: &str) -> (r: Option<(String, String, String)>)
    ensures
        r.deep_view() == gitlab_spec(spec@),
{
    match parse_gitlab_parts(spec) {
        Some(p) => {
            let git_ref = match p.git_ref {
                Some(g) => g,
                None => "HEAD".to_owned(),
            };
            Some((p.host, p.project_path, git_ref))
        },
        None => None,
    }
}

/// A project that is written down, with the prefix, is read back as it was.
pub proof fn law_written_spec_is_read_back(r: remote_path::RemotePath)
    requires
        remote_path::is_remote_path(r),
    ensures
        gitlab_parts("gitlab::"@ + remote_path::written(r)) == Some(r),
{
    let p = "gitlab::"@;
    let w = remote_path::written(r);
    assert((p + w).take(p.len() as int) =~= p);
    assert((p + w).skip(p.len() as int) =~= w);
    remote_path::law_written_is_read_back(r);
}

/// Every spec that is read gives a well-formed project.
pub proof fn law_read_spec_is_well_formed(spec: Seq<char>)
    ensures
        gitlab_parts(spec) matches Some(r) ==> remote_path::is_remote_path(r),
{
    match strings::strip_prefix(spec, "gitlab::"@) {
        Some(b) => remote_path::law_read_is_well_formed(b),
        None => remote_path::law_read_is_well_formed(spec),
    }
}

/// `char::to_ascii_uppercase` maps the letters `a` to `z` to `A` to `Z` and leaves
/// every other character as it is.
pub assume_specification[ char::to_ascii_uppercase ](c: &char) -> (r: char)
    ensures
        r == if 'a' <= *c <= 'z' {
            (*c as int - 32) as char
        } else {
            *c
        },
;

/// A character of a host in the name of a variable.
pub open spec fn variable_char(c: char) -> char {
    if c == '.' || c == '-' {
        '_'
    } else if 'a' <= c <= 'z' {
        (c as int - 32) as char
    } else {
        c
    }
}

/// The environment variable that holds the token for a host.
pub open spec fn host_variable(host: Seq<char>) -> Seq<char> {
    "UVR_GITLAB_TOKEN_"@ + strings::before(host, ':').map_values(|c: char| variable_char(c))
}

/// The environment variables that can hold the token for a host, in the order in
/// which they are looked at: the one for this host, which is named after it
/// without its port, and the one for every host.
pub fn token_variables(host: &str) -> (r: (String, String))
    ensures
        r.0@ == host_variable(host@),
        r.1@ == "UVR_GITLAB_TOKEN"@,
{
    let cs = text::chars_of(host);
    let name = text::before(cs.as_slice(), ':');
    let mut normalized = String::new();
    let mut i: usize = 0;
    while i < name.len()
        invariant
            i <= name@.len(),
            normalized@ == name@.take(i as int).map_values(|c: char| variable_char(c)),
        decreases name@.len() - i,
    {
        let c = name[i];
        let ghost before = normalized@;
        if c == '.' || c == '-' {
            normalized.push('_');
        } else {
            normalized.push(c.to_ascii_uppercase());
        }
        assert(normalized@ =~= before.push(variable_char(c)));
        assert(name@.take(i + 1).map_values(|c: char| variable_char(c)) =~= name@.take(
            i as int,
        ).map_values(|c: char| variable_char(c)).push(variable_char(c)));
        i += 1;
    }
    assert(name@.take(i as int) =~= name@);
    let mut per_host = "UVR_GITLAB_TOKEN_".to_owned();
    per_host.append(normalized.as_str());
    (per_host, "UVR_GITLAB_TOKEN".to_owned())
}

/// A variable that is set to more than white space, without the white space around
/// it.
pub open spec fn set_value(v: Option<Seq<char>>) -> Option<Seq<char>> {
    match v {
        Some(s) => if strings::trim(s).len() > 0 {
            Some(strings::trim(s))
        } else {
            None
        },
        None => None,
    }
}

/// A variable that is set to more than white space.
fn read_set_value(v: Option<&str>) -> (r: Option<String>)
    ensures
        r.deep_view() == set_value(v.deep_view()),
{
    match v {
        Some(s) => {
            let cs = text::chars_of(s);
            let t = text::trim(cs.as_slice());
            if t.len() > 0 {
                Some(text::string_of(t))
            } else {
                None
            }
        },
        None => None,
    }
}

/// The token from the values of the two variables.
pub open spec fn token_of(per_host: Option<Seq<char>>, for_all: Option<Seq<char>>) -> Option<
    Seq<char>,
> {
    match set_value(per_host) {
        Some(t) => Some(t),
        None => set_value(for_all),
    }
}

/// The token for a host, from the values of the two variables: the one for the
/// host wins. A variable of white space counts as one that is not set.
pub fn pick_token(per_host: Option<&str>, for_all: Option<&str>) -> (r: Option<String>)
    ensures
        r.deep_view() == token_of(per_host.deep_view(), for_all.deep_view()),
{
    match read_set_value(per_host) {
        Some(t) => Some(t),
        None => read_set_value(for_all),
    }
}

/// A dependency that a description declares with its source: the name of the
/// package, where it comes from and its ref.
pub type GitlabRemote = (String, String, Option<String>);

/// A question about a project on a GitLab host.
#[derive(Debug, PartialEq, Eq)]
pub struct GitlabQuery {
    pub host: String,
    pub project_path: String,
    pub git_ref: String,
    pub token: Option<String>,
}

/// What a [`GitlabQuery`] holds.
pub struct Question {
    pub host: Seq<char>,
    pub project_path: Seq<char>,
    pub git_ref: Seq<char>,
    pub token: Option<Seq<char>>,
}

impl DeepView for GitlabQuery {
    type V = Question;

    open spec fn deep_view(&self) -> Question {
        Question {
            host: self.host@,
            project_path: self.project_path@,
            git_ref: self.git_ref@,
            token: self.token.deep_view(),
        }
    }
}

/// The address of a project's repository. The whole path of the project is one
/// segment of it.
pub open spec fn repository_url(q: Question) -> Seq<char> {
    "https://"@ + q.host + "/api/v4/projects/"@ + url::percent_encoded(q.project_path)
        + "/repository/"@
}

/// The address of the commit that a ref names. The whole ref is one segment of it.
pub open spec fn commit_url(q: Question) -> Seq<char> {
    repository_url(q) + "commits/"@ + url::percent_encoded(q.git_ref)
}

/// The address of the description of the package at a commit.
pub open spec fn description_url(q: Question, sha: Seq<char>) -> Seq<char> {
    repository_url(q) + "files/DESCRIPTION/raw?ref="@ + sha
}

/// The address of the archive of a commit.
pub open spec fn archive_url(q: Question, sha: Seq<char>) -> Seq<char> {
    repository_url(q) + "archive.tar.gz?sha="@ + sha
}

/// The header that a token is sent in.
pub open spec fn authorization(token: Option<Seq<char>>) -> Seq<(Seq<char>, Seq<char>)> {
    match token {
        Some(t) => seq![("Authorization"@, "Bearer "@ + t)],
        None => seq![],
    }
}

/// The request for the commit that the ref names.
pub open spec fn commit_ask(q: Question) -> Ask {
    Ask {
        url: commit_url(q),
        headers: seq![("User-Agent"@, http::USER_AGENT@), ("Accept"@, "application/json"@)]
            + authorization(q.token),
    }
}

/// The request for the description of the package at a commit.
pub open spec fn description_ask(q: Question, sha: Seq<char>) -> Ask {
    Ask {
        url: description_url(q, sha),
        headers: seq![("User-Agent"@, http::USER_AGENT@)] + authorization(q.token),
    }
}

/// A project in a message.
pub open spec fn project_at(q: Question, at: Seq<char>) -> Seq<char> {
    q.host + "/"@ + q.project_path + "@"@ + at
}

/// What a reply with a status of failure is told as.
pub open spec fn refusal(
    status: u16,
    status_text: Seq<char>,
    q: Question,
    at: Seq<char>,
) -> Seq<char> {
    if status == 401 || status == 403 {
        "GitLab returned "@ + status_text + " for "@ + q.host + "/"@ + q.project_path
            + "; set UVR_GITLAB_TOKEN_<HOST> if the project is private."@
    } else if status == 404 {
        "GitLab project not found: "@ + project_at(q, at)
            + ". Check the spec and that the project exists."@
    } else {
        "GitLab error for "@ + project_at(q, at) + ": HTTP "@ + status_text
    }
}

/// What a commit that cannot be read is told as, with the start of the reply.
pub open spec fn unreadable_commit(q: Question, message: Seq<char>, body: Seq<char>) -> Seq<char> {
    "GitLab "@ + project_at(q, q.git_ref) + ": could not parse commit JSON ("@ + message
        + "). Body: "@ + body.take(
        if body.len() < 200 {
            body.len() as int
        } else {
            200
        },
    )
}

/// The needs of a description: what it imports and what it depends on, but for
/// packages that come with R.
pub open spec fn description_needs(fields: Map<Seq<char>, Seq<char>>) -> Seq<Need> {
    cran::without_base(cran::field_needs(fields, "Imports"@)) + cran::without_base(
        cran::field_needs(fields, "Depends"@),
    )
}

/// The dependencies among the entries that come from a repository.
pub open spec fn git_entries(entries: Seq<(Seq<char>, Dependency)>) -> Seq<
    (Seq<char>, Seq<char>, Option<Seq<char>>),
>
    decreases entries.len(),
{
    if entries.len() == 0 {
        seq![]
    } else {
        let before = git_entries(entries.drop_last());
        match entries.last().1 {
            Dependency::Detailed(d) => match d.git {
                Some(g) => before.push((entries.last().0, g, d.rev)),
                None => before,
            },
            Dependency::Version(_) => before,
        }
    }
}

/// The dependencies that a description declares with a repository, on whichever
/// host it is.
pub open spec fn description_remotes(fields: Map<Seq<char>, Seq<char>>) -> Seq<
    (Seq<char>, Seq<char>, Option<Seq<char>>),
> {
    match description::field_of(fields, "Remotes"@) {
        Some(v) => git_entries(remotes::remotes_field(v)),
        None => seq![],
    }
}

/// The package that a description at a commit is about.
pub open spec fn described_package(
    q: Question,
    sha: Seq<char>,
    fields: Map<Seq<char>, Seq<char>>,
) -> Package {
    Package {
        name: match description::field_of(fields, "Package"@) {
            Some(v) => v,
            None => strings::after_last(q.project_path, '/'),
        },
        version: resolver::package_version(
            match description::field_of(fields, "Version"@) {
                Some(v) => v,
                None => "0.0.0"@,
            },
        ),
        source: Origin::Gitlab(q.host),
        checksum: Some("git:"@ + sha),
        needs: description_needs(fields),
        url: archive_url(q, sha),
        raw_version: None,
        system_requirements: None,
    }
}

/// The needs of a description.
pub fn parse_description_deps(fields: &StrMap<String>) -> (r: Vec<Dep>)
    ensures
        r.deep_view() == description_needs(fields.deep_view()),
{
    let mut deps: Vec<Dep> = Vec::new();
    assert(deps.deep_view() =~= seq![]);
    if let Some(v) = fields.get("Imports") {
        cran::push_needs(&mut deps, &cran::parse_dep_field(v.as_str()));
    }
    assert(deps.deep_view() =~= cran::without_base(
        cran::field_needs(fields.deep_view(), "Imports"@),
    ));
    if let Some(v) = fields.get("Depends") {
        cran::push_needs(&mut deps, &cran::parse_dep_field(v.as_str()));
    }
    assert(deps.deep_view() =~= description_needs(fields.deep_view()));
    deps
}

/// The dependencies that a description declares with a repository. They are kept
/// whichever host they are on: the prefix of the repository tells.
pub fn parse_gitlab_remotes(fields: &StrMap<String>) -> (r: Vec<GitlabRemote>)
    ensures
        r.deep_view() == description_remotes(fields.deep_view()),
{
    let mut out: Vec<GitlabRemote> = Vec::new();
    let entries = match fields.get("Remotes") {
        Some(v) => remotes::parse_remotes_field(v.as_str()),
        None => {
            assert(out.deep_view() =~= seq![]);
            return out;
        },
    };
    let ghost all = entries.deep_view();
    let mut i: usize = 0;
    assert(out.deep_view() =~= git_entries(all.take(0)));
    while i < entries.len()
        invariant
            i <= entries@.len(),
            all == entries.deep_view(),
            out.deep_view() == git_entries(all.take(i as int)),
        decreases entries@.len() - i,
    {
        assert(all.take(i + 1).drop_last() =~= all.take(i as int));
        assert(all.take(i + 1).last() == entries@[i as int].deep_view());
        let ghost before = out.deep_view();
        if let DependencySpec::Detailed(d) = &entries[i].1 {
            if let Some(g) = &d.git {
                let rev = crate::manifest::copy_of(&d.rev);
                let remote = (entries[i].0.clone(), g.clone(), rev);
                out.push(remote);
                assert(out.deep_view() =~= before.push(remote.deep_view()));
            }
        }
        i += 1;
    }
    assert(all.take(i as int) =~= all);
    out
}

impl GitlabQuery {
    /// The address of the project's repository.
    fn repository(&self) -> (r: String)
        ensures
            r@ == repository_url(self.deep_view()),
    {
        let mut u = "https://".to_owned();
        u.append(self.host.as_str());
        u.append("/api/v4/projects/");
        u.append(url::encode(self.project_path.as_str()).as_str());
        u.append("/repository/");
        u
    }

    /// The project in a message.
    fn told(&self, at: &str) -> (r: String)
        ensures
            r@ == project_at(self.deep_view(), at@),
    {
        let mut m = self.host.clone();
        m.append("/");
        m.append(self.project_path.as_str());
        m.append("@");
        m.append(at);
        m
    }

    /// Adds the token to a request.
    fn authorize(&self, request: &mut Request)
        ensures
            final(request).deep_view() == (Ask {
                url: old(request).url@,
                headers: old(request).headers.deep_view() + authorization(self.token.deep_view()),
            }),
    {
        if let Some(t) = &self.token {
            let mut bearer = "Bearer ".to_owned();
            bearer.append(t.as_str());
            request.add_header("Authorization", bearer.as_str());
        }
        assert(request.deep_view() =~= Ask {
            url: old(request).url@,
            headers: old(request).headers.deep_view() + authorization(self.token.deep_view()),
        });
    }

    /// The error that a reply with a status of failure is.
    pub fn map_gitlab_error(&self, reply: &Reply, at: &str) -> (r: UvrError)
        ensures
            r matches UvrError::Other(m) && m@ == refusal(
                reply.status,
                reply.status_text@,
                self.deep_view(),
                at@,
            ),
    {
        if reply.status == 401 || reply.status == 403 {
            let mut m = "GitLab returned ".to_owned();
            m.append(reply.status_text.as_str());
            m.append(" for ");
            m.append(self.host.as_str());
            m.append("/");
            m.append(self.project_path.as_str());
            m.append("; set UVR_GITLAB_TOKEN_<HOST> if the project is private.");
            UvrError::Other(m)
        } else if reply.status == 404 {
            let mut m = "GitLab project not found: ".to_owned();
            m.append(self.told(at).as_str());
            m.append(". Check the spec and that the project exists.");
            UvrError::Other(m)
        } else {
            let mut m = "GitLab error for ".to_owned();
            m.append(self.told(at).as_str());
            m.append(": HTTP ");
            m.append(reply.status_text.as_str());
            UvrError::Other(m)
        }
    }

    /// The request for the commit that the ref names.
    pub fn commit_request(&self) -> (r: Request)
        ensures
            r.deep_view() == commit_ask(self.deep_view()),
    {
        let mut u = self.repository();
        u.append("commits/");
        u.append(url::encode(self.git_ref.as_str()).as_str());
        let mut request = Request::get(u);
        request.add_header("User-Agent", http::USER_AGENT);
        request.add_header("Accept", "application/json");
        let ghost headers = request.headers.deep_view();
        assert(headers =~= seq![
            ("User-Agent"@, http::USER_AGENT@),
            ("Accept"@, "application/json"@),
        ]);
        self.authorize(&mut request);
        request
    }

    /// Refuses a reply to the request for the commit that has a status of failure.
    pub fn check_commit_reply(&self, reply: &Reply) -> (r: Result<(), UvrError>)
        ensures
            http::is_success(reply.status) ==> r is Ok,
            !http::is_success(reply.status) ==> (r matches Err(UvrError::Other(m)) && m@ == refusal(
                reply.status,
                reply.status_text@,
                self.deep_view(),
                self.git_ref@,
            )),
    {
        if 200 <= reply.status && reply.status <= 299 {
            Ok(())
        } else {
            Err(self.map_gitlab_error(reply, self.git_ref.as_str()))
        }
    }

    /// The commit that a reply names, from what reading its body came to: the
    /// commit, or the message that refuses it.
    pub fn commit_sha(&self, body: &str, read: Result<String, String>) -> (r: Result<
        String,
        UvrError,
    >)
        ensures
            match read {
                Ok(id) => r matches Ok(sha) && sha@ == id@,
                Err(e) => r matches Err(UvrError::Other(m)) && m@ == unreadable_commit(
                    self.deep_view(),
                    e@,
                    body@,
                ),
            },
    {
        match read {
            Ok(id) => Ok(id),
            Err(e) => {
                let cs = text::chars_of(body);
                let n: usize = if cs.len() < 200 {
                    cs.len()
                } else {
                    200
                };
                let start = vstd::slice::slice_subrange(cs.as_slice(), 0, n);
                assert(start@ =~= body@.take(n as int));
                let mut m = "GitLab ".to_owned();
                m.append(self.told(self.git_ref.as_str()).as_str());
                m.append(": could not parse commit JSON (");
                m.append(e.as_str());
                m.append("). Body: ");
                m.append(text::string_of(start).as_str());
                Err(UvrError::Other(m))
            },
        }
    }

    /// The request for the description of the package at a commit.
    pub fn description_request(&self, sha: &str) -> (r: Request)
        ensures
            r.deep_view() == description_ask(self.deep_view(), sha@),
    {
        let mut u = self.repository();
        u.append("files/DESCRIPTION/raw?ref=");
        u.append(sha);
        let mut request = Request::get(u);
        request.add_header("User-Agent", http::USER_AGENT);
        let ghost headers = request.headers.deep_view();
        assert(headers =~= seq![("User-Agent"@, http::USER_AGENT@)]);
        self.authorize(&mut request);
        request
    }

    /// The package that a description at a commit is about, and the dependencies
    /// that it declares with a repository.
    pub fn package_of_description(&self, sha: &str, content: &str) -> (r: (
        PackageInfo,
        Vec<GitlabRemote>,
    ))
        ensures
            r.0.deep_view() == described_package(
                self.deep_view(),
                sha@,
                dcf::dcf_fields(content@),
            ),
            r.1.deep_view() == description_remotes(dcf::dcf_fields(content@)),
    {
        let fields = dcf::parse_dcf_fields(content);
        let name = match fields.get("Package") {
            Some(v) => v.clone(),
            None => {
                let cs = text::chars_of(self.project_path.as_str());
                text::string_of(text::after_last(cs.as_slice(), '/'))
            },
        };
        let version = match fields.get("Version") {
            Some(v) => resolver::parse_package_version(v.as_str()),
            None => resolver::parse_package_version("0.0.0"),
        };
        let mut archive = self.repository();
        archive.append("archive.tar.gz?sha=");
        archive.append(sha);
        let mut checksum = "git:".to_owned();
        checksum.append(sha);
        let info = PackageInfo {
            name,
            version,
            source: PackageSource::Gitlab { host: self.host.clone() },
            checksum: Some(checksum),
            requires: parse_description_deps(&fields),
            url: archive,
            raw_version: None,
            system_requirements: None,
        };
        (info, parse_gitlab_remotes(&fields))
    }

    /// The package that a reply to the request for the description tells of. A
    /// reply with a status of failure is refused.
    pub fn read_description_reply(&self, sha: &str, reply: &Reply) -> (r: Result<
        (PackageInfo, Vec<GitlabRemote>),
        UvrError,
    >)
        ensures
            http::is_success(reply.status) ==> (r matches Ok(p) && p.0.deep_view()
                == described_package(self.deep_view(), sha@, dcf::dcf_fields(reply.body@))
                && p.1.deep_view() == description_remotes(dcf::dcf_fields(reply.body@))),
            !http::is_success(reply.status) ==> (r matches Err(UvrError::Other(m)) && m@ == refusal(
                reply.status,
                reply.status_text@,
                self.deep_view(),
                sha@,
            )),
    {
        if 200 <= reply.status && reply.status <= 299 {
            Ok(self.package_of_description(sha, reply.body.as_str()))
        } else {
            Err(self.map_gitlab_error(reply, sha))
        }
    }
}

/// What an address of the project's repository ends with is what is appended to it:
/// neither the path of the project nor a ref adds a segment or a parameter.
pub proof fn law_ref_is_one_segment(q: Question)
    ensures
        commit_url(q) == repository_url(q) + "commits/"@ + url::percent_encoded(q.git_ref),
        !url::percent_encoded(q.git_ref).contains('/'),
        !url::percent_encoded(q.git_ref).contains('?'),
        !url::percent_encoded(q.git_ref).contains('#'),
        !url::percent_encoded(q.git_ref).contains('&'),
        !url::percent_encoded(q.project_path).contains('/'),
        !url::percent_encoded(q.project_path).contains('?'),
        !url::percent_encoded(q.project_path).contains('#'),
        !url::percent_encoded(q.project_path).contains('&'),
{
    url::law_encoded_text_stays_in_place(q.git_ref);
    url::law_encoded_text_stays_in_place(q.project_path);
}

/// How far resolving a package has come.
#[derive(Debug, PartialEq, Eq)]
pub enum ResolveState {
    Start,
    /// The commit is asked for.
    AskingCommit,
    /// The commit is read from a reply.
    ReadingCommit { body: String },
    /// The description at a commit is asked for.
    AskingDescription { sha: String },
    Finished,
}

/// What happened.
#[derive(Debug, PartialEq, Eq)]
pub enum ResolveEvent {
    Begin,
    /// GitLab could not be asked, or its reply could not be read, for these causes.
    Failed(Vec<String>),
    Replied(Reply),
    /// The commit that a reply names, or the message that refuses it.
    CommitRead(Result<String, String>),
}

/// What to do next.
#[derive(Debug, PartialEq, Eq)]
pub enum ResolveAction {
    Get(Request),
    /// Read the commit from a reply: the `id` of the JSON object that it is.
    ReadCommit(String),
    Done(Result<(PackageInfo, Vec<GitlabRemote>), UvrError>),
}

/// The event is one that the state waits for.
pub open spec fn resolve_expects(s: ResolveState, e: ResolveEvent) -> bool {
    match s {
        ResolveState::Start => e is Begin,
        ResolveState::AskingCommit => e is Failed || e is Replied,
        ResolveState::ReadingCommit { .. } => e is CommitRead,
        ResolveState::AskingDescription { .. } => e is Failed || e is Replied,
        ResolveState::Finished => false,
    }
}

/// The action asks for this.
pub open spec fn asks(a: ResolveAction, ask: Ask) -> bool {
    a matches ResolveAction::Get(request) && request.deep_view() == ask
}

/// The action tells of a refusal.
pub open spec fn refuses(a: ResolveAction, message: Seq<char>) -> bool {
    a matches ResolveAction::Done(Err(UvrError::Other(m))) && m@ == message
}

/// From one state an event leads to another state and an action: the commit that the
/// ref names is asked for, and then the description at this commit.
pub open spec fn resolve_move(
    q: Question,
    s: ResolveState,
    e: ResolveEvent,
    t: ResolveState,
    a: ResolveAction,
) -> bool {
    match (s, e) {
        (ResolveState::Start, ResolveEvent::Begin) => t == ResolveState::AskingCommit && asks(
            a,
            commit_ask(q),
        ),
        (ResolveState::AskingCommit, ResolveEvent::Replied(reply)) => if http::is_success(
            reply.status,
        ) {
            &&& t matches ResolveState::ReadingCommit { body }
            &&& body@ == reply.body@
            &&& a matches ResolveAction::ReadCommit(read)
            &&& read@ == reply.body@
        } else {
            t == ResolveState::Finished && refuses(
                a,
                refusal(reply.status, reply.status_text@, q, q.git_ref),
            )
        },
        (ResolveState::ReadingCommit { body }, ResolveEvent::CommitRead(read)) => match read {
            Ok(sha) => {
                &&& t matches ResolveState::AskingDescription { sha: kept }
                &&& kept@ == sha@
                &&& asks(a, description_ask(q, sha@))
            },
            Err(message) => t == ResolveState::Finished && refuses(
                a,
                unreadable_commit(q, message@, body@),
            ),
        },
        (ResolveState::AskingDescription { sha }, ResolveEvent::Replied(reply)) => {
            &&& t == ResolveState::Finished
            &&& if http::is_success(reply.status) {
                &&& a matches ResolveAction::Done(Ok(p))
                &&& p.0.deep_view() == described_package(q, sha@, dcf::dcf_fields(reply.body@))
                &&& p.1.deep_view() == description_remotes(dcf::dcf_fields(reply.body@))
            } else {
                refuses(a, refusal(reply.status, reply.status_text@, q, sha@))
            }
        },
        (ResolveState::AskingCommit, ResolveEvent::Failed(causes)) => t == ResolveState::Finished
            && a == ResolveAction::Done(Err(UvrError::Network(causes))),
        (ResolveState::AskingDescription { .. }, ResolveEvent::Failed(causes)) => t
            == ResolveState::Finished && a == ResolveAction::Done(Err(UvrError::Network(causes))),
        _ => false,
    }
}

/// Resolves a package on a GitLab host. What is to be done is told by
/// [`GitlabResolution::step`], which is told in turn what came of it.
#[derive(Debug, PartialEq, Eq)]
pub struct GitlabResolution {
    pub query: GitlabQuery,
    pub state: ResolveState,
}

impl GitlabResolution {
    /// Resolving has not begun.
    pub fn new(query: GitlabQuery) -> (r: Self)
        ensures
            r.query == query,
            r.state == ResolveState::Start,
    {
        GitlabResolution { query, state: ResolveState::Start }
    }

    /// Goes on by one step.
    pub fn step(&mut self, event: ResolveEvent) -> (action: ResolveAction)
        requires
            resolve_expects(old(self).state, event),
        ensures
            resolve_move(
                old(self).query.deep_view(),
                old(self).state,
                event,
                final(self).state,
                action,
            ),
            final(self).query == old(self).query,
    {
        let mut state = ResolveState::Finished;
        std::mem::swap(&mut state, &mut self.state);
        match (state, event) {
            (ResolveState::AskingCommit, ResolveEvent::Replied(reply)) => {
                match self.query.check_commit_reply(&reply) {
                    Ok(_) => {
                        self.state = ResolveState::ReadingCommit { body: reply.body.clone() };
                        ResolveAction::ReadCommit(reply.body)
                    },
                    Err(e) => ResolveAction::Done(Err(e)),
                }
            },
            (ResolveState::ReadingCommit { body }, ResolveEvent::CommitRead(read)) => {
                match self.query.commit_sha(body.as_str(), read) {
                    Ok(sha) => {
                        let request = self.query.description_request(sha.as_str());
                        self.state = ResolveState::AskingDescription { sha };
                        ResolveAction::Get(request)
                    },
                    Err(e) => ResolveAction::Done(Err(e)),
                }
            },
            (ResolveState::AskingDescription { sha }, ResolveEvent::Replied(reply)) => {
                ResolveAction::Done(self.query.read_description_reply(sha.as_str(), &reply))
            },
            (_, ResolveEvent::Failed(causes)) => ResolveAction::Done(
                Err(UvrError::Network(causes)),
            ),
            (_, _) => {
                self.state = ResolveState::AskingCommit;
                ResolveAction::Get(self.query.commit_request())
            },
        }
    }
}

/// A package that is resolved is locked to the commit whose description was read: its
/// checksum and the address of its archive name this commit.
pub proof fn law_package_is_locked_to_its_commit(
    q: Question,
    sha: String,
    e: ResolveEvent,
    t: ResolveState,
    a: ResolveAction,
)
    requires
        resolve_move(q, ResolveState::AskingDescription { sha }, e, t, a),
    ensures
        a matches ResolveAction::Done(Ok(p)) ==> {
            &&& p.0.deep_view().checksum == Some("git:"@ + sha@)
            &&& p.0.deep_view().url == archive_url(q, sha@)
            &&& p.0.deep_view().source == Origin::Gitlab(q.host)
        },
{
}

/// The description is asked for at the commit that the reply before it named.
pub proof fn law_description_is_of_the_commit(
    q: Question,
    body: String,
    read: Result<String, String>,
    t: ResolveState,
    a: ResolveAction,
)
    requires
        resolve_move(
            q,
            ResolveState::ReadingCommit { body },
            ResolveEvent::CommitRead(read),
            t,
            a,
        ),
        a is Get,
    ensures
        read matches Ok(sha) && asks(a, description_ask(q, sha@)),
{
}

/// The prefix may be left out where the text does not start with it.
pub proof fn law_prefix_may_be_left_out(r: remote_path::RemotePath)
    requires
        remote_path::is_remote_path(r),
        !strings::starts_with(remote_path::written(r), "gitlab::"@),
    ensures
        gitlab_parts(remote_path::written(r)) == Some(r),
{
    remote_path::law_written_is_read_back(r);
}

/// A spec without a ref asks for `HEAD`, and one with a ref for that. The host and the
/// path are those of the spec.
pub proof fn law_spec_without_a_ref_asks_for_head(spec: Seq<char>)
    ensures
        gitlab_spec(spec) is Some == gitlab_parts(spec) is Some,
        gitlab_parts(spec) matches Some(r) ==> {
            let s = gitlab_spec(spec)->0;
            &&& s.0 == r.host
            &&& s.1 == r.path
            &&& r.git_ref is None ==> s.2 == seq!['H', 'E', 'A', 'D']
            &&& r.git_ref matches Some(g) ==> s.2 == g
        },
{
    reveal_strlit("HEAD");
    assert("HEAD"@ =~= seq!['H', 'E', 'A', 'D']);
}

/// A request has a header.
pub open spec fn has_header(a: Ask, name: Seq<char>, value: Seq<char>) -> bool {
    a.headers.contains((name, value))
}

/// Every request of a resolution carries the token where there is one, and says who
/// asks. Without a token no request has a header of that name.
pub proof fn law_every_request_carries_the_token(q: Question, sha: Seq<char>, i: int)
    ensures
        has_header(commit_ask(q), "User-Agent"@, http::USER_AGENT@),
        has_header(commit_ask(q), "Accept"@, "application/json"@),
        has_header(description_ask(q, sha), "User-Agent"@, http::USER_AGENT@),
        q.token matches Some(t) ==> {
            &&& has_header(
                commit_ask(q),
                "Authorization"@,
                seq!['B', 'e', 'a', 'r', 'e', 'r', ' '] + t,
            )
            &&& has_header(
                description_ask(q, sha),
                "Authorization"@,
                seq!['B', 'e', 'a', 'r', 'e', 'r', ' '] + t,
            )
        },
        q.token is None && 0 <= i < commit_ask(q).headers.len() ==> commit_ask(q).headers[i].0
            != "Authorization"@,
        q.token is None && 0 <= i < description_ask(q, sha).headers.len() ==> description_ask(
            q,
            sha,
        ).headers[i].0 != "Authorization"@,
{
    reveal_strlit("Bearer ");
    reveal_strlit("User-Agent");
    reveal_strlit("Accept");
    reveal_strlit("Authorization");
    assert("Bearer "@ =~= seq!['B', 'e', 'a', 'r', 'e', 'r', ' ']);
    assert("User-Agent"@[0] != "Authorization"@[0]);
    assert("Accept"@[1] != "Authorization"@[1]);
    let c = commit_ask(q).headers;
    let d = description_ask(q, sha).headers;
    assert(c[0] == ("User-Agent"@, http::USER_AGENT@));
    assert(c[1] == ("Accept"@, "application/json"@));
    assert(d[0] == ("User-Agent"@, http::USER_AGENT@));
    if let Some(t) = q.token {
        assert(c[2] == ("Authorization"@, "Bearer "@ + t));
        assert(d[1] == ("Authorization"@, "Bearer "@ + t));
    }
}

/// Every address of a resolution is one of the project's repository on its host: that
/// of the commit that the ref names, and those of the description and of the archive
/// at the commit.
pub proof fn law_addresses_of_a_resolution(q: Question, sha: Seq<char>)
    ensures
        ({
            let project = "https://"@ + q.host + "/api/v4/projects/"@ + url::percent_encoded(
                q.project_path,
            );
            &&& commit_ask(q).url == project + "/repository/commits/"@ + url::percent_encoded(
                q.git_ref,
            )
            &&& description_ask(q, sha).url == project
                + "/repository/files/DESCRIPTION/raw?ref="@ + sha
            &&& archive_url(q, sha) == project + "/repository/archive.tar.gz?sha="@ + sha
        }),
{
    reveal_strlit("/repository/");
    reveal_strlit("commits/");
    reveal_strlit("files/DESCRIPTION/raw?ref=");
    reveal_strlit("archive.tar.gz?sha=");
    reveal_strlit("/repository/commits/");
    reveal_strlit("/repository/files/DESCRIPTION/raw?ref=");
    reveal_strlit("/repository/archive.tar.gz?sha=");
    let project = "https://"@ + q.host + "/api/v4/projects/"@ + url::percent_encoded(
        q.project_path,
    );
    let r = "/repository/"@;
    assert(r + "commits/"@ =~= "/repository/commits/"@);
    assert(r + "files/DESCRIPTION/raw?ref="@ =~= "/repository/files/DESCRIPTION/raw?ref="@);
    assert(r + "archive.tar.gz?sha="@ =~= "/repository/archive.tar.gz?sha="@);
    let g = url::percent_encoded(q.git_ref);
    assert(commit_url(q) =~= project + (r + "commits/"@) + g);
    assert(description_url(q, sha) =~= project + (r + "files/DESCRIPTION/raw?ref="@) + sha);
    assert(archive_url(q, sha) =~= project + (r + "archive.tar.gz?sha="@) + sha);
}

/// A refusal names the host and the project. One for want of rights tells which
/// variable to set, one of a project that is not there tells the ref, and any other
/// tells the status and the ref.
pub proof fn law_refusals_tell_the_project(
    status: u16,
    status_text: Seq<char>,
    q: Question,
    at: Seq<char>,
)
    ensures
        ({
            let m = refusal(status, status_text, q, at);
            let project = q.host + seq!['/'] + q.project_path;
            &&& strings::contains_text(m, project)
            &&& status == 401 || status == 403 ==> strings::contains_text(
                m,
                "set UVR_GITLAB_TOKEN_<HOST>"@,
            ) && strings::contains_text(m, status_text)
            &&& status == 404 ==> strings::contains_text(m, "GitLab project not found"@)
                && strings::contains_text(m, project + seq!['@'] + at)
            &&& status != 401 && status != 403 && status != 404 ==> strings::contains_text(
                m,
                project + seq!['@'] + at,
            ) && strings::contains_text(m, "HTTP "@ + status_text)
        }),
{
    reveal_strlit("/");
    reveal_strlit("@");
    let m = refusal(status, status_text, q, at);
    let project = q.host + seq!['/'] + q.project_path;
    let whole = project + seq!['@'] + at;
    if status == 401 || status == 403 {
        let tail = "; set UVR_GITLAB_TOKEN_<HOST> if the project is private."@;
        let head = "GitLab returned "@ + status_text + " for "@;
        assert(m =~= head + project + tail);
        strings::lemma_contains_middle(head, project, tail);
        assert(m =~= "GitLab returned "@ + status_text + (" for "@ + project + tail));
        strings::lemma_contains_middle(
            "GitLab returned "@,
            status_text,
            " for "@ + project + tail,
        );
        reveal_strlit("; set UVR_GITLAB_TOKEN_<HOST> if the project is private.");
        reveal_strlit("set UVR_GITLAB_TOKEN_<HOST>");
        let named = "set UVR_GITLAB_TOKEN_<HOST>"@;
        assert(tail =~= tail.take(2) + named + tail.skip(2 + named.len() as int));
        strings::lemma_contains_middle(head + project + tail.take(2), named, tail.skip(
            2 + named.len() as int,
        ));
        assert(m =~= head + project + tail.take(2) + named + tail.skip(2 + named.len() as int));
    } else if status == 404 {
        let head = "GitLab project not found: "@;
        let tail = ". Check the spec and that the project exists."@;
        assert(m =~= head + whole + tail);
        strings::lemma_contains_middle(head, whole, tail);
        assert(m =~= head + project + (seq!['@'] + at + tail));
        strings::lemma_contains_middle(head, project, seq!['@'] + at + tail);
        reveal_strlit("GitLab project not found: ");
        reveal_strlit("GitLab project not found");
        let said = "GitLab project not found"@;
        let rest = seq![':', ' '] + whole + tail;
        assert(m =~= Seq::<char>::empty() + said + rest);
        strings::lemma_contains_middle(seq![], said, rest);
    } else {
        let head = "GitLab error for "@;
        let tail = ": HTTP "@ + status_text;
        assert(m =~= head + whole + tail);
        strings::lemma_contains_middle(head, whole, tail);
        assert(m =~= head + project + (seq!['@'] + at + tail));
        strings::lemma_contains_middle(head, project, seq!['@'] + at + tail);
        reveal_strlit(": HTTP ");
        reveal_strlit("HTTP ");
        let shown = "HTTP "@ + status_text;
        assert(m =~= head + whole + seq![':', ' '] + shown + Seq::<char>::empty());
        strings::lemma_contains_middle(head + whole + seq![':', ' '], shown, seq![]);
    }
}

/// A package is what its description says at the commit. Without a name it is named
/// after the project, and without a version it counts as none. Its needs are what it
/// imports and depends on, but for what comes with R.
pub proof fn law_package_is_what_its_description_says(
    q: Question,
    sha: Seq<char>,
    fields: Map<Seq<char>, Seq<char>>,
)
    ensures
        ({
            let p = described_package(q, sha, fields);
            let needs = |n: Seq<char>|
                if fields.contains_key(n) {
                    cran::without_base(cran::needs_of(strings::split(fields[n], ',')))
                } else {
                    seq![]
                };
            &&& fields.contains_key("Package"@) ==> p.name == fields["Package"@]
            &&& !fields.contains_key("Package"@) ==> strings::split(q.project_path, '/').last()
                == p.name
            &&& fields.contains_key("Version"@) ==> p.version == resolver::package_version(
                fields["Version"@],
            )
            &&& p.source == Origin::Gitlab(q.host)
            &&& p.checksum == Some(seq!['g', 'i', 't', ':'] + sha)
            &&& strings::ends_with(p.url, sha)
            &&& strings::starts_with(p.url, "https://"@ + q.host + "/"@)
            &&& p.needs == needs("Imports"@) + needs("Depends"@)
            &&& p.raw_version is None
            &&& p.system_requirements is None
        }),
{
    reveal_strlit("git:");
    assert("git:"@ =~= seq!['g', 'i', 't', ':']);
    strings::lemma_split_last(q.project_path, '/');
    let url = archive_url(q, sha);
    assert(url.skip(url.len() - sha.len()) =~= sha);
    reveal_strlit("/");
    reveal_strlit("/api/v4/projects/");
    let start = "https://"@ + q.host + "/"@;
    assert(url.take(start.len() as int) =~= start);
    assert(cran::without_base(Seq::<cran::FieldNeed>::empty()).len() == 0);
    assert(cran::without_base(Seq::<cran::FieldNeed>::empty()) =~= seq![]);
}

/// The dependencies that a description declares with a repository are all kept, on
/// whichever host they are, in their order and with their refs.
pub proof fn law_every_repository_is_kept(
    a: Seq<(Seq<char>, Dependency)>,
    b: Seq<(Seq<char>, Dependency)>,
)
    ensures
        git_entries(a + b) == git_entries(a) + git_entries(b),
        a.len() == 1 ==> match a[0].1 {
            Dependency::Detailed(d) => match d.git {
                Some(g) => git_entries(a) == seq![(a[0].0, g, d.rev)],
                None => git_entries(a).len() == 0,
            },
            Dependency::Version(_) => git_entries(a).len() == 0,
        },
    decreases b.len(),
{
    let both = a + b;
    if b.len() == 0 {
        assert(both =~= a);
        assert(git_entries(a) + git_entries(b) =~= git_entries(a));
    } else {
        law_every_repository_is_kept(a, b.drop_last());
        assert(both.drop_last() =~= a + b.drop_last());
        assert(both.last() == b.last());
        assert(git_entries(both) =~= git_entries(a) + git_entries(b));
    }
    if a.len() == 1 {
        reveal_with_fuel(git_entries, 2);
        assert(a.drop_last() =~= seq![]);
        if let Dependency::Detailed(d) = a[0].1 {
            if let Some(g) = d.git {
                assert(git_entries(a) =~= seq![(a[0].0, g, d.rev)]);
            }
        }
    }
}

/// The remotes of a description are those of its field `Remotes`, none where it has no
/// such field.
pub proof fn law_remotes_of_a_description(fields: Map<Seq<char>, Seq<char>>)
    ensures
        fields.contains_key("Remotes"@) ==> description_remotes(fields) == git_entries(
            remotes::remotes_field(fields["Remotes"@]),
        ),
        !fields.contains_key("Remotes"@) ==> description_remotes(fields).len() == 0,
{
}

/// The variable for a host is named after the host without its port: small letters in
/// capitals, dots and hyphens as underscores, and everything else as it is.
pub proof fn law_variable_of_a_host(host: Seq<char>, port: Seq<char>, i: int)
    requires
        !host.contains(':'),
        0 <= i < host.len(),
    ensures
        ({
            let v = host_variable(host);
            let name = v.skip(17);
            let c = host[i];
            &&& v.take(17) == "UVR_GITLAB_TOKEN_"@
            &&& name.len() == host.len()
            &&& c == '.' || c == '-' ==> name[i] == '_'
            &&& 'a' <= c <= 'z' ==> name[i] as int == c as int - 32
            &&& !('a' <= c <= 'z') && c != '.' && c != '-' ==> name[i] == c
            &&& host_variable(host + seq![':'] + port) == v
        }),
{
    reveal_strlit("UVR_GITLAB_TOKEN_");
    let s = host + seq![':'] + port;
    assert forall|j: int| 0 <= j < host.len() implies host[j] != ':' && s[j] != ':' by {
        assert(host.contains(host[j]));
        assert(s[j] == host[j]);
    }
    strings::lemma_first_at_is(host, ':', host.len() as int);
    strings::lemma_first_at_is(s, ':', host.len() as int);
    assert(host.take(host.len() as int) =~= host);
    assert(s.take(host.len() as int) =~= host);
    let v = host_variable(host);
    assert(v.take(17) =~= "UVR_GITLAB_TOKEN_"@);
    assert(v.skip(17)[i] == variable_char(host[i]));
}

/// The token for the host goes before the one for every host. White space around a
/// token is no part of it, and a variable of white space counts as one that is not set.
pub proof fn law_token_of_the_host_goes_first(
    before: Seq<char>,
    token: Seq<char>,
    after: Seq<char>,
    other: Option<Seq<char>>,
    blank: Seq<char>,
)
    requires
        strings::all_white(before),
        strings::all_white(after),
        strings::is_trimmed(token),
        token.len() > 0,
        strings::all_white(blank),
    ensures
        token_of(Some(before + token + after), other) == Some(token),
        token_of(None, Some(before + token + after)) == Some(token),
        token_of(Some(blank), Some(before + token + after)) == Some(token),
        token_of(Some(blank), Some(blank)) is None,
        token_of(None, Some(blank)) is None,
        token_of(None, None) is None,
{
    strings::law_trim_takes_white_space_away(before, token, after);
    strings::law_trim_takes_white_space_away(blank, seq![], seq![]);
    assert(blank + Seq::<char>::empty() + Seq::<char>::empty() =~= blank);
}

/// A resolution asks for the commit first. A reply of success to that is read for the
/// commit, one of success to the request for the description is the package, and any
/// other reply, and a request that fails, ends the resolution with an error.
pub proof fn law_resolution_goes_step_by_step(
    q: Question,
    s: ResolveState,
    e: ResolveEvent,
    t: ResolveState,
    a: ResolveAction,
)
    requires
        resolve_move(q, s, e, t, a),
    ensures
        s == ResolveState::Start ==> asks(a, commit_ask(q)) && t == ResolveState::AskingCommit,
        (e matches ResolveEvent::Replied(reply) ==> {
            let ok = reply.status / 100 == 2;
            &&& !ok ==> (a matches ResolveAction::Done(r) && r is Err)
            &&& ok && s == ResolveState::AskingCommit ==> (a matches ResolveAction::ReadCommit(body)
                && body@ == reply.body@)
            &&& ok && s is AskingDescription ==> (a matches ResolveAction::Done(r) && r is Ok)
        }),
        (e matches ResolveEvent::Failed(causes) ==> a == ResolveAction::Done(
            Err(UvrError::Network(causes)),
        )),
        (e matches ResolveEvent::CommitRead(Ok(sha)) ==> (t matches ResolveState::AskingDescription {
            sha: kept,
        } && kept@ == sha@)),
        (e matches ResolveEvent::CommitRead(Err(_)) ==> (a matches ResolveAction::Done(r)
            && r is Err)),
{
}

/// A description without a version counts as `0.0.0`.
pub proof fn law_description_without_a_version(
    q: Question,
    sha: Seq<char>,
    fields: Map<Seq<char>, Seq<char>>,
)
    requires
        !fields.contains_key("Version"@),
    ensures
        described_package(q, sha, fields).version == resolver::release(0, 0, 0),
{
    reveal_strlit("0.0.0");
    reveal_strlit(".");
    assert(error::decimal_digits(0) =~= seq!['0']);
    assert("0.0.0"@ =~= resolver::triple(0, 0, 0));
    resolver::law_written_version_is_read_back(0, 0, 0);
}

/// A reply without a commit is told with the project and its ref, why it cannot be read,
/// and the first two hundred characters of the reply, or all of a shorter one.
pub proof fn law_unreadable_commit_is_told(q: Question, message: Seq<char>, body: Seq<char>)
    ensures
        ({
            let m = unreadable_commit(q, message, body);
            let whole = q.host + seq!['/'] + q.project_path + seq!['@'] + q.git_ref;
            &&& strings::contains_text(m, whole)
            &&& strings::contains_text(m, seq!['('] + message + seq![')'])
            &&& body.len() <= 200 ==> strings::ends_with(m, seq![' '] + body)
            &&& body.len() > 200 ==> strings::ends_with(m, seq![' '] + body.take(200))
        }),
{
    reveal_strlit("/");
    reveal_strlit("@");
    reveal_strlit(": could not parse commit JSON (");
    reveal_strlit(": could not parse commit JSON ");
    reveal_strlit("). Body: ");
    reveal_strlit(". Body:");
    let m = unreadable_commit(q, message, body);
    let whole = q.host + seq!['/'] + q.project_path + seq!['@'] + q.git_ref;
    let shown = if body.len() <= 200 {
        body
    } else {
        body.take(200)
    };
    assert(body.take(body.len() as int) =~= body);
    let one = "GitLab "@;
    let two = ": could not parse commit JSON "@;
    let told = seq!['('] + message + seq![')'];
    let three = ". Body:"@;
    let end = seq![' '] + shown;
    assert(project_at(q, q.git_ref) =~= whole);
    assert(": could not parse commit JSON ("@ =~= two + seq!['(']);
    assert("). Body: "@ =~= seq![')'] + three + seq![' ']);
    assert(m =~= one + whole + (two + told + three + end));
    strings::lemma_contains_middle(one, whole, two + told + three + end);
    assert(m =~= one + whole + two + told + (three + end));
    strings::lemma_contains_middle(one + whole + two, told, three + end);
    assert(m.skip(m.len() - end.len()) =~= end);
}

/// The errors of a resolution: a refusal of the request for the commit is told with the
/// ref that was asked for, one of the request for the description with the commit, and
/// a commit that cannot be read with the reply. What is resolved is the package of the
/// description that came, at the commit, with the remotes that it declares.
pub proof fn law_outcomes_of_a_resolution(
    q: Question,
    s: ResolveState,
    e: ResolveEvent,
    t: ResolveState,
    a: ResolveAction,
)
    requires
        resolve_move(q, s, e, t, a),
    ensures
        a is Done <==> t is Finished,
        e matches ResolveEvent::Replied(reply) ==> {
            let ok = reply.status / 100 == 2;
            &&& !ok && s is AskingCommit ==> (a matches ResolveAction::Done(
                Err(UvrError::Other(m)),
            ) && m@ == refusal(reply.status, reply.status_text@, q, q.git_ref))
            &&& s matches ResolveState::AskingDescription { sha } ==> {
                &&& !ok ==> (a matches ResolveAction::Done(Err(UvrError::Other(m))) && m@
                    == refusal(reply.status, reply.status_text@, q, sha@))
                &&& ok ==> (a matches ResolveAction::Done(Ok(p)) && p.0.deep_view()
                    == described_package(q, sha@, dcf::dcf_fields(reply.body@))
                    && p.1.deep_view() == description_remotes(dcf::dcf_fields(reply.body@)))
            }
        },
        (s matches ResolveState::ReadingCommit { body } && e is CommitRead) ==> (
        e->CommitRead_0 matches Err(message) ==> (a matches ResolveAction::Done(
            Err(UvrError::Other(m)),
        ) && m@ == unreadable_commit(q, message@, s->ReadingCommit_body@))),
        (s is AskingCommit && t matches ResolveState::ReadingCommit { body }) ==> (
        e matches ResolveEvent::Replied(reply) && reply.body@ == t->ReadingCommit_body@),
{
}

} // verus!
