//! The isolated environment in which R runs for a project.
//!
//! Running R and activating a shell go by the same variables, which are put
//! together here.

use vstd::prelude::*;
use vstd::slice::slice_subrange;

use crate::strings;
use crate::text;

verus! {

/// The system by whose rules paths are read.
#[derive(Debug, Clone, Copy, PartialEq, Eq, Structural)]
pub enum Platform {
    Unix,
    Windows,
}

/// What stands between the paths of a list of paths.
pub open spec fn path_sep_of(platform: Platform) -> Seq<char> {
    match platform {
        Platform::Unix => ":"@,
        Platform::Windows => ";"@,
    }
}

/// What stands between the paths of a list of paths.
pub fn path_sep(platform: Platform) -> (r: &'static str)
    ensures
        r@ == path_sep_of(platform),
{
    match platform {
        Platform::Unix => ":",
        Platform::Windows => ";",
    }
}

/// How many characters of a Unix path stand before its components: the root, or a
/// leading `.`.
pub open spec fn body_start(p: Seq<char>) -> int {
    if p.len() > 0 && p[0] == '/' {
        1
    } else if p.len() > 0 && p[0] == '.' && (p.len() == 1 || p[1] == '/') {
        1
    } else {
        0
    }
}

/// Where the last component of `p` starts, the components starting at `b`.
pub open spec fn component_start(p: Seq<char>, b: int) -> int {
    b + strings::last_at(p.skip(b), '/') + 1
}

/// `p` without its last component and the slash before it.
pub open spec fn without_component(p: Seq<char>, b: int) -> Seq<char> {
    let c = component_start(p, b);
    p.take(
        if c > b {
            c - 1
        } else {
            b
        },
    )
}

/// The last component says nothing: it is empty or `.`.
pub open spec fn ends_trivially(p: Seq<char>, b: int) -> bool {
    let component = p.skip(component_start(p, b));
    component.len() == 0 || component == seq!['.']
}

/// `p` without its last components that say nothing.
pub open spec fn without_trivial_end(p: Seq<char>, b: int) -> Seq<char>
    decreases p.len(),
{
    if 0 <= b < p.len() && ends_trivially(p, b) {
        proof {
            strings::lemma_last_at(p.skip(b), '/');
        }
        without_trivial_end(without_component(p, b), b)
    } else {
        p
    }
}

/// The directory of a Unix path: the path without its last component. The root and
/// the empty path have none.
pub open spec fn unix_parent(p: Seq<char>) -> Option<Seq<char>> {
    let b = body_start(p);
    let q = without_trivial_end(p, b);
    if q.len() > b {
        Some(without_trivial_end(without_component(q, b), b))
    } else if b == 1 && p[0] == '.' {
        Some(seq![])
    } else {
        None
    }
}

/// A Unix path with one more component.
pub open spec fn unix_join(p: Seq<char>, name: Seq<char>) -> Seq<char> {
    if p.len() == 0 || p.last() == '/' {
        p + name
    } else {
        p + "/"@ + name
    }
}

/// The end of `p` without its last component and the slash before it.
fn cut_component(p: &[char], b: usize) -> (r: usize)
    requires
        b < p@.len(),
    ensures
        p@.take(r as int) == without_component(p@, b as int),
        b <= r < p@.len(),
{
    let n = p.len();
    let body = slice_subrange(p, b, n);
    assert(body@ =~= p@.skip(b as int));
    proof {
        strings::lemma_last_at(p@.skip(b as int), '/');
    }
    match text::last_at(body, '/') {
        Some(j) => b + j,
        None => b,
    }
}

/// Whether the last component of `p` is empty or `.`.
fn trivial_end(p: &[char], b: usize) -> (r: bool)
    requires
        b < p@.len(),
    ensures
        r == ends_trivially(p@, b as int),
{
    let n = p.len();
    let body = slice_subrange(p, b, n);
    assert(body@ =~= p@.skip(b as int));
    proof {
        strings::lemma_last_at(p@.skip(b as int), '/');
    }
    let component = text::after_last(body, '/');
    assert(component@ =~= p@.skip(component_start(p@, b as int)));
    if component.len() == 0 {
        return true;
    }
    let r = component.len() == 1 && component[0] == '.';
    assert(r == (component@ =~= seq!['.']));
    r
}

/// `p` without its last components that say nothing.
fn cut_trivial_end<'a>(p: &'a [char], b: usize) -> (r: &'a [char])
    ensures
        r@ == without_trivial_end(p@, b as int),
{
    let mut n: usize = p.len();
    assert(p@.take(n as int) =~= p@);
    while n > b && trivial_end(slice_subrange(p, 0, n), b)
        invariant
            n <= p@.len(),
            without_trivial_end(p@, b as int) == without_trivial_end(p@.take(n as int), b as int),
        decreases n,
    {
        let q = slice_subrange(p, 0, n);
        assert(q@ =~= p@.take(n as int));
        let m = cut_component(q, b);
        assert(q@.take(m as int) =~= p@.take(m as int));
        n = m;
    }
    let r = slice_subrange(p, 0, n);
    assert(r@ =~= p@.take(n as int));
    r
}

/// The directory of a Unix path.
fn parent_on_unix(path: &str) -> (r: Option<String>)
    ensures
        r.deep_view() == unix_parent(path@),
{
    let cs = text::chars_of(path);
    let p = cs.as_slice();
    let rooted = p.len() > 0 && p[0] == '/';
    let dotted = p.len() > 0 && p[0] == '.' && (p.len() == 1 || p[1] == '/');
    let b: usize = if rooted || dotted {
        1
    } else {
        0
    };
    assert(b == body_start(path@));
    let q = cut_trivial_end(p, b);
    if q.len() > b {
        let m = cut_component(q, b);
        let head = slice_subrange(q, 0, m);
        assert(head@ =~= q@.take(m as int));
        Some(text::string_of(cut_trivial_end(head, b)))
    } else if dotted {
        let empty = String::new();
        assert(empty@ =~= seq![]);
        Some(empty)
    } else {
        None
    }
}

/// A Unix path with one more component.
fn join_on_unix(path: &str, name: &str) -> (r: String)
    ensures
        r@ == unix_join(path@, name@),
{
    let cs = text::chars_of(path);
    let n = cs.len();
    let mut out = path.to_owned();
    if n > 0 && cs[n - 1] != '/' {
        out.append("/");
    }
    out.append(name);
    out
}

/// A character that parts the components of a path on one system or another.
pub open spec fn is_separator(c: char) -> bool {
    c == '/' || c == '\\'
}

/// A character that stands for itself in a path on every system.
pub open spec fn is_plain(c: char) -> bool {
    strings::is_ascii_alnum(c) || c == '.' || c == '-' || c == '_'
}

/// The last slash of a path parts its final component from its directory on every
/// system: the component is a plain name, the directory ends in a letter or a digit,
/// and the path does not start with two separators, by which some systems tell the
/// paths of other machines and of devices.
pub open spec fn slash_parts(path: Seq<char>) -> bool {
    let i = strings::last_at(path, '/');
    &&& 0 < i < path.len() - 1
    &&& strings::is_ascii_alnum(path[i - 1])
    &&& strings::is_ascii_alnum(path[i + 1])
    &&& forall|j: int| i < j < path.len() ==> is_plain(#[trigger] path[j])
    &&& !(is_separator(path[0]) && is_separator(path[1]))
}

/// What is true of the parent of a path on every system. It is the path without its
/// end, so it is a beginning of the path and shorter; an empty path has none. Where a
/// slash parts the final component from the rest, the rest is the parent.
pub open spec fn is_parent(path: Seq<char>, parent: Option<Seq<char>>) -> bool {
    &&& path.len() == 0 ==> parent is None
    &&& parent matches Some(d) ==> strings::starts_with(path, d) && d.len() < path.len()
    &&& slash_parts(path) ==> parent == Some(path.take(strings::last_at(path, '/')))
}

/// A name of letters.
pub open spec fn is_letters(name: Seq<char>) -> bool {
    &&& name.len() > 0
    &&& forall|i: int| 0 <= i < name.len() ==> 'a' <= #[trigger] name[i] <= 'z'
}

/// The path is one that Windows takes literally, and brings into a normal form when
/// something is joined to it.
pub open spec fn is_literal(path: Seq<char>) -> bool {
    strings::starts_with(path, "\\\\?\\"@)
}

/// `joined` begins with `path` and ends in `name`, one after the other.
pub open spec fn extends(path: Seq<char>, name: Seq<char>, joined: Seq<char>) -> bool {
    exists|between: Seq<char>| joined == path + #[trigger] (between + name)
}

/// What is true on every system of a path that a name of letters is joined to. It ends
/// in the name, and unless the path is taken literally it begins with the path.
pub open spec fn is_joined(path: Seq<char>, name: Seq<char>, joined: Seq<char>) -> bool {
    is_letters(name) ==> {
        &&& strings::ends_with(joined, name)
        &&& !is_literal(path) ==> extends(path, name, joined)
    }
}

/// `std::path::Path::parent`. By which rules it reads the path is up to the system
/// that this runs on. Of the result only that is said which holds on every system: it
/// is the path without its final component, and `/` parts components on every system.
/// Left unsaid is what else parts components, and which beginnings of a path count as
/// one.
#[verifier::external_body]
fn native_parent(path: &str) -> (r: Option<String>)
    ensures
        is_parent(path@, r.deep_view()),
{
    std::path::Path::new(path).parent().map(|p| p.to_string_lossy().into_owned())
}

/// `std::path::Path::join`. By which rules it reads the path is up to the system that
/// this runs on. Of the result only that is said which holds on every system: a
/// relative name is put at the end of the path. Left unsaid is what stands between the
/// two, and the normal form of a path that Windows takes literally.
#[verifier::external_body]
fn native_join(path: &str, name: &str) -> (r: String)
    ensures
        is_joined(path@, name@, r@),
{
    std::path::Path::new(path).join(name).to_string_lossy().into_owned()
}

/// Cutting components that say nothing leaves a beginning of the path.
proof fn lemma_without_trivial_end(p: Seq<char>, b: int)
    ensures
        strings::starts_with(p, without_trivial_end(p, b)),
    decreases p.len(),
{
    if 0 <= b < p.len() && ends_trivially(p, b) {
        strings::lemma_last_at(p.skip(b), '/');
        let q = without_component(p, b);
        lemma_without_trivial_end(q, b);
        let r = without_trivial_end(q, b);
        assert(p.take(r.len() as int) =~= q.take(r.len() as int));
    } else {
        assert(p.take(p.len() as int) =~= p);
    }
}

/// Where a slash parts the final component from the rest, it does so on Unix.
proof fn lemma_slash_parts_on_unix(p: Seq<char>)
    requires
        slash_parts(p),
    ensures
        unix_parent(p) == Some(p.take(strings::last_at(p, '/'))),
{
    let i = strings::last_at(p, '/');
    let b = body_start(p);
    strings::lemma_last_at(p, '/');
    // The last slash is not the one that the path starts with.
    assert(b <= i - 1 || b == 0);
    let body = p.skip(b);
    assert forall|j: int| i - b < j < body.len() implies body[j] != '/' by {
        assert(body[j] == p[b + j]);
    }
    strings::lemma_last_at_is(body, '/', i - b);
    let name = p.skip(i + 1);
    assert(name[0] == p[i + 1]);
    assert(name != seq!['.']) by {
        assert(seq!['.'][0] == '.');
    }
    assert(without_trivial_end(p, b) == p);
    let d = p.take(i);
    assert(without_component(p, b) =~= d);
    // The directory ends in a letter or a digit, so nothing more is cut.
    let c = component_start(d, b);
    strings::lemma_last_at(d.skip(b), '/');
    let last = d.skip(c);
    assert(d.skip(b).last() == p[i - 1]);
    assert(last.len() > 0 && last.last() == p[i - 1]);
    assert(last != seq!['.']) by {
        assert(seq!['.'].last() == '.');
    }
    assert(without_trivial_end(d, b) == d);
}

/// On Unix the parent of a path is what it is on every system.
proof fn lemma_unix_parent(p: Seq<char>)
    ensures
        is_parent(p, unix_parent(p)),
{
    let b = body_start(p);
    let q = without_trivial_end(p, b);
    lemma_without_trivial_end(p, b);
    if q.len() > b {
        strings::lemma_last_at(q.skip(b), '/');
        let w = without_component(q, b);
        lemma_without_trivial_end(w, b);
        let r = without_trivial_end(w, b);
        assert(w.take(r.len() as int) =~= p.take(r.len() as int));
    } else {
        assert(p.take(0) =~= seq![]);
    }
    if slash_parts(p) {
        lemma_slash_parts_on_unix(p);
    }
}

/// On Unix a path that a name is joined to is what it is on every system.
proof fn lemma_unix_join(p: Seq<char>, name: Seq<char>)
    ensures
        is_joined(p, name, unix_join(p, name)),
{
    let joined = unix_join(p, name);
    assert(joined.skip(joined.len() - name.len()) =~= name);
    if p.len() == 0 || p.last() == '/' {
        assert(joined =~= p + (Seq::<char>::empty() + name));
    } else {
        assert(joined =~= p + ("/"@ + name));
    }
}

/// An isolated environment for R.
#[derive(Debug, Clone, PartialEq, Eq)]
pub struct REnv {
    /// The R binary.
    pub r_binary: String,
    /// The library that packages are installed into.
    pub library: String,
    /// A library that is searched before the other one.
    pub with_library: Option<String>,
    /// Libraries that are searched last, as the user wrote them.
    pub extra_libs: Option<String>,
    /// The system by whose rules the paths are read.
    pub platform: Platform,
}

/// What an [`REnv`] holds.
pub struct Environment {
    pub r_binary: Seq<char>,
    pub library: Seq<char>,
    pub with_library: Option<Seq<char>>,
    pub extra_libs: Option<Seq<char>>,
    pub platform: Platform,
}

impl DeepView for REnv {
    type V = Environment;

    open spec fn deep_view(&self) -> Environment {
        Environment {
            r_binary: self.r_binary@,
            library: self.library@,
            with_library: self.with_library.deep_view(),
            extra_libs: self.extra_libs.deep_view(),
            platform: self.platform,
        }
    }
}

/// The directory of the R binary, where `parent` is the parent of its path.
pub open spec fn bin_dir_from(parent: Option<Seq<char>>) -> Seq<char> {
    match parent {
        Some(d) => d,
        None => seq![],
    }
}

/// The directory of R's own libraries, where `parent` is the parent of the path of
/// the binary, `home` the parent of that, and `joined` the directory `lib` in `home`.
/// Empty where a parent is missing.
pub open spec fn lib_dir_from(
    parent: Option<Seq<char>>,
    home: Option<Seq<char>>,
    joined: Seq<char>,
) -> Seq<char> {
    if parent is Some && home is Some {
        joined
    } else {
        seq![]
    }
}

/// The directory of the R binary, where `parent` is the parent of its path.
pub fn bin_dir_of(parent: Option<String>) -> (r: String)
    ensures
        r@ == bin_dir_from(parent.deep_view()),
{
    match parent {
        Some(d) => d,
        None => {
            let empty = String::new();
            assert(empty@ =~= seq![]);
            empty
        },
    }
}

/// The directory of R's own libraries, where `parent` is the parent of the path of
/// the binary, `home` the parent of that, and `joined` the directory `lib` in `home`.
pub fn lib_dir_of(parent: &Option<String>, home: &Option<String>, joined: String) -> (r: String)
    ensures
        r@ == lib_dir_from(parent.deep_view(), home.deep_view(), joined@),
{
    if parent.is_some() && home.is_some() {
        joined
    } else {
        let empty = String::new();
        assert(empty@ =~= seq![]);
        empty
    }
}

/// The directory is one that [`bin_dir_from`] gives for a parent of the path of the
/// binary.
pub open spec fn is_bin_dir(r_binary: Seq<char>, dir: Seq<char>) -> bool {
    exists|parent: Option<Seq<char>>|
        #[trigger] is_parent(r_binary, parent) && dir == bin_dir_from(parent)
}

/// The parents and the path that goes by them are those from which the directory of
/// R's own libraries is made.
pub open spec fn leads_to_libs(
    r_binary: Seq<char>,
    parent: Option<Seq<char>>,
    home: Option<Seq<char>>,
    joined: Seq<char>,
) -> bool {
    &&& is_parent(r_binary, parent)
    &&& match parent {
        Some(d) => is_parent(d, home),
        None => home is None,
    }
    &&& home matches Some(h) ==> is_joined(h, "lib"@, joined)
}

/// The directory is one that [`lib_dir_from`] gives for the parents of the path of the
/// binary.
pub open spec fn is_lib_dir(r_binary: Seq<char>, dir: Seq<char>) -> bool {
    exists|parent: Option<Seq<char>>, home: Option<Seq<char>>, joined: Seq<char>|
        #[trigger] leads_to_libs(r_binary, parent, home, joined) && dir == lib_dir_from(
            parent,
            home,
            joined,
        )
}

/// The directory of the R binary on Unix.
pub open spec fn unix_bin_dir(r_binary: Seq<char>) -> Seq<char> {
    bin_dir_from(unix_parent(r_binary))
}

/// The directory of R's own libraries on Unix: `lib` beside the directory of the
/// binary.
pub open spec fn unix_lib_dir(r_binary: Seq<char>) -> Seq<char> {
    let parent = unix_parent(r_binary);
    let home = match parent {
        Some(d) => unix_parent(d),
        None => None,
    };
    let joined = match home {
        Some(h) => unix_join(h, "lib"@),
        None => seq![],
    };
    lib_dir_from(parent, home, joined)
}

/// The libraries that R searches: the one for this run, the project's, and those of
/// the user unless they are blank.
pub open spec fn libs_user(e: Environment) -> Seq<char> {
    let sep = path_sep_of(e.platform);
    let own = match e.with_library {
        Some(w) => w + sep + e.library,
        None => e.library,
    };
    match e.extra_libs {
        Some(x) => if strings::trim(x).len() > 0 {
            own + sep + strings::trim(x)
        } else {
            own
        },
        None => own,
    }
}

/// The variables of the environment, with `lib_dir` as the directory of R's own
/// libraries.
pub open spec fn variables(e: Environment, lib_dir: Seq<char>) -> Seq<(Seq<char>, Seq<char>)> {
    seq![
        ("R_LIBS_USER"@, libs_user(e)),
        ("R_LIBS_SITE"@, seq![]),
        ("R_LIBS"@, seq![]),
        ("DYLD_LIBRARY_PATH"@, lib_dir),
        ("LD_LIBRARY_PATH"@, lib_dir),
        ("R_ENVIRON"@, seq![]),
        ("R_ENVIRON_USER"@, seq![]),
    ]
}

impl REnv {
    /// The directory of a path.
    fn parent(&self, path: &str) -> (r: Option<String>)
        ensures
            is_parent(path@, r.deep_view()),
            self.platform == Platform::Unix ==> r.deep_view() == unix_parent(path@),
    {
        proof {
            lemma_unix_parent(path@);
        }
        match self.platform {
            Platform::Unix => parent_on_unix(path),
            Platform::Windows => native_parent(path),
        }
    }

    /// A path with one more component.
    fn join(&self, path: &str, name: &str) -> (r: String)
        ensures
            is_joined(path@, name@, r@),
            self.platform == Platform::Unix ==> r@ == unix_join(path@, name@),
    {
        proof {
            lemma_unix_join(path@, name@);
        }
        match self.platform {
            Platform::Unix => join_on_unix(path, name),
            Platform::Windows => native_join(path, name),
        }
    }

    /// The directory of the R binary, by which a shell finds this R: what
    /// [`bin_dir_of`] makes of the parent of its path. On Windows the path is read by
    /// the system's rules, of which only that is said which holds on every system.
    pub fn r_bin_dir(&self) -> (r: String)
        ensures
            is_bin_dir(self.r_binary@, r@),
            self.platform == Platform::Unix ==> r@ == unix_bin_dir(self.r_binary@),
    {
        bin_dir_of(self.parent(self.r_binary.as_str()))
    }

    /// The directory of R's own libraries, where compiled packages find `libR`: what
    /// [`lib_dir_of`] makes of the two parents of the path of the binary. Empty where
    /// the binary is not two levels deep. On Windows the path is read by the system's
    /// rules, of which only that is said which holds on every system.
    pub fn r_lib_dir(&self) -> (r: String)
        ensures
            is_lib_dir(self.r_binary@, r@),
            self.platform == Platform::Unix ==> r@ == unix_lib_dir(self.r_binary@),
    {
        let parent = self.parent(self.r_binary.as_str());
        let home = match &parent {
            Some(d) => self.parent(d.as_str()),
            None => None,
        };
        let joined = match &home {
            Some(h) => self.join(h.as_str(), "lib"),
            None => {
                let empty = String::new();
                assert(empty@ =~= seq![]);
                empty
            },
        };
        assert(leads_to_libs(self.r_binary@, parent.deep_view(), home.deep_view(), joined@));
        lib_dir_of(&parent, &home, joined)
    }

    /// The libraries that R searches, in order. Those of the user come last; they let
    /// a controlled environment show a library to a project that is otherwise
    /// isolated.
    pub fn r_libs_user(&self) -> (r: String)
        ensures
            r@ == libs_user(self.deep_view()),
    {
        let sep = path_sep(self.platform);
        let mut out = match &self.with_library {
            Some(w) => {
                let mut out = w.clone();
                out.append(sep);
                out.append(self.library.as_str());
                out
            },
            None => self.library.clone(),
        };
        if let Some(x) = &self.extra_libs {
            let cs = text::chars_of(x.as_str());
            let extra = text::trim(cs.as_slice());
            if extra.len() > 0 {
                out.append(sep);
                out.append(text::string_of(extra).as_str());
            }
        }
        out
    }

    /// Every variable of the environment, with `lib_dir` as the directory of R's own
    /// libraries. Those for the libraries of the system and for the startup files are
    /// blank, so that nothing of the system shows in a project.
    pub fn vars_with(&self, lib_dir: &str) -> (r: Vec<(&'static str, String)>)
        ensures
            r.deep_view() == variables(self.deep_view(), lib_dir@),
    {
        let r: Vec<(&'static str, String)> = vec![
            ("R_LIBS_USER", self.r_libs_user()),
            ("R_LIBS_SITE", String::new()),
            ("R_LIBS", String::new()),
            ("DYLD_LIBRARY_PATH", lib_dir.to_owned()),
            ("LD_LIBRARY_PATH", lib_dir.to_owned()),
            ("R_ENVIRON", String::new()),
            ("R_ENVIRON_USER", String::new()),
        ];
        assert(r.deep_view() =~= variables(self.deep_view(), lib_dir@)) by {
            let v = r.deep_view();
            let w = variables(self.deep_view(), lib_dir@);
            let blank = Seq::<char>::empty();
            assert(v[1].1 =~= blank && v[2].1 =~= blank && v[5].1 =~= blank && v[6].1 =~= blank);
            assert(v[0] == w[0] && v[1] == w[1] && v[2] == w[2] && v[3] == w[3] && v[4] == w[4]
                && v[5] == w[5] && v[6] == w[6]);
        }
        r
    }

    /// Every variable of the environment: those of [`REnv::vars_with`] with the
    /// directory that [`REnv::r_lib_dir`] gives.
    pub fn vars(&self) -> (r: Vec<(&'static str, String)>)
        ensures
            exists|lib_dir: Seq<char>|
                is_lib_dir(self.r_binary@, lib_dir) && r.deep_view() == #[trigger] variables(
                    self.deep_view(),
                    lib_dir,
                ),
            self.platform == Platform::Unix ==> r.deep_view() == variables(
                self.deep_view(),
                unix_lib_dir(self.r_binary@),
            ),
    {
        let lib_dir = self.r_lib_dir();
        self.vars_with(lib_dir.as_str())
    }
}

/// The directory of the R binary is a beginning of the path of the binary, on every
/// system. Where a slash parts the name of the binary from the rest, it is the rest.
pub proof fn law_bin_dir_holds_the_binary(r_binary: Seq<char>, dir: Seq<char>)
    requires
        is_bin_dir(r_binary, dir),
    ensures
        strings::starts_with(r_binary, dir),
        r_binary.len() > 0 ==> dir.len() < r_binary.len(),
        slash_parts(r_binary) ==> dir == r_binary.take(strings::last_at(r_binary, '/')),
{
    assert(r_binary.take(0) =~= seq![]);
}

/// The directory of R's own libraries is empty or ends in `lib`, on every system. Where
/// slashes part the binary and its directory from the rest, it begins with the rest.
pub proof fn law_lib_dir_is_beside_the_binary(r_binary: Seq<char>, dir: Seq<char>)
    requires
        is_lib_dir(r_binary, dir),
    ensures
        dir.len() == 0 || strings::ends_with(dir, "lib"@),
        ({
            let bin_dir = r_binary.take(strings::last_at(r_binary, '/'));
            let home = bin_dir.take(strings::last_at(bin_dir, '/'));
            slash_parts(r_binary) && slash_parts(bin_dir) ==> extends(home, "lib"@, dir)
        }),
{
    reveal_strlit("lib");
    assert(is_letters("lib"@));
    let bin_dir = r_binary.take(strings::last_at(r_binary, '/'));
    if slash_parts(r_binary) && slash_parts(bin_dir) {
        let home = bin_dir.take(strings::last_at(bin_dir, '/'));
        // What is taken literally starts with two separators.
        reveal_strlit("\\\\?\\");
        if is_literal(home) {
            let start = home.take(4);
            assert(start[0] == bin_dir[0] && start[1] == bin_dir[1]);
        }
    }
}

/// Whatever the environment, the variables that could show something of the system
/// are among those that are set, and they are blank.
pub proof fn law_system_libraries_are_shadowed(e: Environment, lib_dir: Seq<char>)
    ensures
        variables(e, lib_dir).contains(("R_LIBS_SITE"@, seq![])),
        variables(e, lib_dir).contains(("R_LIBS"@, seq![])),
        variables(e, lib_dir).contains(("R_ENVIRON"@, seq![])),
        variables(e, lib_dir).contains(("R_ENVIRON_USER"@, seq![])),
        variables(e, lib_dir).contains(("R_LIBS_USER"@, libs_user(e))),
{
    let v = variables(e, lib_dir);
    assert(v[0] == ("R_LIBS_USER"@, libs_user(e)));
    assert(v[1] == ("R_LIBS_SITE"@, Seq::<char>::empty()));
    assert(v[2] == ("R_LIBS"@, Seq::<char>::empty()));
    assert(v[5] == ("R_ENVIRON"@, Seq::<char>::empty()));
    assert(v[6] == ("R_ENVIRON_USER"@, Seq::<char>::empty()));
}

/// Blank libraries of the user are as good as none: no separator is left behind,
/// which R would take for the current directory.
pub proof fn law_blank_extra_libs_are_ignored(e: Environment, blank: Seq<char>)
    requires
        strings::trim(blank).len() == 0,
    ensures
        libs_user(
            Environment {
                r_binary: e.r_binary,
                library: e.library,
                with_library: e.with_library,
                extra_libs: Some(blank),
                platform: e.platform,
            },
        ) == libs_user(
            Environment {
                r_binary: e.r_binary,
                library: e.library,
                with_library: e.with_library,
                extra_libs: None,
                platform: e.platform,
            },
        ),
{
}

/// Paths stand in a list with a colon between them on Unix, and with a semicolon on
/// Windows.
pub proof fn law_separators()
    ensures
        path_sep_of(Platform::Unix) == seq![':'],
        path_sep_of(Platform::Windows) == seq![';'],
{
    reveal_strlit(":");
    reveal_strlit(";");
    assert(":"@ =~= seq![':']);
    assert(";"@ =~= seq![';']);
}

/// The library for this run is searched first, the project's after it, and those of the
/// user last, as they were written but for white space around them.
pub proof fn law_libraries_in_order(
    e: Environment,
    first: Seq<char>,
    before: Seq<char>,
    last: Seq<char>,
    after: Seq<char>,
)
    requires
        strings::all_white(before),
        strings::all_white(after),
        strings::is_trimmed(last),
        last.len() > 0,
        e.with_library is None,
        e.extra_libs is None,
    ensures
        ({
            let sep = if e.platform == Platform::Unix {
                seq![':']
            } else {
                seq![';']
            };
            let run = Environment { with_library: Some(first), ..e };
            let user = Environment { extra_libs: Some(before + last + after), ..e };
            let both = Environment {
                with_library: Some(first),
                extra_libs: Some(before + last + after),
                ..e
            };
            &&& libs_user(e) == e.library
            &&& libs_user(run) == first + sep + e.library
            &&& libs_user(user) == e.library + sep + last
            &&& libs_user(both) == first + sep + e.library + sep + last
        }),
{
    law_separators();
    strings::law_trim_takes_white_space_away(before, last, after);
}

/// The variables of the environment are seven: the libraries of the project, R's own
/// libraries for both kinds of loaders, and four that are blank.
pub proof fn law_variables(e: Environment, lib_dir: Seq<char>, name: Seq<char>, value: Seq<char>)
    ensures
        variables(e, lib_dir).contains((name, value)) <==> {
            ||| name == "R_LIBS_USER"@ && value == libs_user(e)
            ||| name == "DYLD_LIBRARY_PATH"@ && value == lib_dir
            ||| name == "LD_LIBRARY_PATH"@ && value == lib_dir
            ||| value.len() == 0 && (name == "R_LIBS_SITE"@ || name == "R_LIBS"@ || name
                == "R_ENVIRON"@ || name == "R_ENVIRON_USER"@)
        },
        variables(e, lib_dir).len() == 7,
{
    let v = variables(e, lib_dir);
    let blank = Seq::<char>::empty();
    assert(v[0] == ("R_LIBS_USER"@, libs_user(e)));
    assert(v[1] == ("R_LIBS_SITE"@, blank));
    assert(v[2] == ("R_LIBS"@, blank));
    assert(v[3] == ("DYLD_LIBRARY_PATH"@, lib_dir));
    assert(v[4] == ("LD_LIBRARY_PATH"@, lib_dir));
    assert(v[5] == ("R_ENVIRON"@, blank));
    assert(v[6] == ("R_ENVIRON_USER"@, blank));
    if value.len() == 0 {
        assert(value =~= blank);
    }
}

/// Of a binary `home/bin/R` on Unix the directory is `home/bin`, and that of R's own
/// libraries `home/lib`.
pub proof fn law_directories_on_unix(home: Seq<char>)
    requires
        home.len() > 0,
        strings::is_ascii_alnum(home.last()),
        home.len() > 1 ==> !(is_separator(home[0]) && is_separator(home[1])),
    ensures
        unix_bin_dir(home + "/bin/R"@) == home + "/bin"@,
        unix_lib_dir(home + "/bin/R"@) == home + "/lib"@,
{
    reveal_strlit("/bin/R");
    reveal_strlit("/bin");
    reveal_strlit("/lib");
    reveal_strlit("lib");
    reveal_strlit("/");
    let binary = home + "/bin/R"@;
    let dir = home + "/bin"@;
    let n = home.len() as int;
    assert(binary[n + 4] == '/');
    strings::lemma_last_at_is(binary, '/', n + 4);
    assert(slash_parts(binary)) by {
        assert(binary[n + 3] == 'n' && binary[n + 5] == 'R');
        assert(home.len() == 1 ==> !is_separator(home[0]));
    }
    lemma_unix_parent(binary);
    assert(binary.take(n + 4) =~= dir);
    assert(dir[n] == '/');
    strings::lemma_last_at_is(dir, '/', n);
    assert(slash_parts(dir)) by {
        assert(dir[n - 1] == home.last() && dir[n + 1] == 'b' && dir[n + 2] == 'i' && dir[n + 3]
            == 'n');
    }
    lemma_unix_parent(dir);
    assert(dir.take(n) =~= home);
    assert(unix_join(home, "lib"@) =~= home + "/lib"@);
}

/// A name that is one component of a Unix path and says something.
pub open spec fn is_component(name: Seq<char>) -> bool {
    name.len() > 0 && !name.contains('/') && name != seq!['.']
}

/// A Unix path whose last component says something, and ends it.
pub open spec fn ends_in_a_component(dir: Seq<char>) -> bool {
    dir.len() > 0 && dir.last() != '/' && dir.last() != '.'
}

/// A component behind a directory is the last one.
proof fn lemma_last_component(dir: Seq<char>, name: Seq<char>)
    requires
        ends_in_a_component(dir),
        is_component(name),
    ensures
        ({
            let s = dir + seq!['/'] + name;
            let b = body_start(s);
            &&& 0 <= b < dir.len()
            &&& component_start(s, b) == dir.len() + 1
            &&& s.skip(component_start(s, b)) == name
            &&& without_trivial_end(s, b) == s
            &&& without_component(s, b) == dir
            &&& without_trivial_end(dir, b) == dir
        }),
{
    let s = dir + seq!['/'] + name;
    let b = body_start(s);
    let n = dir.len() as int;
    assert(s[0] == dir[0]);
    if dir.len() == 1 {
        assert(dir[0] == dir.last());
    }
    let body = s.skip(b);
    assert(body[n - b] == '/');
    assert forall|j: int| n - b < j < body.len() implies body[j] != '/' by {
        assert(body[j] == name[j - (n - b) - 1]);
        assert(name.contains(name[j - (n - b) - 1]));
    }
    strings::lemma_last_at_is(body, '/', n - b);
    assert(s.skip(n + 1) =~= name);
    assert(s.take(n) =~= dir);
    lemma_component_ends(dir, b);
}

/// What ends in a component does not end trivially.
proof fn lemma_component_ends(dir: Seq<char>, b: int)
    requires
        ends_in_a_component(dir),
        0 <= b < dir.len(),
    ensures
        !ends_trivially(dir, b),
        without_trivial_end(dir, b) == dir,
{
    let body = dir.skip(b);
    strings::lemma_last_at(body, '/');
    let c = component_start(dir, b);
    let k = strings::last_at(body, '/');
    if k == body.len() - 1 {
        assert(body[k] == dir.last());
    }
    let component = dir.skip(c);
    assert(component.len() > 0);
    assert(component.last() == dir.last());
}

/// On Unix the parent of a path is the path without its last component and the slash
/// before it. Slashes in a row are one, and slashes and dots at the end say nothing.
pub proof fn law_parent_on_unix(dir: Seq<char>, name: Seq<char>)
    requires
        ends_in_a_component(dir),
        is_component(name),
    ensures
        unix_parent(dir + seq!['/'] + name) == Some(dir),
        unix_parent(dir + seq!['/'] + name + seq!['/']) == Some(dir),
        unix_parent(dir + seq!['/'] + name + seq!['/', '.']) == Some(dir),
        unix_parent(dir + seq!['/', '/'] + name) == Some(dir),
        unix_parent(unix_join(dir, name)) == Some(dir),
{
    let s = dir + seq!['/'] + name;
    let b = body_start(s);
    let n = s.len() as int;
    lemma_last_component(dir, name);
    reveal_strlit("/");
    assert(unix_join(dir, name) =~= s);
    assert(s[0] == dir[0]);
    // A slash at the end.
    let t = s + seq!['/'];
    assert(body_start(t) == b);
    assert(t.skip(b)[n - b] == '/');
    strings::lemma_last_at_is(t.skip(b), '/', n - b);
    assert(t.take(n) =~= s);
    assert(ends_trivially(t, b));
    assert(without_trivial_end(t, b) == without_trivial_end(s, b));
    // A dot at the end.
    let u = s + seq!['/', '.'];
    assert(body_start(u) == b);
    assert(u.skip(b)[n - b] == '/');
    strings::lemma_last_at_is(u.skip(b), '/', n - b);
    assert(u.skip(n + 1) =~= seq!['.']);
    assert(u.take(n) =~= s);
    assert(ends_trivially(u, b));
    assert(without_trivial_end(u, b) == without_trivial_end(s, b));
    // Two slashes.
    let w = dir + seq!['/', '/'] + name;
    let d = dir + seq!['/'];
    let m = dir.len() as int;
    assert(w[0] == dir[0]);
    assert(body_start(w) == b) by {
        if m == 1 {
            assert(dir[0] == dir.last());
        }
    }
    let body = w.skip(b);
    assert(body[m + 1 - b] == '/');
    assert forall|j: int| m + 1 - b < j < body.len() implies body[j] != '/' by {
        assert(body[j] == name[j - (m + 1 - b) - 1]);
        assert(name.contains(name[j - (m + 1 - b) - 1]));
    }
    strings::lemma_last_at_is(body, '/', m + 1 - b);
    assert(w.skip(m + 2) =~= name);
    assert(!ends_trivially(w, b));
    assert(w.take(m + 1) =~= d);
    assert(d.skip(b)[m - b] == '/');
    strings::lemma_last_at_is(d.skip(b), '/', m - b);
    assert(ends_trivially(d, b));
    assert(d.take(m) =~= dir);
    assert(without_trivial_end(d, b) == without_trivial_end(dir, b));
}

/// The parent of what is at the root is the root, that of a lone name is empty, and the
/// root and the empty path have none. A name is joined with one slash.
pub proof fn law_ends_of_the_tree_on_unix(name: Seq<char>, dir: Seq<char>)
    requires
        is_component(name),
    ensures
        unix_parent(seq!['/'] + name) == Some(seq!['/']),
        unix_parent(name) == Some(Seq::<char>::empty()),
        unix_parent(seq!['/']) is None,
        unix_parent(seq![]) is None,
        unix_join(seq![], name) == name,
        unix_join(dir + seq!['/'], name) == dir + seq!['/'] + name,
        dir.len() > 0 && dir.last() != '/' ==> unix_join(dir, name) == dir + seq!['/'] + name,
{
    reveal_strlit("/");
    assert("/"@ =~= seq!['/']);
    assert(Seq::<char>::empty() + name =~= name);
    assert(name[0] != '/') by {
        assert(name.contains(name[0]));
    }
    assert forall|j: int| 0 <= j < name.len() implies name[j] != '/' by {
        assert(name.contains(name[j]));
    }
    let s = seq!['/'] + name;
    assert(s.skip(1) =~= name);
    strings::lemma_last_at_is(name, '/', -1);
    assert(component_start(s, 1) == 1);
    assert(s.take(1) =~= seq!['/']);
    assert(body_start(name) == 0) by {
        if name.len() == 1 && name[0] == '.' {
            assert(name =~= seq!['.']);
        }
    }
    assert(name.skip(0) =~= name);
    assert(name.take(0) =~= seq![]);
}

/// The directory of the binary is its parent, and empty where it has none. That of R's
/// own libraries is empty unless the binary is two levels deep.
pub proof fn law_directories_from_parents(dir: Seq<char>, home: Seq<char>, joined: Seq<char>)
    ensures
        bin_dir_from(Some(dir)) == dir,
        bin_dir_from(None).len() == 0,
        lib_dir_from(Some(dir), Some(home), joined) == joined,
        lib_dir_from(Some(dir), None, joined).len() == 0,
        lib_dir_from(None, Some(home), joined).len() == 0,
        lib_dir_from(None, None, joined).len() == 0,
{
}

} // verus!
