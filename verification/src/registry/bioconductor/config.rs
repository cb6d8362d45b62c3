//! Which release of Bioconductor goes with a version of R.
//!
//! Bioconductor says so in its `config.yaml`. A table here answers where that file
//! cannot be had.

use vstd::prelude::*;

use crate::error;
use crate::strings;
use crate::text;

verus! {

/// Where Bioconductor keeps its `config.yaml`.
pub const BIOC_CONFIG_URL: &'static str = "https://bioconductor.org/config.yaml";

/// For how many seconds a copy of `config.yaml` is used before it is fetched anew.
pub const BIOC_CONFIG_TTL: u64 = 604_800;

/// The release that goes with R `major.minor` as far as is known here. For an R that
/// is not known it is the newest one.
pub open spec fn table_release(major: u64, minor: u64) -> Seq<char> {
    if major == 4 && minor == 5 {
        "3.21"@
    } else if major == 4 && minor == 4 {
        "3.20"@
    } else if major == 4 && minor == 3 {
        "3.18"@
    } else if major == 4 && minor == 2 {
        "3.16"@
    } else if major == 4 && minor == 1 {
        "3.14"@
    } else if major == 4 && minor == 0 {
        "3.12"@
    } else {
        "3.23"@
    }
}

/// The release that goes with R `major.minor`, from the table.
pub fn bioc_release_for_r(r_major: u64, r_minor: u64) -> (r: &'static str)
    ensures
        r@ == table_release(r_major, r_minor),
{
    match (r_major, r_minor) {
        (4, 6) => "3.23",
        (4, 5) => "3.21",
        (4, 4) => "3.20",
        (4, 3) => "3.18",
        (4, 2) => "3.16",
        (4, 1) => "3.14",
        (4, 0) => "3.12",
        _ => "3.23",
    }
}

/// What is read of `config.yaml`.
#[derive(Debug, PartialEq, Eq)]
pub struct BiocConfig {
    /// Releases with the R that each was built for, in the order of the file.
    pub pairs: Vec<(String, String)>,
    /// The release that is not out yet.
    pub devel: Option<String>,
}

/// What a [`BiocConfig`] holds.
#[verifier::ext_equal]
pub struct Pairing {
    pub pairs: Seq<(Seq<char>, Seq<char>)>,
    pub devel: Option<Seq<char>>,
}

impl DeepView for BiocConfig {
    type V = Pairing;

    open spec fn deep_view(&self) -> Pairing {
        Pairing { pairs: self.pairs.deep_view(), devel: self.devel.deep_view() }
    }
}

/// The major and the minor number of a version `X.Y[.Z]`. A missing minor number is
/// zero.
pub open spec fn version_key_of(v: Seq<char>) -> Option<(u64, u64)> {
    let parts = strings::split(strings::trim(v), '.');
    let major = strings::parse_unsigned(parts[0], 10);
    let minor = if parts.len() > 1 {
        strings::parse_unsigned(parts[1], 10)
    } else {
        Some(0)
    };
    match (major, minor) {
        (Some(a), Some(b)) => Some((a, b)),
        _ => None,
    }
}

/// Reads the major and the minor number of a version.
pub fn version_key(v: &str) -> (r: Option<(u64, u64)>)
    ensures
        r == version_key_of(v@),
{
    let cs = text::chars_of(v);
    let parts = text::split(text::trim(cs.as_slice()), '.');
    let ghost all = strings::split(strings::trim(v@), '.');
    assert(all[0] == parts@[0]@);
    let major: u64 = match text::parse_unsigned(parts[0], 10) {
        Some(n) => n,
        None => {
            return None;
        },
    };
    if parts.len() > 1 {
        assert(all[1] == parts@[1]@);
        match text::parse_unsigned(parts[1], 10) {
            Some(minor) => Some((major, minor)),
            None => None,
        }
    } else {
        Some((major, 0))
    }
}

/// One version is older than another.
pub open spec fn is_older(a: (u64, u64), b: (u64, u64)) -> bool {
    a.0 < b.0 || (a.0 == b.0 && a.1 < b.1)
}

/// Whether one version is older than another.
fn older(a: (u64, u64), b: (u64, u64)) -> (r: bool)
    ensures
        r == is_older(a, b),
{
    a.0 < b.0 || (a.0 == b.0 && a.1 < b.1)
}

/// Pair `i` is of a release that is out.
pub open spec fn is_released(c: Pairing, i: int) -> bool {
    0 <= i < c.pairs.len() && Some(c.pairs[i].0) != c.devel
}

/// Pair `i` is of a release that is out, whose number can be read, and which was
/// built for R `want`, or for any R where none is wanted.
pub open spec fn is_candidate(c: Pairing, want: Option<(u64, u64)>, i: int) -> bool {
    &&& is_released(c, i)
    &&& version_key_of(c.pairs[i].0) is Some
    &&& want is Some ==> version_key_of(c.pairs[i].1) == want
}

/// Pair `i` is of the newest release among the candidates. Of equally new ones it is
/// the last.
pub open spec fn is_newest(c: Pairing, want: Option<(u64, u64)>, i: int) -> bool {
    &&& is_candidate(c, want, i)
    &&& forall|j: int| #[trigger]
        is_candidate(c, want, j) ==> {
            let a = version_key_of(c.pairs[j].0)->0;
            let b = version_key_of(c.pairs[i].0)->0;
            is_older(a, b) || (a == b && j <= i)
        }
}

/// The newest release among the candidates, if there is one.
pub open spec fn newest(c: Pairing, want: Option<(u64, u64)>) -> Option<Seq<char>> {
    if exists|i: int| is_candidate(c, want, i) {
        Some(c.pairs[choose|i: int| is_newest(c, want, i)].0)
    } else {
        None
    }
}

/// Pair `i` is of a release that is out, and names an R whose number can be read.
pub open spec fn names_r(c: Pairing, i: int) -> bool {
    is_released(c, i) && version_key_of(c.pairs[i].1) is Some
}

/// R `r` is newer than every R that a release was built for.
pub open spec fn is_newer_than_all(c: Pairing, r: (u64, u64)) -> bool {
    &&& exists|i: int| names_r(c, i)
    &&& forall|i: int| #[trigger]
        names_r(c, i) ==> is_older(version_key_of(c.pairs[i].1)->0, r)
}

/// The release that goes with R `major.minor`: the newest that was built for it. For
/// an R that is newer than all of them it is the newest release. Of any other R the
/// file says nothing.
pub open spec fn config_release(c: Pairing, major: u64, minor: u64) -> Option<Seq<char>> {
    match newest(c, Some((major, minor))) {
        Some(b) => Some(b),
        None => if is_newer_than_all(c, (major, minor)) {
            newest(c, None)
        } else {
            None
        },
    }
}

/// Two pairs of the newest release are one.
proof fn lemma_newest_is_one(c: Pairing, want: Option<(u64, u64)>, i: int, j: int)
    requires
        is_newest(c, want, i),
        is_newest(c, want, j),
    ensures
        i == j,
{
    assert(is_candidate(c, want, i) && is_candidate(c, want, j));
}

impl BiocConfig {
    /// Whether pair `i` is of a release that is out.
    fn released(&self, i: usize) -> (r: bool)
        requires
            i < self.pairs@.len(),
        ensures
            r == is_released(self.deep_view(), i as int),
    {
        assert(self.deep_view().pairs[i as int] == self.pairs@[i as int].deep_view());
        match &self.devel {
            Some(d) => !text::same_str(self.pairs[i].0.as_str(), d.as_str()),
            None => true,
        }
    }

    /// The newest release among the candidates.
    fn newest_release(&self, want: Option<(u64, u64)>) -> (r: Option<String>)
        ensures
            r.deep_view() == newest(self.deep_view(), want),
    {
        let ghost c = self.deep_view();
        let mut best: Option<(usize, (u64, u64))> = None;
        let mut i: usize = 0;
        while i < self.pairs.len()
            invariant
                i <= self.pairs@.len(),
                c == self.deep_view(),
                match best {
                    Some((n, key)) => {
                        &&& n < i
                        &&& is_candidate(c, want, n as int)
                        &&& version_key_of(c.pairs[n as int].0) == Some(key)
                        &&& forall|j: int|
                            j < i && #[trigger] is_candidate(c, want, j) ==> {
                                let a = version_key_of(c.pairs[j].0)->0;
                                is_older(a, key) || (a == key && j <= n)
                            }
                    },
                    None => forall|j: int| j < i ==> !#[trigger] is_candidate(c, want, j),
                },
            decreases self.pairs@.len() - i,
        {
            assert(c.pairs[i as int] == self.pairs@[i as int].deep_view());
            let fits = match want {
                Some(w) => match version_key(self.pairs[i].1.as_str()) {
                    Some(k) => k.0 == w.0 && k.1 == w.1,
                    None => false,
                },
                None => true,
            };
            if fits && self.released(i) {
                if let Some(key) = version_key(self.pairs[i].0.as_str()) {
                    assert(is_candidate(c, want, i as int));
                    let better = match best {
                        Some((_, k)) => !older(key, k),
                        None => true,
                    };
                    if better {
                        best = Some((i, key));
                    }
                }
            }
            i += 1;
        }
        match best {
            Some((n, _)) => {
                proof {
                    assert(is_newest(c, want, n as int));
                    let m = choose|m: int| is_newest(c, want, m);
                    lemma_newest_is_one(c, want, n as int, m);
                    assert(c.pairs[n as int] == self.pairs@[n as int].deep_view());
                }
                Some(self.pairs[n].0.clone())
            },
            None => {
                assert(!exists|j: int| is_candidate(c, want, j)) by {
                    assert forall|j: int| !is_candidate(c, want, j) by {
                        if is_candidate(c, want, j) {
                            assert(j < c.pairs.len());
                        }
                    }
                }
                None
            },
        }
    }

    /// Whether an R is newer than every R that a release was built for.
    fn newer_than_all(&self, r: (u64, u64)) -> (b: bool)
        ensures
            b == is_newer_than_all(self.deep_view(), r),
    {
        let ghost c = self.deep_view();
        let mut some = false;
        let mut i: usize = 0;
        while i < self.pairs.len()
            invariant
                i <= self.pairs@.len(),
                c == self.deep_view(),
                some ==> exists|j: int| names_r(c, j),
                !some ==> forall|j: int| j < i ==> !#[trigger] names_r(c, j),
                forall|j: int|
                    j < i && #[trigger] names_r(c, j) ==> is_older(
                        version_key_of(c.pairs[j].1)->0,
                        r,
                    ),
            decreases self.pairs@.len() - i,
        {
            assert(c.pairs[i as int] == self.pairs@[i as int].deep_view());
            if self.released(i) {
                if let Some(k) = version_key(self.pairs[i].1.as_str()) {
                    assert(names_r(c, i as int));
                    some = true;
                    if !older(k, r) {
                        return false;
                    }
                }
            }
            i += 1;
        }
        proof {
            assert forall|j: int| #[trigger] names_r(c, j) implies j < i by {
                assert(j < c.pairs.len());
            }
        }
        some
    }

    /// The release that goes with R `major.minor`, if the file has an answer. A
    /// release that is not out yet is none.
    pub fn release_for_r(&self, major: u64, minor: u64) -> (r: Option<String>)
        ensures
            r.deep_view() == config_release(self.deep_view(), major, minor),
    {
        match self.newest_release(Some((major, minor))) {
            Some(b) => Some(b),
            None => if self.newer_than_all((major, minor)) {
                self.newest_release(None)
            } else {
                None
            },
        }
    }
}

/// A scalar without the white space and the quotes around it.
pub open spec fn unquoted(s: Seq<char>) -> Seq<char> {
    strings::trim(strings::trim_of(strings::trim(s), seq!['"', '\'']))
}

/// A scalar without the white space and the quotes around it.
pub fn unquote(s: &[char]) -> (r: String)
    ensures
        r@ == unquoted(s@),
{
    let quotes: Vec<char> = vec!['"', '\''];
    assert(quotes@ =~= seq!['"', '\'']);
    text::string_of(text::trim(text::trim_of(text::trim(s), quotes.as_slice())))
}

/// What has been read of `config.yaml` so far.
#[verifier::ext_equal]
pub struct ConfigProgress {
    pub pairing: Pairing,
    /// The lines belong to the mapping of releases.
    pub in_map: bool,
}

/// `line` is indented.
pub open spec fn is_indented(line: Seq<char>) -> bool {
    line.len() > 0 && (line[0] == ' ' || line[0] == '\t')
}

/// One line more, without its comment. A line that is not indented ends the mapping
/// of releases or starts it, and can name the release that is not out yet. An
/// indented line within the mapping is a pair.
pub open spec fn config_line(p: ConfigProgress, raw: Seq<char>) -> ConfigProgress {
    let line = strings::before(raw, '#');
    if strings::trim(line).len() == 0 {
        p
    } else if !is_indented(line) {
        ConfigProgress {
            pairing: Pairing {
                pairs: p.pairing.pairs,
                devel: match strings::strip_prefix(line, "devel_version:"@) {
                    Some(v) => if unquoted(v).len() > 0 {
                        Some(unquoted(v))
                    } else {
                        p.pairing.devel
                    },
                    None => p.pairing.devel,
                },
            },
            in_map: strings::starts_with(line, "r_ver_for_bioc_ver:"@),
        }
    } else if !p.in_map {
        p
    } else {
        match strings::split_once(line, ':') {
            Some((b, r)) => if unquoted(b).len() > 0 && unquoted(r).len() > 0 {
                ConfigProgress {
                    pairing: Pairing {
                        pairs: p.pairing.pairs.push((unquoted(b), unquoted(r))),
                        devel: p.pairing.devel,
                    },
                    in_map: p.in_map,
                }
            } else {
                p
            },
            None => p,
        }
    }
}

/// What the lines come to.
pub open spec fn config_lines(lines: Seq<Seq<char>>) -> ConfigProgress
    decreases lines.len(),
{
    if lines.len() == 0 {
        ConfigProgress { pairing: Pairing { pairs: seq![], devel: None }, in_map: false }
    } else {
        config_line(config_lines(lines.drop_last()), lines.last())
    }
}

/// What `config.yaml` says.
pub open spec fn config_of(content: Seq<char>) -> Pairing {
    config_lines(strings::lines(content)).pairing
}

/// Reads `config.yaml`. A file of another shape gives no pairs.
pub fn parse_bioc_config(content: &str) -> (r: BiocConfig)
    ensures
        r.deep_view() == config_of(content@),
{
    let cs = text::chars_of(content);
    let lines = text::lines(cs.as_slice());
    let ghost all = text::views(lines@);
    let mut config = BiocConfig { pairs: Vec::new(), devel: None };
    let mut in_map = false;
    let mut i: usize = 0;
    assert(all.take(0) =~= seq![]);
    assert(config.pairs.deep_view() =~= seq![]);
    while i < lines.len()
        invariant
            i <= lines@.len(),
            all == text::views(lines@),
            config_lines(all.take(i as int)) == (ConfigProgress {
                pairing: config.deep_view(),
                in_map,
            }),
        decreases lines@.len() - i,
    {
        assert(all.take(i + 1).drop_last() =~= all.take(i as int));
        assert(all.take(i + 1).last() == lines@[i as int]@);
        let line = text::before(lines[i], '#');
        if text::trim(line).len() > 0 {
            if !(line.len() > 0 && (line[0] == ' ' || line[0] == '\t')) {
                in_map = text::starts_with(line, "r_ver_for_bioc_ver:");
                if let Some(v) = text::strip_prefix(line, "devel_version:") {
                    let devel = unquote(v);
                    if !devel.as_str().is_empty() {
                        config.devel = Some(devel);
                    }
                }
            } else if in_map {
                if let Some((b, r)) = text::split_once(line, ':') {
                    let bioc = unquote(b);
                    let r_version = unquote(r);
                    if !bioc.as_str().is_empty() && !r_version.as_str().is_empty() {
                        let ghost before = config.pairs.deep_view();
                        let ghost pair = (bioc@, r_version@);
                        config.pairs.push((bioc, r_version));
                        assert(config.pairs.deep_view() =~= before.push(pair));
                    }
                }
            }
        }
        i += 1;
    }
    assert(all.take(i as int) =~= all);
    config
}

/// The number at a place of a dotted version, or a default.
pub open spec fn part_or(parts: Seq<Seq<char>>, i: int, default: u64) -> u64 {
    if i < parts.len() {
        match strings::parse_unsigned(parts[i], 10) {
            Some(n) => n,
            None => default,
        }
    } else {
        default
    }
}

/// The release that goes with an R: what `config.yaml` says, and what the table says
/// where it says nothing. An R whose numbers cannot be read gets the newest release
/// of the table.
pub open spec fn release_of(config: Option<Pairing>, r_version: Seq<char>) -> Seq<char> {
    let parts = strings::split(r_version, '.');
    let major = part_or(parts, 0, 4);
    let minor = part_or(parts, 1, 99);
    let said = match config {
        Some(c) => config_release(c, major, minor),
        None => None,
    };
    match said {
        Some(b) => b,
        None => table_release(major, minor),
    }
}

/// The release that goes with an R such as `4.4.1`.
pub fn resolve_release(config: Option<&BiocConfig>, r_version: &str) -> (r: String)
    ensures
        r@ == release_of(config.deep_view(), r_version@),
{
    let cs = text::chars_of(r_version);
    let parts = text::split(cs.as_slice(), '.');
    let ghost all = strings::split(r_version@, '.');
    assert(all[0] == parts@[0]@);
    let major: u64 = match text::parse_unsigned(parts[0], 10) {
        Some(n) => n,
        None => 4,
    };
    let minor: u64 = if parts.len() > 1 {
        assert(all[1] == parts@[1]@);
        match text::parse_unsigned(parts[1], 10) {
            Some(n) => n,
            None => 99,
        }
    } else {
        99
    };
    if let Some(c) = config {
        if let Some(b) = c.release_for_r(major, minor) {
            return b;
        }
    }
    bioc_release_for_r(major, minor).to_owned()
}

/// Pair `i` is of the newest release among the candidates before `n`.
spec fn is_newest_before(c: Pairing, want: Option<(u64, u64)>, n: int, i: int) -> bool {
    &&& i < n
    &&& is_candidate(c, want, i)
    &&& forall|j: int|
        j < n && #[trigger] is_candidate(c, want, j) ==> {
            let a = version_key_of(c.pairs[j].0)->0;
            let b = version_key_of(c.pairs[i].0)->0;
            is_older(a, b) || (a == b && j <= i)
        }
}

/// Where there is a candidate there is a newest release.
proof fn lemma_newest_exists(c: Pairing, want: Option<(u64, u64)>, n: int, k: int) -> (i: int)
    requires
        0 <= n <= c.pairs.len(),
        is_candidate(c, want, k),
        k < n,
    ensures
        is_newest_before(c, want, n, i),
    decreases n,
{
    let last = n - 1;
    if exists|m: int| m < last && is_candidate(c, want, m) {
        let m = choose|m: int| m < last && is_candidate(c, want, m);
        let i = lemma_newest_exists(c, want, last, m);
        if is_candidate(c, want, last) && !is_older(
            version_key_of(c.pairs[last].0)->0,
            version_key_of(c.pairs[i].0)->0,
        ) {
            last
        } else {
            i
        }
    } else {
        last
    }
}

/// The newest release is one of the candidates, and no candidate is newer.
proof fn lemma_newest(c: Pairing, want: Option<(u64, u64)>)
    ensures
        newest(c, want) matches Some(b) ==> exists|i: int|
            #![trigger is_newest(c, want, i)]
            is_newest(c, want, i) && b == c.pairs[i].0,
        newest(c, want) is None ==> forall|i: int| !#[trigger] is_candidate(c, want, i),
{
    if exists|i: int| is_candidate(c, want, i) {
        let k = choose|k: int| is_candidate(c, want, k);
        assert(is_candidate(c, want, k) && k < c.pairs.len());
        let i = lemma_newest_exists(c, want, c.pairs.len() as int, k);
        assert(is_newest(c, want, i));
    }
}

/// The release that is not out yet is never picked from the file.
pub proof fn law_devel_is_never_picked(c: Pairing, major: u64, minor: u64)
    ensures
        config_release(c, major, minor) matches Some(b) ==> Some(b) != c.devel,
{
    lemma_newest(c, Some((major, minor)));
    lemma_newest(c, None);
}

/// Where the file pairs a release that is out with an R, the release that goes with
/// this R is one of those, and the newest of them.
pub proof fn law_newest_release_for_its_r(c: Pairing, major: u64, minor: u64, j: int)
    requires
        is_candidate(c, Some((major, minor)), j),
    ensures
        exists|i: int|
            #![trigger is_candidate(c, Some((major, minor)), i)]
            is_candidate(c, Some((major, minor)), i) && config_release(c, major, minor) == Some(
                c.pairs[i].0,
            ) && !is_older(
                version_key_of(c.pairs[i].0)->0,
                version_key_of(c.pairs[j].0)->0,
            ),
{
    let want = Some((major, minor));
    lemma_newest(c, want);
    let b = newest(c, want)->0;
    let i = choose|i: int| #![trigger is_newest(c, want, i)]
        is_newest(c, want, i) && b == c.pairs[i].0;
    assert(is_newest(c, want, i));
    assert(is_candidate(c, want, i));
    assert(is_candidate(c, want, j));
}

/// A file that pairs nothing leaves the answer to the table.
pub proof fn law_table_is_the_fallback(c: Pairing, r_version: Seq<char>)
    requires
        c.pairs.len() == 0,
    ensures
        release_of(Some(c), r_version) == release_of(None, r_version),
{
}

/// Whether a copy of `config.yaml` of that age is used. An age that is not known is
/// too high.
pub open spec fn is_fresh(age: Option<u64>) -> bool {
    age matches Some(a) && a < BIOC_CONFIG_TTL
}

/// Whether a copy of `config.yaml` of that age, in seconds, is used.
pub fn cache_is_fresh(age: Option<u64>) -> (r: bool)
    ensures
        r == is_fresh(age),
{
    match age {
        Some(a) => a < BIOC_CONFIG_TTL,
        None => false,
    }
}

/// How far loading `config.yaml` has come.
#[derive(Debug, PartialEq, Eq)]
pub enum ConfigState {
    /// The age of the copy is looked up.
    Start,
    /// The copy is read, and it is fresh.
    ReadingFresh,
    /// The file is fetched.
    Fetching,
    /// The file that was fetched is put by.
    Writing(String),
    /// The copy is read, whatever its age.
    ReadingStale,
    Finished,
}

/// What happened.
#[derive(Debug, PartialEq, Eq)]
pub enum ConfigEvent {
    /// The age of the copy in seconds, if it has one.
    Age(Option<u64>),
    /// What the copy holds, if it could be read.
    CacheRead(Option<String>),
    /// What was fetched, if it could be.
    Fetched(Option<String>),
    /// The file was put by, or it was not.
    CacheWritten,
}

/// What to do next.
#[derive(Debug, PartialEq, Eq)]
pub enum ConfigAction {
    ReadCache,
    Fetch,
    /// Put the file by. It does not matter if that fails.
    WriteCache(String),
    Done(Option<BiocConfig>),
}

/// The event is one that the state waits for.
pub open spec fn config_expects(s: ConfigState, e: ConfigEvent) -> bool {
    match s {
        ConfigState::Start => e is Age,
        ConfigState::ReadingFresh => e is CacheRead,
        ConfigState::Fetching => e is Fetched,
        ConfigState::Writing(_) => e is CacheWritten,
        ConfigState::ReadingStale => e is CacheRead,
        ConfigState::Finished => false,
    }
}

/// The action hands out what a file says.
pub open spec fn hands_out(a: ConfigAction, content: Seq<char>) -> bool {
    a matches ConfigAction::Done(Some(c)) && c.deep_view() == config_of(content)
}

/// From one state an event leads to another state and an action. A fresh copy is
/// used. Else the file is fetched and put by. Where it cannot be fetched, a copy of
/// any age is used.
pub open spec fn config_move(
    s: ConfigState,
    e: ConfigEvent,
    t: ConfigState,
    a: ConfigAction,
) -> bool {
    match (s, e) {
        (ConfigState::Start, ConfigEvent::Age(age)) => if is_fresh(age) {
            t == ConfigState::ReadingFresh && a == ConfigAction::ReadCache
        } else {
            t == ConfigState::Fetching && a == ConfigAction::Fetch
        },
        (ConfigState::ReadingFresh, ConfigEvent::CacheRead(read)) => match read {
            Some(content) => t == ConfigState::Finished && hands_out(a, content@),
            None => t == ConfigState::Fetching && a == ConfigAction::Fetch,
        },
        (ConfigState::Fetching, ConfigEvent::Fetched(fetched)) => match fetched {
            Some(content) => {
                &&& t matches ConfigState::Writing(kept)
                &&& kept@ == content@
                &&& a matches ConfigAction::WriteCache(written)
                &&& written@ == content@
            },
            None => t == ConfigState::ReadingStale && a == ConfigAction::ReadCache,
        },
        (ConfigState::Writing(content), ConfigEvent::CacheWritten) => t == ConfigState::Finished
            && hands_out(a, content@),
        (ConfigState::ReadingStale, ConfigEvent::CacheRead(read)) => t == ConfigState::Finished
            && match read {
            Some(content) => hands_out(a, content@),
            None => a == ConfigAction::Done(None),
        },
        _ => false,
    }
}

/// Loads `config.yaml`, from the copy or from Bioconductor. What is to be done is
/// told by [`ConfigLoad::step`], which is told in turn what came of it.
#[derive(Debug, PartialEq, Eq)]
pub struct ConfigLoad {
    pub state: ConfigState,
}

impl ConfigLoad {
    /// Loading has not begun. The age of the copy is the first thing to be told.
    pub fn new() -> (r: Self)
        ensures
            r.state == ConfigState::Start,
    {
        ConfigLoad { state: ConfigState::Start }
    }

    /// Goes on by one step.
    pub fn step(&mut self, event: ConfigEvent) -> (action: ConfigAction)
        requires
            config_expects(old(self).state, event),
        ensures
            config_move(old(self).state, event, final(self).state, action),
    {
        let mut state = ConfigState::Finished;
        std::mem::swap(&mut state, &mut self.state);
        match (state, event) {
            (ConfigState::Start, ConfigEvent::Age(age)) => if cache_is_fresh(age) {
                self.state = ConfigState::ReadingFresh;
                ConfigAction::ReadCache
            } else {
                self.state = ConfigState::Fetching;
                ConfigAction::Fetch
            },
            (ConfigState::ReadingFresh, ConfigEvent::CacheRead(read)) => match read {
                Some(content) => ConfigAction::Done(Some(parse_bioc_config(content.as_str()))),
                None => {
                    self.state = ConfigState::Fetching;
                    ConfigAction::Fetch
                },
            },
            (ConfigState::Fetching, ConfigEvent::Fetched(fetched)) => match fetched {
                Some(content) => {
                    self.state = ConfigState::Writing(content.clone());
                    ConfigAction::WriteCache(content)
                },
                None => {
                    self.state = ConfigState::ReadingStale;
                    ConfigAction::ReadCache
                },
            },
            (ConfigState::Writing(content), _) => ConfigAction::Done(
                Some(parse_bioc_config(content.as_str())),
            ),
            (ConfigState::ReadingStale, ConfigEvent::CacheRead(read)) => match read {
                Some(content) => ConfigAction::Done(Some(parse_bioc_config(content.as_str()))),
                None => ConfigAction::Done(None),
            },
            _ => ConfigAction::Done(None),
        }
    }
}

/// Loading comes to nothing only where the file could not be fetched and there is
/// no copy that can be read.
pub proof fn law_nothing_only_without_any_copy(
    s: ConfigState,
    e: ConfigEvent,
    t: ConfigState,
    a: ConfigAction,
)
    requires
        config_move(s, e, t, a),
        a == ConfigAction::Done(None),
    ensures
        s == ConfigState::ReadingStale,
        e == ConfigEvent::CacheRead(None),
{
}

/// The copy of any age is read only after fetching the file has failed.
pub proof fn law_stale_copy_is_the_last_resort(
    s: ConfigState,
    e: ConfigEvent,
    t: ConfigState,
    a: ConfigAction,
)
    requires
        config_move(s, e, t, a),
        t == ConfigState::ReadingStale,
    ensures
        s == ConfigState::Fetching,
        e == ConfigEvent::Fetched(None),
{
}

/// Where `config.yaml` has an answer it is the answer, and the table is asked only
/// where it has none. Of the version of R the first two parts count.
pub proof fn law_file_goes_before_the_table(
    c: Pairing,
    r_version: Seq<char>,
    major: u64,
    minor: u64,
)
    requires
        strings::split(r_version, '.').len() >= 2,
        strings::parse_unsigned(strings::split(r_version, '.')[0], 10) == Some(major),
        strings::parse_unsigned(strings::split(r_version, '.')[1], 10) == Some(minor),
    ensures
        config_release(c, major, minor) matches Some(b) ==> release_of(Some(c), r_version) == b,
        config_release(c, major, minor) is None ==> release_of(Some(c), r_version)
            == table_release(major, minor),
        release_of(None, r_version) == table_release(major, minor),
{
}

/// A release that is out and that the file pairs with an R is what this R gets, if no
/// newer one that is out is paired with it. The table has no say in it.
pub proof fn law_paired_release_is_never_beaten(
    c: Pairing,
    r_version: Seq<char>,
    major: u64,
    minor: u64,
    j: int,
)
    requires
        strings::split(r_version, '.').len() >= 2,
        strings::parse_unsigned(strings::split(r_version, '.')[0], 10) == Some(major),
        strings::parse_unsigned(strings::split(r_version, '.')[1], 10) == Some(minor),
        0 <= j < c.pairs.len(),
        c.devel != Some(c.pairs[j].0),
        version_key_of(c.pairs[j].0) is Some,
        version_key_of(c.pairs[j].1) == Some((major, minor)),
    ensures
        exists|i: int|
            #![trigger c.pairs[i]]
            0 <= i < c.pairs.len() && release_of(Some(c), r_version) == c.pairs[i].0 && c.devel
                != Some(c.pairs[i].0) && version_key_of(c.pairs[i].1) == Some((major, minor))
                && version_key_of(c.pairs[i].0) is Some && ({
                let a = version_key_of(c.pairs[i].0)->0;
                let b = version_key_of(c.pairs[j].0)->0;
                a.0 > b.0 || (a.0 == b.0 && a.1 >= b.1)
            }),
{
    let want = Some((major, minor));
    assert(is_candidate(c, want, j));
    law_newest_release_for_its_r(c, major, minor, j);
    let i = choose|i: int|
        #![trigger is_candidate(c, Some((major, minor)), i)]
        is_candidate(c, Some((major, minor)), i) && config_release(c, major, minor) == Some(
            c.pairs[i].0,
        ) && !is_older(version_key_of(c.pairs[i].0)->0, version_key_of(c.pairs[j].0)->0);
    assert(is_candidate(c, want, i));
    law_file_goes_before_the_table(c, r_version, major, minor);
    assert(release_of(Some(c), r_version) == c.pairs[i].0);
}

/// Where the file pairs nothing with an R, it has an answer only for an R that is newer
/// than every R it names: the newest release that is out. Otherwise the table is asked.
pub proof fn law_unpaired_r_gets_the_newest_or_the_table(c: Pairing, major: u64, minor: u64, j: int)
    requires
        forall|i: int|
            0 <= i < c.pairs.len() && c.devel != Some((#[trigger] c.pairs[i]).0)
                && version_key_of(c.pairs[i].0) is Some ==> version_key_of(c.pairs[i].1) != Some(
                (major, minor),
            ),
    ensures
        0 <= j < c.pairs.len() && c.devel != Some(c.pairs[j].0) && (version_key_of(
            c.pairs[j].1,
        ) matches Some(r) && !(r.0 < major || (r.0 == major && r.1 < minor))) ==> config_release(
            c,
            major,
            minor,
        ) is None,
        config_release(c, major, minor) matches Some(b) ==> exists|i: int|
            #![trigger c.pairs[i]]
            0 <= i < c.pairs.len() && b == c.pairs[i].0 && c.devel != Some(b) && (version_key_of(
                b,
            ) matches Some(k) && (0 <= j < c.pairs.len() && c.devel != Some(c.pairs[j].0) ==> (
            version_key_of(c.pairs[j].0) matches Some(m) ==> m.0 < k.0 || (m.0 == k.0 && m.1
                <= k.1)))),
{
    let want = Some((major, minor));
    assert forall|i: int| !#[trigger] is_candidate(c, want, i) by {
        if is_candidate(c, want, i) {
            assert(c.devel != Some(c.pairs[i].0));
        }
    }
    lemma_newest(c, want);
    if newest(c, want) is Some {
        let b = newest(c, want)->0;
        let i = choose|i: int| #![trigger is_newest(c, want, i)]
            is_newest(c, want, i) && b == c.pairs[i].0;
        assert(is_candidate(c, want, i));
    }
    lemma_newest(c, None);
    if 0 <= j < c.pairs.len() && c.devel != Some(c.pairs[j].0) && (version_key_of(
        c.pairs[j].1,
    ) matches Some(r) && !(r.0 < major || (r.0 == major && r.1 < minor))) {
        assert(names_r(c, j));
        assert(!is_newer_than_all(c, (major, minor)));
    }
    if let Some(b) = config_release(c, major, minor) {
        let none: Option<(u64, u64)> = None;
        let i = choose|i: int| #![trigger is_newest(c, none, i)]
            is_newest(c, none, i) && b == c.pairs[i].0;
        assert(is_newest(c, none, i));
        assert(is_candidate(c, none, i));
        if 0 <= j < c.pairs.len() && c.devel != Some(c.pairs[j].0) && version_key_of(
            c.pairs[j].0,
        ) is Some {
            assert(is_candidate(c, none, j));
        }
        assert(c.pairs[i].0 == b);
    }
}

/// An R that is newer than every R that the file names, of which it names one, gets an
/// answer from the file where a release that is out can be read.
pub proof fn law_newer_r_is_answered(c: Pairing, major: u64, minor: u64, i: int)
    requires
        0 <= i < c.pairs.len(),
        c.devel != Some(c.pairs[i].0),
        version_key_of(c.pairs[i].0) is Some,
        version_key_of(c.pairs[i].1) is Some,
        forall|j: int|
            0 <= j < c.pairs.len() && c.devel != Some((#[trigger] c.pairs[j]).0) ==> (
            version_key_of(c.pairs[j].1) matches Some(r) ==> r.0 < major || (r.0 == major && r.1
                < minor)),
    ensures
        config_release(c, major, minor) is Some,
{
    assert(names_r(c, i));
    assert forall|j: int| #[trigger] names_r(c, j) implies is_older(
        version_key_of(c.pairs[j].1)->0,
        (major, minor),
    ) by {
        assert(c.devel != Some(c.pairs[j].0));
    }
    let none: Option<(u64, u64)> = None;
    assert(is_candidate(c, none, i));
    assert(newest(c, none) is Some);
}

/// Digits are not white space, nor a dot, a plus sign or a colon.
proof fn lemma_digits_are_plain(n: u64)
    ensures
        ({
            let d = error::decimal_digits(n as nat);
            &&& strings::is_trimmed(d)
            &&& !d.contains('.')
            &&& d.len() > 0
        }),
{
    error::law_decimal_digits_are_read_back(n);
    let d = error::decimal_digits(n as nat);
    assert('0' <= d[0] <= '9');
    assert('0' <= d[d.len() - 1] <= '9');
    if d.contains('.') {
        let i = choose|i: int| 0 <= i < d.len() && d[i] == '.';
        assert('0' <= d[i] <= '9');
    }
}

/// A version `X.Y` reads as its two numbers, whatever follows after another dot and
/// whatever white space is around it. Without a minor number that is zero.
pub proof fn law_version_reads_as_its_numbers(
    before: Seq<char>,
    major: u64,
    minor: u64,
    more: Seq<char>,
    after: Seq<char>,
)
    requires
        strings::all_white(before),
        strings::all_white(after),
        strings::is_trimmed(more),
    ensures
        ({
            let a = error::decimal_digits(major as nat);
            let b = error::decimal_digits(minor as nat);
            let short = a + seq!['.'] + b;
            let long = short + seq!['.'] + more;
            &&& version_key_of(before + a + after) == Some((major, 0u64))
            &&& version_key_of(before + short + after) == Some((major, minor))
            &&& version_key_of(before + long + after) == Some((major, minor))
            &&& release_of(None, short) == table_release(major, minor)
            &&& release_of(None, long) == table_release(major, minor)
        }),
{
    let a = error::decimal_digits(major as nat);
    let b = error::decimal_digits(minor as nat);
    error::law_decimal_digits_are_read_back(major);
    error::law_decimal_digits_are_read_back(minor);
    lemma_digits_are_plain(major);
    lemma_digits_are_plain(minor);
    let short = a + seq!['.'] + b;
    let long = short + seq!['.'] + more;
    strings::law_trim_takes_white_space_away(before, a, after);
    assert(short[0] == a[0] && short.last() == b.last());
    strings::law_trim_takes_white_space_away(before, short, after);
    assert(long[0] == a[0]);
    assert(strings::is_trimmed(long)) by {
        if more.len() > 0 {
            assert(long.last() == more.last());
        } else {
            assert(long.last() == '.');
        }
    }
    strings::law_trim_takes_white_space_away(before, long, after);
    strings::lemma_split_one(a, '.');
    strings::lemma_split_one(b, '.');
    strings::lemma_split_between(a, '.', b);
    strings::lemma_split_between(short, '.', more);
    let pieces = strings::split(short, '.');
    assert(pieces =~= seq![a, b]);
    assert(strings::split(long, '.')[0] == a);
    assert(strings::split(long, '.')[1] == b);
}

/// Of a version without a dot, or whose minor number cannot be read, nothing is known:
/// without a file it gets the newest release of the table.
pub proof fn law_unknown_r_gets_the_newest(r_version: Seq<char>)
    requires
        strings::split(r_version, '.').len() < 2 || strings::parse_unsigned(
            strings::split(r_version, '.')[1],
            10,
        ) is None,
    ensures
        release_of(None, r_version) == "3.23"@,
{
}

/// The table, by the minor number of R 4. For any other R it has the newest release.
pub proof fn law_table(major: u64, minor: u64)
    ensures
        major != 4 || minor >= 6 ==> table_release(major, minor) == "3.23"@,
        table_release(4, 5) == "3.21"@,
        table_release(4, 4) == "3.20"@,
        table_release(4, 3) == "3.18"@,
        table_release(4, 2) == "3.16"@,
        table_release(4, 1) == "3.14"@,
        table_release(4, 0) == "3.12"@,
{
}

/// A copy is used for a week. One of unknown age is not.
pub proof fn law_copy_is_used_for_a_week(age: u64)
    ensures
        is_fresh(Some(age)) == (age < 7 * 24 * 60 * 60),
        !is_fresh(None),
{
}

/// A scalar is read without the quotes and the white space around it.
pub proof fn law_scalar_is_unquoted(
    before: Seq<char>,
    quote: Seq<char>,
    value: Seq<char>,
    after: Seq<char>,
)
    requires
        strings::all_white(before),
        strings::all_white(after),
        quote == seq!['"'] || quote == seq!['\''] || quote.len() == 0,
        strings::is_trimmed(value),
        value.len() > 0,
        value[0] != '"' && value[0] != '\'',
        value.last() != '"' && value.last() != '\'',
    ensures
        unquoted(before + (quote + value + quote) + after) == value,
{
    let m = quote + value + quote;
    assert(strings::is_trimmed(m)) by {
        if quote.len() > 0 {
            assert(m[0] == quote[0] && m.last() == quote[0]);
        } else {
            assert(m =~= value);
        }
    }
    strings::law_trim_takes_white_space_away(before, m, after);
    let set = seq!['"', '\''];
    assert(set[0] == '"' && set[1] == '\'');
    assert(!set.contains(value[0])) by {
        if set.contains(value[0]) {
            let i = choose|i: int| 0 <= i < set.len() && set[i] == value[0];
        }
    }
    assert(!set.contains(value.last())) by {
        if set.contains(value.last()) {
            let i = choose|i: int| 0 <= i < set.len() && set[i] == value.last();
        }
    }
    let tail = value + quote;
    assert(tail[0] == value[0]);
    assert(strings::trim_start_of(tail, set) == tail);
    if quote.len() > 0 {
        assert(set.contains(m[0]));
        assert(m.skip(1) =~= tail);
        assert(strings::trim_start_of(m, set) == tail);
        assert(set.contains(tail.last()));
        assert(tail.drop_last() =~= value);
        assert(strings::trim_end_of(value, set) == value);
        assert(strings::trim_end_of(tail, set) == value);
    } else {
        assert(m =~= value);
        assert(tail =~= value);
    }
    strings::lemma_trim_trimmed(value);
}

/// What a comment sign hides of a line.
proof fn lemma_comment(line: Seq<char>, comment: Seq<char>)
    requires
        !line.contains('#'),
    ensures
        strings::before(line + seq!['#'] + comment, '#') == line,
        strings::before(line, '#') == line,
{
    let s = line + seq!['#'] + comment;
    assert forall|j: int| 0 <= j < line.len() implies line[j] != '#' && s[j] != '#' by {
        assert(line.contains(line[j]));
        assert(s[j] == line[j]);
    }
    strings::lemma_first_at_is(s, '#', line.len() as int);
    strings::lemma_first_at_is(line, '#', line.len() as int);
    assert(s.take(line.len() as int) =~= line);
    assert(line.take(line.len() as int) =~= line);
}

/// A comment at the end of a line of `config.yaml` has no bearing, nor has a line of
/// white space.
pub proof fn law_comments_have_no_bearing(p: ConfigProgress, line: Seq<char>, comment: Seq<char>)
    requires
        !line.contains('#'),
    ensures
        config_line(p, line + seq!['#'] + comment) == config_line(p, line),
        strings::all_white(line) ==> config_line(p, line) == p,
{
    lemma_comment(line, comment);
    if strings::all_white(line) {
        assert(line + Seq::<char>::empty() + Seq::<char>::empty() =~= line);
        strings::law_trim_takes_white_space_away(line, seq![], seq![]);
    }
}

/// An indented line of the mapping is a pair: the release before the colon and the R
/// after it, with or without quotes. Outside of the mapping it is none.
pub proof fn law_pair_is_read(
    p: ConfigProgress,
    indent: char,
    before: Seq<char>,
    quote: Seq<char>,
    bioc: Seq<char>,
    gap: Seq<char>,
    r: Seq<char>,
    after: Seq<char>,
)
    requires
        indent == ' ' || indent == '\t',
        strings::all_white(before),
        strings::all_white(gap),
        strings::all_white(after),
        quote == seq!['"'] || quote == seq!['\''] || quote.len() == 0,
        is_scalar(bioc),
        is_scalar(r),
        !bioc.contains(':'),
    ensures
        ({
            let line = seq![indent] + before + (quote + bioc + quote) + (seq![':'] + gap + (quote
                + r + quote) + after);
            let q = config_line(p, line);
            &&& q.in_map == p.in_map
            &&& q.pairing.devel == p.pairing.devel
            &&& p.in_map ==> q.pairing.pairs == p.pairing.pairs.push((bioc, r))
            &&& !p.in_map ==> q.pairing.pairs == p.pairing.pairs
        }),
{
    let key = quote + bioc + quote;
    let value = quote + r + quote;
    let head = seq![indent] + before + key;
    let tail = gap + value + after;
    let line = head + (seq![':'] + gap + value + after);
    assert(line =~= head + seq![':'] + tail);
    assert(!line.contains('#')) by {
        if line.contains('#') {
            let i = choose|i: int| 0 <= i < line.len() && line[i] == '#';
            let n = 1 + before.len() as int;
            let h = head.len() as int;
            let g = h + 1 + gap.len();
            if i == 0 {
            } else if i < n {
                assert(strings::is_white(before[i - 1]));
            } else if i < h {
                lemma_quoted_holds(quote, bioc, i - n);
            } else if i == h {
            } else if i < g {
                assert(strings::is_white(gap[i - h - 1]));
            } else if i < g + value.len() {
                lemma_quoted_holds(quote, r, i - g);
            } else {
                assert(strings::is_white(after[i - g - value.len()]));
            }
        }
    }
    lemma_comment(line, seq![]);
    assert(line[0] == indent);
    let (a, b) = strings::law_trimmed_text_is_in_the_text(line);
    assert(strings::trim(line).len() > 0) by {
        if strings::trim(line).len() == 0 {
            assert(line =~= a + b);
            let i = head.len() as int;
            assert(line[i] == ':');
            if i < a.len() {
                assert(strings::is_white(a[i]));
            } else {
                assert(strings::is_white(b[i - a.len()]));
            }
        }
    }
    assert forall|j: int| 0 <= j < head.len() implies line[j] != ':' by {
        assert(line[j] == head[j]);
        let n = 1 + before.len() as int;
        if 0 < j < n {
            assert(strings::is_white(before[j - 1]));
        } else if j >= n {
            lemma_quoted_holds(quote, bioc, j - n);
            let at = j - n - quote.len();
            if 0 <= at < bioc.len() {
                assert(bioc.contains(bioc[at]));
            }
        }
    }
    strings::lemma_first_at_is(line, ':', head.len() as int);
    assert(line.take(head.len() as int) =~= head);
    assert(line.skip(head.len() as int + 1) =~= tail);
    let lead = seq![indent] + before;
    assert(strings::all_white(lead));
    assert(head =~= lead + key + Seq::<char>::empty());
    law_scalar_is_unquoted(lead, quote, bioc, Seq::<char>::empty());
    law_scalar_is_unquoted(gap, quote, r, after);
}

/// A value that can stand between quotes.
pub open spec fn is_scalar(v: Seq<char>) -> bool {
    &&& v.len() > 0
    &&& strings::is_trimmed(v)
    &&& v[0] != '"' && v[0] != '\''
    &&& v.last() != '"' && v.last() != '\''
    &&& !v.contains('#')
}

proof fn lemma_quoted_holds(quote: Seq<char>, v: Seq<char>, i: int)
    requires
        quote == seq!['"'] || quote == seq!['\''] || quote.len() == 0,
        is_scalar(v),
        0 <= i < (quote + v + quote).len(),
    ensures
        (quote + v + quote)[i] != '#',
        (quote + v + quote)[i] == ':' ==> quote.len() <= i < quote.len() + v.len(),
        quote.len() <= i < quote.len() + v.len() ==> (quote + v + quote)[i] == v[i - quote.len()],
{
    let m = quote + v + quote;
    if quote.len() <= i < quote.len() + v.len() {
        assert(v.contains(v[i - quote.len()]));
    }
}

/// A line that is not indented ends the mapping, or starts it by its name. One that
/// names the release which is not out yet says so. No such line is a pair.
pub proof fn law_top_level_lines(p: ConfigProgress, line: Seq<char>, quote: Seq<char>, v: Seq<char>)
    requires
        !line.contains('#'),
        line.len() > 0,
        !strings::is_white(line[0]),
        quote == seq!['"'] || quote == seq!['\''] || quote.len() == 0,
        is_scalar(v),
    ensures
        ({
            let q = config_line(p, line);
            &&& q.pairing.pairs == p.pairing.pairs
            &&& q.in_map == strings::starts_with(line, "r_ver_for_bioc_ver:"@)
            &&& !strings::starts_with(line, "devel_version:"@) ==> q.pairing.devel
                == p.pairing.devel
            &&& line == "devel_version:"@ + (seq![' '] + (quote + v + quote) + Seq::<
                char,
            >::empty()) ==> q.pairing.devel == Some(v)
        }),
{
    lemma_comment(line, seq![]);
    let k = strings::lemma_trim_first(line);
    assert(k == 0) by {
        if k > 0 {
            assert(strings::is_white(line[0]));
        }
    }
    assert(!is_indented(line));
    let name = "devel_version:"@;
    let rest = seq![' '] + (quote + v + quote) + Seq::<char>::empty();
    if line == name + rest {
        assert(line.take(name.len() as int) =~= name);
        assert(line.skip(name.len() as int) =~= rest);
        law_scalar_is_unquoted(seq![' '], quote, v, Seq::<char>::empty());
    }
}

/// The lines of `config.yaml` are read one after another, from nothing on.
pub proof fn law_lines_are_read_in_order(lines: Seq<Seq<char>>, line: Seq<char>)
    ensures
        config_lines(lines.push(line)) == config_line(config_lines(lines), line),
        config_lines(Seq::<Seq<char>>::empty()).pairing.pairs.len() == 0,
        config_lines(Seq::<Seq<char>>::empty()).pairing.devel is None,
        !config_lines(Seq::<Seq<char>>::empty()).in_map,
{
    assert(lines.push(line).drop_last() =~= lines);
}

/// Loading goes by the age of the copy: a fresh copy is read and nothing is fetched. An
/// old one, and one of unknown age, is not looked at before the file has been asked
/// for.
pub proof fn law_fresh_copy_is_read_first(age: Option<u64>, t: ConfigState, a: ConfigAction)
    requires
        config_move(ConfigState::Start, ConfigEvent::Age(age), t, a),
    ensures
        (age matches Some(n) && n < 7 * 24 * 60 * 60) ==> a == ConfigAction::ReadCache,
        !(age matches Some(n) && n < 7 * 24 * 60 * 60) ==> a == ConfigAction::Fetch,
{
}

/// What is handed out is what a file says: that of the copy that was read, or that of
/// the file which was fetched, and that is what is put by as well.
pub proof fn law_files_are_handed_out(
    s: ConfigState,
    e: ConfigEvent,
    t: ConfigState,
    a: ConfigAction,
    u: ConfigState,
    b: ConfigAction,
)
    requires
        config_move(s, e, t, a),
    ensures
        (e matches ConfigEvent::CacheRead(Some(content)) ==> (a matches ConfigAction::Done(Some(c))
            && c.deep_view() == config_of(content@))),
        (e matches ConfigEvent::Fetched(Some(content)) ==> {
            &&& a matches ConfigAction::WriteCache(written)
            &&& written@ == content@
            &&& config_move(t, ConfigEvent::CacheWritten, u, b) ==> (b matches ConfigAction::Done(
                Some(c),
            ) && c.deep_view() == config_of(content@))
        }),
        e == ConfigEvent::Fetched(None) ==> a == ConfigAction::ReadCache,
        s == ConfigState::ReadingFresh && e == ConfigEvent::CacheRead(None) ==> a
            == ConfigAction::Fetch,
{
}

/// Of the releases that are out and that the file pairs with an R, this R gets just the
/// one than which no other is newer; of equally new ones it is the last in the file.
pub proof fn law_newest_pair_is_taken(
    c: Pairing,
    r_version: Seq<char>,
    major: u64,
    minor: u64,
    j: int,
)
    requires
        strings::split(r_version, '.').len() >= 2,
        strings::parse_unsigned(strings::split(r_version, '.')[0], 10) == Some(major),
        strings::parse_unsigned(strings::split(r_version, '.')[1], 10) == Some(minor),
        0 <= j < c.pairs.len(),
        c.devel != Some(c.pairs[j].0),
        version_key_of(c.pairs[j].0) is Some,
        version_key_of(c.pairs[j].1) == Some((major, minor)),
        forall|i: int|
            #![trigger c.pairs[i]]
            0 <= i < c.pairs.len() && c.devel != Some(c.pairs[i].0) && version_key_of(
                c.pairs[i].1,
            ) == Some((major, minor)) && version_key_of(c.pairs[i].0) is Some ==> ({
                let a = version_key_of(c.pairs[i].0)->0;
                let b = version_key_of(c.pairs[j].0)->0;
                a.0 < b.0 || (a.0 == b.0 && a.1 < b.1) || (a == b && i <= j)
            }),
    ensures
        release_of(Some(c), r_version) == c.pairs[j].0,
{
    let want = Some((major, minor));
    assert(is_candidate(c, want, j));
    assert forall|i: int| #[trigger] is_candidate(c, want, i) implies ({
        let a = version_key_of(c.pairs[i].0)->0;
        let b = version_key_of(c.pairs[j].0)->0;
        is_older(a, b) || (a == b && i <= j)
    }) by {
        assert(c.devel != Some(c.pairs[i].0));
    }
    assert(is_newest(c, want, j));
    let k = choose|k: int| is_newest(c, want, k);
    lemma_newest_is_one(c, want, j, k);
    law_file_goes_before_the_table(c, r_version, major, minor);
}

/// An R of which no minor number can be read counts as newer than every minor number
/// there is, up to 99, and one without a major number as R 4.
pub proof fn law_missing_numbers_of_r(c: Pairing, r_version: Seq<char>)
    requires
        strings::split(r_version, '.').len() < 2 || strings::parse_unsigned(
            strings::split(r_version, '.')[1],
            10,
        ) is None,
    ensures
        ({
            let major = match strings::parse_unsigned(strings::split(r_version, '.')[0], 10) {
                Some(n) => n,
                None => 4u64,
            };
            release_of(Some(c), r_version) == match config_release(c, major, 99) {
                Some(b) => b,
                None => "3.23"@,
            }
        }),
{
    strings::lemma_split_nonempty(r_version, '.');
}

/// A version that does not begin with a number is none, and neither is one that goes on
/// after the first dot with anything but a number.
pub proof fn law_what_is_no_version(n: u64, piece: Seq<char>, rest: Seq<char>)
    requires
        strings::is_trimmed(piece),
        !piece.contains('.'),
        piece.len() > 0,
        strings::parse_unsigned(piece, 10) is None,
        strings::is_trimmed(rest),
    ensures
        version_key_of(piece) is None,
        version_key_of(piece + seq!['.'] + rest) is None,
        version_key_of(error::decimal_digits(n as nat) + seq!['.'] + piece) is None,
{
    let d = error::decimal_digits(n as nat);
    lemma_digits_are_plain(n);
    assert forall|i: int| 0 <= i < piece.len() implies piece[i] != '.' by {
        assert(piece.contains(piece[i]));
    }
    assert forall|i: int| 0 <= i < d.len() implies d[i] != '.' by {
        assert(d.contains(d[i]));
    }
    strings::lemma_split_one(piece, '.');
    strings::lemma_split_one(d, '.');
    strings::lemma_trim_trimmed(piece);
    let a = piece + seq!['.'] + rest;
    assert(a[0] == piece[0]);
    assert(strings::is_trimmed(a)) by {
        if rest.len() > 0 {
            assert(a.last() == rest.last());
        } else {
            assert(a.last() == '.');
        }
    }
    strings::lemma_trim_trimmed(a);
    strings::lemma_split_between(piece, '.', rest);
    assert(strings::split(a, '.')[0] == piece);
    let b = d + seq!['.'] + piece;
    assert(b[0] == d[0] && b.last() == piece.last());
    strings::lemma_trim_trimmed(b);
    strings::lemma_split_between(d, '.', piece);
    assert(strings::split(b, '.')[1] == piece);
}

/// What is being done and what is waited for go together, in every step of loading.
pub proof fn law_loading_waits_for_what_it_does(
    s: ConfigState,
    e: ConfigEvent,
    t: ConfigState,
    a: ConfigAction,
)
    requires
        config_move(s, e, t, a),
    ensures
        a is Fetch <==> t is Fetching,
        a is ReadCache <==> t is ReadingFresh || t is ReadingStale,
        t is ReadingFresh ==> s is Start,
        a is WriteCache <==> t is Writing,
        a matches ConfigAction::WriteCache(written) ==> (t matches ConfigState::Writing(kept)
            && kept@ == written@),
        a is Done <==> t is Finished,
{
}

/// An indented line of the mapping without a colon, or with nothing on one side of it,
/// is no pair. A name of the release that is not out yet without a value says nothing.
pub proof fn law_incomplete_lines(
    p: ConfigProgress,
    indent: char,
    text: Seq<char>,
    blank: Seq<char>,
)
    requires
        indent == ' ' || indent == '\t',
        !text.contains('#'),
        !text.contains(':'),
        strings::all_white(blank),
    ensures
        config_line(p, seq![indent] + text) == p,
        config_line(p, seq![indent] + text + seq![':'] + blank) == p,
        config_line(p, seq![indent] + blank + seq![':'] + text) == p,
        config_line(p, "devel_version:"@ + blank).pairing == p.pairing,
{
    let lead = seq![indent];
    assert(unquoted(blank).len() == 0) by {
        lemma_blank_is_nothing(blank);
    }
    assert forall|i: int| 0 <= i < text.len() implies text[i] != '#' && text[i] != ':' by {
        assert(text.contains(text[i]));
    }
    assert forall|i: int| 0 <= i < blank.len() implies blank[i] != '#' && blank[i] != ':' by {
        assert(strings::is_white(blank[i]));
    }
    // No colon.
    let x = lead + text;
    strings::lemma_first_at_is(x, '#', x.len() as int);
    assert(x.take(x.len() as int) =~= x);
    strings::lemma_first_at_is(x, ':', x.len() as int);
    assert(x[0] == indent);
    // Nothing after it.
    let y = lead + text + seq![':'] + blank;
    assert forall|i: int| 0 <= i < y.len() implies y[i] != '#' by {
        if 0 < i < x.len() {
            assert(y[i] == text[i - 1]);
        } else if i > x.len() {
            assert(y[i] == blank[i - x.len() - 1]);
        }
    }
    strings::lemma_first_at_is(y, '#', y.len() as int);
    assert(y.take(y.len() as int) =~= y);
    assert forall|i: int| 0 <= i < x.len() implies y[i] != ':' by {
        assert(y[i] == x[i]);
    }
    strings::lemma_first_at_is(y, ':', x.len() as int);
    assert(y.skip(x.len() as int + 1) =~= blank);
    assert(y[0] == indent);
    // Nothing before it.
    let w = lead + blank;
    let z = lead + blank + seq![':'] + text;
    assert(strings::all_white(w));
    lemma_blank_is_nothing(w);
    assert forall|i: int| 0 <= i < z.len() implies z[i] != '#' by {
        if 0 < i < w.len() {
            assert(z[i] == blank[i - 1]);
        } else if i > w.len() {
            assert(z[i] == text[i - w.len() - 1]);
        }
    }
    strings::lemma_first_at_is(z, '#', z.len() as int);
    assert(z.take(z.len() as int) =~= z);
    assert forall|i: int| 0 <= i < w.len() implies z[i] != ':' by {
        if i > 0 {
            assert(z[i] == blank[i - 1]);
        }
    }
    strings::lemma_first_at_is(z, ':', w.len() as int);
    assert(z.take(w.len() as int) =~= w);
    assert(z[0] == indent);
    // No value.
    let name = "devel_version:"@;
    reveal_strlit("devel_version:");
    let d = name + blank;
    assert forall|i: int| 0 <= i < d.len() implies d[i] != '#' by {
        if i >= name.len() {
            assert(d[i] == blank[i - name.len()]);
        }
    }
    strings::lemma_first_at_is(d, '#', d.len() as int);
    assert(d.take(d.len() as int) =~= d);
    assert(d.take(name.len() as int) =~= name);
    assert(d.skip(name.len() as int) =~= blank);
    assert(d[0] == 'd');
}

/// White space is no scalar.
proof fn lemma_blank_is_nothing(blank: Seq<char>)
    requires
        strings::all_white(blank),
    ensures
        unquoted(blank).len() == 0,
{
    assert(blank + Seq::<char>::empty() + Seq::<char>::empty() =~= blank);
    strings::law_trim_takes_white_space_away(blank, seq![], seq![]);
    strings::lemma_trim_trimmed(seq![]);
}

} // verus!
