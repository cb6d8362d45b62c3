//! The catalog of the platforms that Posit builds packages for.
//!
//! The catalog tells for which architectures a repository has builds. That none is
//! built for a platform is an answer too, which no table can give.

use vstd::prelude::*;

use crate::strings;
use crate::text;

verus! {

/// Where the catalog is.
pub const STATUS_URL: &'static str = "https://packagemanager.posit.co/__api__/status";

/// The repository that is not built for one distribution. The catalog lists it as
/// one of CentOS 8, so it is told apart by its name.
pub const PORTABLE: &'static str = "manylinux_2_28";

/// An architecture as the catalog spells it.
pub open spec fn posit_spelling(rust_arch: Seq<char>) -> Seq<char> {
    if rust_arch == "aarch64"@ {
        "arm64"@
    } else {
        rust_arch
    }
}

/// An architecture as the catalog spells it.
pub fn posit_arch(rust_arch: &str) -> (r: &str)
    ensures
        r@ == posit_spelling(rust_arch@),
{
    if text::same_str(rust_arch, "aarch64") {
        "arm64"
    } else {
        rust_arch
    }
}

/// A platform of the catalog.
#[derive(Debug, Clone, PartialEq, Eq)]
pub struct Distro {
    pub name: String,
    pub os: String,
    /// The distribution, such as `redhat`, `rockylinux` or `sle`.
    pub distribution: String,
    /// The release, such as `8`, `15.6` or `22.04`.
    pub release: String,
    /// The repository that its binaries come from.
    pub binary_url: String,
    pub binaries: bool,
    pub sys_reqs: bool,
    /// The architectures that the repository has builds for.
    pub arch: Vec<String>,
}

/// The platform is a Linux with binaries for an architecture.
pub open spec fn is_served(d: Distro, arch: Seq<char>) -> bool {
    &&& d.os@ == "linux"@
    &&& d.binaries
    &&& exists|i: int| 0 <= i < d.arch@.len() && (#[trigger] d.arch@[i])@ == arch
}

/// The platform is the one of a distribution and a release, not the portable one.
pub open spec fn is_platform(d: Distro, distribution: Seq<char>, release: Seq<char>) -> bool {
    &&& d.binary_url@ != PORTABLE@
    &&& d.distribution@ == distribution
    &&& d.release@ == release
}

/// Entry `i` answers for a distribution, a release and an architecture.
pub open spec fn answers_distro(
    distros: Seq<Distro>,
    distribution: Seq<char>,
    release: Seq<char>,
    arch: Seq<char>,
    i: int,
) -> bool {
    0 <= i < distros.len() && is_platform(distros[i], distribution, release) && is_served(
        distros[i],
        arch,
    )
}

/// Entry `i` is the portable one, with builds for an architecture.
pub open spec fn answers_portable(distros: Seq<Distro>, arch: Seq<char>, i: int) -> bool {
    0 <= i < distros.len() && distros[i].binary_url@ == PORTABLE@ && is_served(distros[i], arch)
}

impl Distro {
    /// Whether the platform is a Linux with binaries for an architecture.
    fn serves(&self, arch: &str) -> (r: bool)
        ensures
            r == is_served(*self, arch@),
    {
        if !text::same_str(self.os.as_str(), "linux") || !self.binaries {
            return false;
        }
        let mut i: usize = 0;
        while i < self.arch.len()
            invariant
                i <= self.arch@.len(),
                self.os@ == "linux"@,
                self.binaries,
                forall|j: int| 0 <= j < i ==> (#[trigger] self.arch@[j])@ != arch@,
            decreases self.arch@.len() - i,
        {
            if text::same_str(self.arch[i].as_str(), arch) {
                assert(self.arch@[i as int]@ == arch@);
                return true;
            }
            i += 1;
        }
        false
    }

    /// Whether the platform is the one of a distribution and a release.
    fn is_for(&self, distribution: &str, release: &str) -> (r: bool)
        ensures
            r == is_platform(*self, distribution@, release@),
    {
        !text::same_str(self.binary_url.as_str(), PORTABLE) && text::same_str(
            self.distribution.as_str(),
            distribution,
        ) && text::same_str(self.release.as_str(), release)
    }
}

/// The repository of the first entry that answers for a distribution, a release and an
/// architecture, or none where no entry does.
pub open spec fn is_codename(
    distros: Seq<Distro>,
    distribution: Seq<char>,
    release: Seq<char>,
    arch: Seq<char>,
    r: Option<Seq<char>>,
) -> bool {
    match r {
        Some(c) => exists|i: int|
            #![trigger distros[i]]
            answers_distro(distros, distribution, release, arch, i) && c == distros[i].binary_url@
                && forall|j: int|
                0 <= j < i ==> !#[trigger] answers_distro(distros, distribution, release, arch, j),
        None => forall|i: int|
            !#[trigger] answers_distro(distros, distribution, release, arch, i),
    }
}

/// The repository for a distribution, a release and an architecture: that of the
/// first entry which answers. None is an answer as well: nothing is built there.
pub fn codename_for<'a>(
    distros: &'a [Distro],
    distribution: &str,
    release: &str,
    arch: &str,
) -> (r: Option<&'a str>)
    ensures
        is_codename(
            distros@,
            distribution@,
            release@,
            arch@,
            match r {
                Some(c) => Some(c@),
                None => None,
            },
        ),
{
    let mut i: usize = 0;
    while i < distros.len()
        invariant
            i <= distros@.len(),
            forall|j: int|
                0 <= j < i ==> !#[trigger] answers_distro(
                    distros@,
                    distribution@,
                    release@,
                    arch@,
                    j,
                ),
        decreases distros@.len() - i,
    {
        if distros[i].is_for(distribution, release) && distros[i].serves(arch) {
            assert(answers_distro(distros@, distribution@, release@, arch@, i as int));
            return Some(distros[i].binary_url.as_str());
        }
        i += 1;
    }
    None
}

/// The portable repository where it has builds for an architecture, and else none.
pub open spec fn is_portable(distros: Seq<Distro>, arch: Seq<char>, r: Option<Seq<char>>) -> bool {
    &&& r is Some == exists|i: int| answers_portable(distros, arch, i)
    &&& r matches Some(c) ==> c == PORTABLE@
}

/// The portable repository, if it has builds for an architecture.
pub fn portable_codename<'a>(distros: &'a [Distro], arch: &str) -> (r: Option<&'a str>)
    ensures
        is_portable(
            distros@,
            arch@,
            match r {
                Some(c) => Some(c@),
                None => None,
            },
        ),
{
    let mut i: usize = 0;
    while i < distros.len()
        invariant
            i <= distros@.len(),
            forall|j: int| 0 <= j < i ==> !#[trigger] answers_portable(distros@, arch@, j),
        decreases distros@.len() - i,
    {
        if text::same_str(distros[i].binary_url.as_str(), PORTABLE) && distros[i].serves(arch) {
            assert(answers_portable(distros@, arch@, i as int));
            return Some(distros[i].binary_url.as_str());
        }
        i += 1;
    }
    None
}

/// The catalog lists a distribution and a release, with binaries or without.
pub open spec fn is_listed(
    distros: Seq<Distro>,
    distribution: Seq<char>,
    release: Seq<char>,
) -> bool {
    exists|i: int|
        #![trigger distros[i]]
        0 <= i < distros.len() && is_platform(distros[i], distribution, release)
            && distros[i].os@ == "linux"@
}

/// Whether the catalog lists a distribution and a release. One that it lists without
/// binaries is known: that it has none is the answer.
pub fn is_known(distros: &[Distro], distribution: &str, release: &str) -> (r: bool)
    ensures
        r == is_listed(distros@, distribution@, release@),
{
    let mut i: usize = 0;
    while i < distros.len()
        invariant
            i <= distros@.len(),
            forall|j: int|
                0 <= j < i ==> !(is_platform(#[trigger] distros@[j], distribution@, release@)
                    && distros@[j].os@ == "linux"@),
        decreases distros@.len() - i,
    {
        if distros[i].is_for(distribution, release) && text::same_str(
            distros[i].os.as_str(),
            "linux",
        ) {
            let ghost d = distros@[i as int];
            assert(is_platform(d, distribution@, release@));
            return true;
        }
        i += 1;
    }
    false
}

/// The portable repository never answers for a distribution.
pub proof fn law_portable_never_answers_for_a_distro(
    distros: Seq<Distro>,
    distribution: Seq<char>,
    release: Seq<char>,
    arch: Seq<char>,
    i: int,
)
    requires
        answers_distro(distros, distribution, release, arch, i),
    ensures
        distros[i].binary_url@ != PORTABLE@,
        !answers_portable(distros, arch, i),
{
}

/// A distribution and a release for which a repository is found are known.
pub proof fn law_answered_is_known(
    distros: Seq<Distro>,
    distribution: Seq<char>,
    release: Seq<char>,
    arch: Seq<char>,
    i: int,
)
    requires
        answers_distro(distros, distribution, release, arch, i),
    ensures
        is_listed(distros, distribution, release),
{
    let d = distros[i];
    assert(is_platform(d, distribution, release));
}

/// What became of reading the copy of the catalog.
#[derive(Debug, PartialEq, Eq)]
pub enum CatalogCache {
    Missing,
    Corrupt,
    Read(Vec<Distro>),
}

/// What to do about the copy of the catalog.
#[derive(Debug, PartialEq, Eq)]
pub enum CatalogStep {
    Use(Vec<Distro>),
    /// The catalog is fetched, and a copy that is corrupt is removed before.
    Fetch { remove_cache: bool },
}

/// What is done once the copy was looked for.
pub open spec fn step_after_cache(cache: CatalogCache) -> CatalogStep {
    match cache {
        CatalogCache::Read(d) => CatalogStep::Use(d),
        CatalogCache::Corrupt => CatalogStep::Fetch { remove_cache: true },
        CatalogCache::Missing => CatalogStep::Fetch { remove_cache: false },
    }
}

/// A copy that can be read is used. One that is corrupt costs no more than fetching
/// the catalog anew.
pub fn after_cache(cache: CatalogCache) -> (r: CatalogStep)
    ensures
        r == step_after_cache(cache),
{
    match cache {
        CatalogCache::Read(d) => CatalogStep::Use(d),
        CatalogCache::Corrupt => CatalogStep::Fetch { remove_cache: true },
        CatalogCache::Missing => CatalogStep::Fetch { remove_cache: false },
    }
}

/// The catalog that was fetched, if there is one and it lists a platform.
pub open spec fn usable_catalog(fetched: Option<Vec<Distro>>) -> Option<Vec<Distro>> {
    match fetched {
        Some(d) => if d@.len() > 0 {
            Some(d)
        } else {
            None
        },
        None => None,
    }
}

/// What is made of the catalog that was fetched, if it could be fetched and read: one
/// with platforms is used and put by, and any other is none.
pub fn after_fetch(fetched: Option<Vec<Distro>>) -> (r: Option<Vec<Distro>>)
    ensures
        r == usable_catalog(fetched),
{
    match fetched {
        Some(d) => if d.len() > 0 {
            Some(d)
        } else {
            None
        },
        None => None,
    }
}

/// The name of the copy of a day.
pub open spec fn file_of_day(date: Seq<char>) -> Seq<char> {
    "p3m-status-"@ + date + ".json"@
}

/// The name of the copy of a day, such as `2026-07-31`.
pub fn cache_file(date: &str) -> (r: String)
    ensures
        r@ == file_of_day(date@),
{
    let mut name = "p3m-status-".to_owned();
    name.append(date);
    name.append(".json");
    name
}

/// One of the architectures is `arch`.
pub open spec fn has_arch(all: Seq<String>, arch: Seq<char>) -> bool {
    exists|k: int| 0 <= k < all.len() && (#[trigger] all[k])@ == arch
}

/// A platform of Linux that has binaries for the architecture is found, whatever else
/// the catalog lists, unless it is the portable one. What is found is the repository of
/// such a platform, and of no other that stands after one.
pub proof fn law_platform_with_builds_is_found(
    distros: Seq<Distro>,
    distribution: Seq<char>,
    release: Seq<char>,
    arch: Seq<char>,
    r: Option<Seq<char>>,
    k: int,
)
    requires
        is_codename(distros, distribution, release, arch, r),
    ensures
        ({
            let d = distros[k];
            (0 <= k < distros.len() && d.os@ == "linux"@ && d.binaries && has_arch(d.arch@, arch)
                && d.distribution@ == distribution && d.release@ == release && d.binary_url@
                != "manylinux_2_28"@) ==> {
                &&& r is Some
                &&& r->0 == d.binary_url@ || exists|i: int|
                    #![trigger distros[i]]
                    0 <= i < k && r->0 == distros[i].binary_url@
            }
        }),
        r matches Some(c) ==> exists|i: int|
            #![trigger distros[i]]
            {
                let d = distros[i];
                &&& 0 <= i < distros.len()
                &&& d.os@ == "linux"@
                &&& d.binaries
                &&& has_arch(d.arch@, arch)
                &&& d.distribution@ == distribution
                &&& d.release@ == release
                &&& d.binary_url@ == c
                &&& c != "manylinux_2_28"@
            },
{
    let d = distros[k];
    if 0 <= k < distros.len() && d.os@ == "linux"@ && d.binaries && has_arch(d.arch@, arch)
        && d.distribution@ == distribution && d.release@ == release && d.binary_url@
        != "manylinux_2_28"@ {
        assert(answers_distro(distros, distribution, release, arch, k));
    }
}

/// The portable repository is found where the catalog lists it, for Linux, with
/// binaries for the architecture, under whatever distribution, and nowhere else.
pub proof fn law_portable_is_found(
    distros: Seq<Distro>,
    arch: Seq<char>,
    r: Option<Seq<char>>,
    k: int,
)
    requires
        is_portable(distros, arch, r),
    ensures
        ({
            let d = distros[k];
            (0 <= k < distros.len() && d.os@ == "linux"@ && d.binaries && has_arch(d.arch@, arch)
                && d.binary_url@ == "manylinux_2_28"@) ==> r == Some("manylinux_2_28"@)
        }),
        r matches Some(c) ==> c == "manylinux_2_28"@ && exists|i: int|
            #![trigger distros[i]]
            {
                let d = distros[i];
                &&& 0 <= i < distros.len()
                &&& d.os@ == "linux"@
                &&& d.binaries
                &&& has_arch(d.arch@, arch)
                &&& d.binary_url@ == c
            },
{
    let d = distros[k];
    if 0 <= k < distros.len() && d.os@ == "linux"@ && d.binaries && has_arch(d.arch@, arch)
        && d.binary_url@ == "manylinux_2_28"@ {
        assert(answers_portable(distros, arch, k));
    }
}

/// A platform of Linux is known by its distribution and its release, with binaries or
/// without, for whatever architectures; the portable one makes nothing known.
pub proof fn law_what_is_known(
    distros: Seq<Distro>,
    distribution: Seq<char>,
    release: Seq<char>,
    d: Distro,
)
    ensures
        is_listed(distros.push(d), distribution, release) <==> is_listed(
            distros,
            distribution,
            release,
        ) || (d.os@ == "linux"@ && d.distribution@ == distribution && d.release@ == release
            && d.binary_url@ != "manylinux_2_28"@),
        !is_listed(seq![], distribution, release),
{
    let all = distros.push(d);
    assert(all[distros.len() as int] == d);
    if is_listed(distros, distribution, release) {
        let i = choose|i: int|
            #![trigger distros[i]]
            0 <= i < distros.len() && is_platform(distros[i], distribution, release)
                && distros[i].os@ == "linux"@;
        assert(all[i] == distros[i]);
    }
    if is_listed(all, distribution, release) {
        let i = choose|i: int|
            #![trigger all[i]]
            0 <= i < all.len() && is_platform(all[i], distribution, release) && all[i].os@
                == "linux"@;
        if i < distros.len() {
            assert(all[i] == distros[i]);
        }
    }
}

/// The catalog spells every architecture as it is, but one.
pub proof fn law_spelling(arch: Seq<char>)
    ensures
        posit_spelling("aarch64"@) == "arm64"@,
        arch != "aarch64"@ ==> posit_spelling(arch) == arch,
{
}

/// A copy that can be read is used as it was read, and is neither fetched nor removed;
/// any other is fetched, and only a corrupt one removed. A catalog that was fetched is
/// used as it is, unless it is empty.
pub proof fn law_catalog_is_used_as_it_was_read(cache: CatalogCache, fetched: Option<Vec<Distro>>)
    ensures
        match step_after_cache(cache) {
            CatalogStep::Use(d) => cache == CatalogCache::Read(d),
            CatalogStep::Fetch { remove_cache } => cache !is Read && (remove_cache <==> cache
                is Corrupt),
        },
        match usable_catalog(fetched) {
            Some(d) => fetched == Some(d) && d@.len() > 0,
            None => fetched matches Some(d) ==> d@.len() == 0,
        },
{
}

/// The copies of two days are kept apart.
pub proof fn law_days_are_kept_apart(a: Seq<char>, b: Seq<char>)
    ensures
        file_of_day(a) == file_of_day(b) ==> a == b,
        strings::contains_text(file_of_day(a), a),
        strings::starts_with(file_of_day(a), "p3m-status-"@),
        strings::ends_with(file_of_day(a), ".json"@),
{
    let front = "p3m-status-"@;
    let end = ".json"@;
    let x = file_of_day(a);
    let y = file_of_day(b);
    assert(x.subrange(front.len() as int, x.len() - end.len()) =~= a);
    assert(y.subrange(front.len() as int, y.len() - end.len()) =~= b);
    strings::lemma_contains_middle(front, a, end);
    assert(x.take(front.len() as int) =~= front);
    assert(x.skip(x.len() - end.len()) =~= end);
}

} // verus!
