//! Bioconductor.

use vstd::prelude::*;

use crate::error;
use crate::error::UvrError;
use crate::lockfile::{Origin, PackageSource};
use crate::manifest::copy_of;
use crate::registry::cran;
use crate::registry::cran::{CranPackageEntry, IndexEntry};
use crate::registry::{Package, PackageInfo};
use crate::resolver;
use crate::strings;
use crate::strmap;
use crate::strmap::StrMap;
use crate::text;

pub mod config;
pub mod fetch;

verus! {

broadcast use crate::strmap::group_deep;

/// The packages of an index that come to blocks.
pub open spec fn index_of_blocks(blocks: Seq<Seq<char>>) -> Map<Seq<char>, IndexEntry>
    decreases blocks.len(),
{
    if blocks.len() == 0 {
        Map::empty()
    } else {
        let before = index_of_blocks(blocks.drop_last());
        let block = strings::trim(blocks.last());
        if block.len() == 0 {
            before
        } else {
            match cran::index_entry(block) {
                Some(e) => before.insert(e.name, e),
                None => before,
            }
        }
    }
}

/// The packages of an index by their names. Empty lines part them, and a later one
/// of a name stands.
pub open spec fn index_of(content: Seq<char>) -> Map<Seq<char>, IndexEntry> {
    index_of_blocks(strings::split_text(content, seq!['\n', '\n']))
}

/// Reads an index.
pub fn parse_bioc_text(content: &str) -> (r: StrMap<CranPackageEntry>)
    ensures
        r.deep_view() == index_of(content@),
{
    let cs = text::chars_of(content);
    let gap: Vec<char> = vec!['\n', '\n'];
    assert(gap@ =~= seq!['\n', '\n']);
    let blocks = text::split_text(cs.as_slice(), gap.as_slice());
    let ghost all = text::views(blocks@);
    let mut packages: StrMap<CranPackageEntry> = StrMap::new();
    let mut i: usize = 0;
    assert(all.take(0) =~= seq![]);
    while i < blocks.len()
        invariant
            i <= blocks@.len(),
            all == text::views(blocks@),
            packages.deep_view() == index_of_blocks(all.take(i as int)),
        decreases blocks@.len() - i,
    {
        assert(all.take(i + 1).drop_last() =~= all.take(i as int));
        assert(all.take(i + 1).last() == blocks@[i as int]@);
        let block = text::string_of(text::trim(blocks[i]));
        if !block.as_str().is_empty() {
            if let Some(entry) = cran::parse_dcf_block(block.as_str()) {
                packages.insert(entry.name.clone(), entry);
            }
        }
        i += 1;
    }
    assert(all.take(i as int) =~= all);
    packages
}

/// A package of Bioconductor.
#[derive(Debug, PartialEq, Eq)]
pub struct BiocEntry {
    pub entry: CranPackageEntry,
    /// The path of the repository within Bioconductor, such as `bioc` or
    /// `data/annotation`.
    pub subrepo: &'static str,
}

/// What a [`BiocEntry`] holds.
pub struct BiocPackage {
    pub entry: IndexEntry,
    pub subrepo: Seq<char>,
}

impl DeepView for BiocEntry {
    type V = BiocPackage;

    open spec fn deep_view(&self) -> BiocPackage {
        BiocPackage { entry: self.entry.deep_view(), subrepo: self.subrepo@ }
    }
}

/// The packages of a Bioconductor release.
#[derive(Debug, PartialEq, Eq)]
pub struct BiocRegistry {
    pub packages: StrMap<BiocEntry>,
    pub bioc_release: String,
}

/// The packages with those of an index that are not among them.
pub open spec fn with_missing(
    packages: Map<Seq<char>, BiocPackage>,
    index: Map<Seq<char>, IndexEntry>,
    subrepo: Seq<char>,
) -> Map<Seq<char>, BiocPackage> {
    Map::new(
        |k: Seq<char>| packages.contains_key(k) || index.contains_key(k),
        |k: Seq<char>|
            if packages.contains_key(k) {
                packages[k]
            } else {
                BiocPackage { entry: index[k], subrepo }
            },
    )
}

/// The packages with those of an index, where there is one.
pub open spec fn with_optional(
    packages: Map<Seq<char>, BiocPackage>,
    index: Option<Map<Seq<char>, IndexEntry>>,
    subrepo: Seq<char>,
) -> Map<Seq<char>, BiocPackage> {
    match index {
        Some(m) => with_missing(packages, m, subrepo),
        None => packages,
    }
}

/// The packages of the four indexes of a release. Of a name that is in several, the
/// one in the first of them stands, and software is the first.
pub open spec fn merged(
    software: Map<Seq<char>, IndexEntry>,
    annotation: Option<Map<Seq<char>, IndexEntry>>,
    experiment: Option<Map<Seq<char>, IndexEntry>>,
    workflows: Option<Map<Seq<char>, IndexEntry>>,
) -> Map<Seq<char>, BiocPackage> {
    with_optional(
        with_optional(
            with_optional(
                with_missing(Map::empty(), software, "bioc"@),
                annotation,
                "data/annotation"@,
            ),
            experiment,
            "data/experiment"@,
        ),
        workflows,
        "workflows"@,
    )
}

/// Adds the packages of an index that are not there yet.
fn put_missing(
    packages: &mut StrMap<BiocEntry>,
    index: StrMap<CranPackageEntry>,
    subrepo: &'static str,
)
    ensures
        final(packages).deep_view() == with_missing(
            old(packages).deep_view(),
            index.deep_view(),
            subrepo@,
        ),
{
    let ghost start = packages.deep_view();
    let ghost idx = index.deep_view();
    let entries = index.into_entries();
    let ghost all = entries@;
    for e in it: entries
        invariant
            it.seq() == all,
            strmap::sorted(all),
            idx == strmap::deep(strmap::map_of(all)),
            forall|k: Seq<char>| #[trigger]
                start.contains_key(k) ==> packages.deep_view().contains_key(k)
                    && packages.deep_view()[k] == start[k],
            forall|k: Seq<char>| #[trigger]
                packages.deep_view().contains_key(k) && !start.contains_key(k)
                    ==> idx.contains_key(k) && packages.deep_view()[k] == (BiocPackage {
                    entry: idx[k],
                    subrepo: subrepo@,
                }),
            forall|j: int|
                0 <= j < it.index() ==> packages.deep_view().contains_key(
                    (#[trigger] all[j]).0@,
                ),
    {
        proof {
            strmap::lemma_entry(all, it.index() as int);
        }
        let (name, entry) = e;
        assert(idx.contains_key(name@) && idx[name@] == entry.deep_view());
        if !packages.contains_key(name.as_str()) {
            let ghost before = packages.deep_view();
            let bioc = BiocEntry { entry, subrepo };
            packages.insert(name, bioc);
            assert(packages.deep_view() == before.insert(name@, bioc.deep_view()));
        }
    }
    proof {
        assert forall|k: Seq<char>| #[trigger] idx.contains_key(k) implies packages.deep_view()
            .contains_key(k) by {
            assert(strmap::has_key(all, k));
            let j = choose|j: int| strmap::key_at(all, k, j);
            assert(all[j].0@ == k);
        }
        assert(packages.deep_view() =~= with_missing(start, idx, subrepo@));
    }
}

/// What the constraint on a package comes to.
pub enum Verdict {
    /// The version meets it.
    Met,
    /// It is none, for a reason.
    Unreadable(Seq<char>),
    /// The version does not meet it.
    Missed,
}

/// What a constraint comes to for a version. No constraint, an empty one and `*`
/// are met by every version.
pub open spec fn verdict(
    constraint: Option<Seq<char>>,
    version: resolver::VersionParts,
) -> Verdict {
    match constraint {
        Some(c) => if c == "*"@ || c.len() == 0 {
            Verdict::Met
        } else {
            match resolver::semver_requirement(c) {
                Ok(_) => if resolver::semver_accepts(c, resolver::version_text(version)) == Some(
                    true,
                ) {
                    Verdict::Met
                } else {
                    Verdict::Missed
                },
                Err(m) => Verdict::Unreadable(m),
            }
        },
        None => Verdict::Met,
    }
}

/// What a registry tells of one of its packages.
pub open spec fn resolved(release: Seq<char>, p: BiocPackage) -> Package {
    Package {
        name: p.entry.name,
        version: p.entry.version,
        source: Origin::Bioconductor,
        checksum: if p.entry.md5sum.len() == 0 {
            None
        } else {
            Some("md5:"@ + p.entry.md5sum)
        },
        needs: cran::without_base(p.entry.depends) + cran::without_base(p.entry.imports)
            + cran::without_base(p.entry.linking_to),
        url: "https://bioconductor.org/packages/"@ + release + "/"@ + p.subrepo
            + "/src/contrib/"@ + p.entry.name + "_"@ + p.entry.raw_version + ".tar.gz"@,
        raw_version: Some(p.entry.raw_version),
        system_requirements: p.entry.system_requirements,
    }
}

/// What checking the constraint on a package came to.
#[derive(Debug, PartialEq, Eq)]
pub enum Check {
    Met,
    Unreadable(String),
    Missed,
}

impl DeepView for Check {
    type V = Verdict;

    open spec fn deep_view(&self) -> Verdict {
        match self {
            Check::Met => Verdict::Met,
            Check::Unreadable(m) => Verdict::Unreadable(m@),
            Check::Missed => Verdict::Missed,
        }
    }
}

/// Checks a constraint against a version.
pub fn check_constraint(constraint: Option<&str>, version: &resolver::Version) -> (r: Check)
    ensures
        r.deep_view() == verdict(constraint.deep_view(), version.deep_view()),
{
    match constraint {
        Some(c) => {
            if text::same_str(c, "*") || c.is_empty() {
                return Check::Met;
            }
            match resolver::parse_version_req(c) {
                Ok(req) => if resolver::version_matches_req(version, &req) {
                    Check::Met
                } else {
                    Check::Missed
                },
                Err(UvrError::Semver(m)) => Check::Unreadable(m),
                Err(e) => Check::Unreadable(e.message()),
            }
        },
        None => Check::Met,
    }
}

/// What a registry tells of a package whose constraint is met.
pub fn resolve_entry(release: &str, bioc: &BiocEntry) -> (r: PackageInfo)
    ensures
        r.deep_view() == resolved(release@, bioc.deep_view()),
{
    let entry = &bioc.entry;
    let mut url = "https://bioconductor.org/packages/".to_owned();
    url.append(release);
    url.append("/");
    url.append(bioc.subrepo);
    url.append("/src/contrib/");
    url.append(entry.name.as_str());
    url.append("_");
    url.append(entry.raw_version.as_str());
    url.append(".tar.gz");
    let checksum = if entry.md5sum.as_str().is_empty() {
        None
    } else {
        let mut c = "md5:".to_owned();
        c.append(entry.md5sum.as_str());
        Some(c)
    };
    PackageInfo {
        name: entry.name.clone(),
        version: entry.version.clone(),
        source: PackageSource::Bioconductor,
        checksum,
        requires: entry.requires_as_deps(),
        url,
        raw_version: Some(entry.raw_version.clone()),
        system_requirements: copy_of(&entry.system_requirements),
    }
}

/// What a registry answers of a package, from what checking the constraint on it
/// came to.
pub open spec fn is_answer(
    name: Seq<char>,
    constraint: Option<Seq<char>>,
    release: Seq<char>,
    p: BiocPackage,
    checked: Verdict,
    r: Result<PackageInfo, UvrError>,
) -> bool {
    match checked {
        Verdict::Met => r matches Ok(info) && info.deep_view() == resolved(release, p),
        Verdict::Unreadable(m) => r matches Err(UvrError::Semver(t)) && t@ == m,
        Verdict::Missed => r matches Err(UvrError::NoMatchingVersion { package, constraint: c })
            && package@ == name && c@ == (match constraint {
            Some(t) => t,
            None => ""@,
        }),
    }
}

/// What the four indexes of a release come to.
pub open spec fn is_registry(
    release: Seq<char>,
    software: Result<StrMap<CranPackageEntry>, UvrError>,
    annotation: Option<Map<Seq<char>, IndexEntry>>,
    experiment: Option<Map<Seq<char>, IndexEntry>>,
    workflows: Option<Map<Seq<char>, IndexEntry>>,
    r: Result<BiocRegistry, UvrError>,
) -> bool {
    match software {
        Ok(m) => r matches Ok(b) && b.bioc_release@ == release && b.packages.deep_view() == merged(
            m.deep_view(),
            annotation,
            experiment,
            workflows,
        ),
        Err(e) => r matches Err(UvrError::Other(m)) && m@ == "Failed to fetch Bioconductor "@
            + release + " software index: "@ + error::message_of(e),
    }
}

/// What a registry answers of a name.
pub open spec fn is_resolution(
    packages: Map<Seq<char>, BiocPackage>,
    release: Seq<char>,
    name: Seq<char>,
    constraint: Option<Seq<char>>,
    r: Result<PackageInfo, UvrError>,
) -> bool {
    if packages.contains_key(name) {
        let p = packages[name];
        is_answer(name, constraint, release, p, verdict(constraint, p.entry.version), r)
    } else {
        r matches Err(UvrError::PackageNotFound(n)) && n@ == name
    }
}

impl BiocRegistry {
    /// The registry of a release from what fetching its four indexes came to. The one
    /// of software has to be there; each of the others is left out where it could not
    /// be fetched.
    pub fn from_indexes(
        bioc_release: &str,
        software: Result<StrMap<CranPackageEntry>, UvrError>,
        annotation: Option<StrMap<CranPackageEntry>>,
        experiment: Option<StrMap<CranPackageEntry>>,
        workflows: Option<StrMap<CranPackageEntry>>,
    ) -> (r: Result<BiocRegistry, UvrError>)
        ensures
            is_registry(
                bioc_release@,
                software,
                annotation.deep_view(),
                experiment.deep_view(),
                workflows.deep_view(),
                r,
            ),
    {
        let software = match software {
            Ok(m) => m,
            Err(e) => {
                let mut m = "Failed to fetch Bioconductor ".to_owned();
                m.append(bioc_release);
                m.append(" software index: ");
                m.append(e.message().as_str());
                return Err(UvrError::Other(m));
            },
        };
        let mut packages: StrMap<BiocEntry> = StrMap::new();
        put_missing(&mut packages, software, "bioc");
        if let Some(m) = annotation {
            put_missing(&mut packages, m, "data/annotation");
        }
        if let Some(m) = experiment {
            put_missing(&mut packages, m, "data/experiment");
        }
        if let Some(m) = workflows {
            put_missing(&mut packages, m, "workflows");
        }
        Ok(BiocRegistry { packages, bioc_release: bioc_release.to_owned() })
    }

    /// The release, such as `3.18`.
    pub fn release(&self) -> (r: &str)
        ensures
            r@ == self.bioc_release@,
    {
        self.bioc_release.as_str()
    }

    /// Whether the release has a package of that name.
    pub fn contains(&self, name: &str) -> (r: bool)
        ensures
            r == self.packages@.contains_key(name@),
    {
        self.packages.contains_key(name)
    }

    /// The answer about a package, from what checking the constraint on it came to.
    pub fn answer(
        &self,
        name: &str,
        constraint: Option<&str>,
        bioc: &BiocEntry,
        checked: Check,
    ) -> (r: Result<PackageInfo, UvrError>)
        ensures
            is_answer(
                name@,
                constraint.deep_view(),
                self.bioc_release@,
                bioc.deep_view(),
                checked.deep_view(),
                r,
            ),
    {
        match checked {
            Check::Met => Ok(resolve_entry(self.bioc_release.as_str(), bioc)),
            Check::Unreadable(m) => Err(UvrError::Semver(m)),
            Check::Missed => Err(
                UvrError::NoMatchingVersion {
                    package: name.to_owned(),
                    constraint: match constraint {
                        Some(c) => c.to_owned(),
                        None => "".to_owned(),
                    },
                },
            ),
        }
    }

    /// The package of that name, if its version meets the constraint.
    pub fn resolve_package(&self, name: &str, constraint: Option<&str>) -> (r: Result<
        PackageInfo,
        UvrError,
    >)
        ensures
            is_resolution(
                self.packages.deep_view(),
                self.bioc_release@,
                name@,
                constraint.deep_view(),
                r,
            ),
    {
        match self.packages.get(name) {
            Some(bioc) => {
                let checked = check_constraint(constraint, &bioc.entry.version);
                self.answer(name, constraint, bioc, checked)
            },
            None => Err(UvrError::PackageNotFound(name.to_owned())),
        }
    }
}

/// A package of software stands, whatever the other indexes hold.
pub proof fn law_software_wins(
    software: Map<Seq<char>, IndexEntry>,
    annotation: Option<Map<Seq<char>, IndexEntry>>,
    experiment: Option<Map<Seq<char>, IndexEntry>>,
    workflows: Option<Map<Seq<char>, IndexEntry>>,
    name: Seq<char>,
)
    requires
        software.contains_key(name),
    ensures
        ({
            let m = merged(software, annotation, experiment, workflows);
            &&& m.contains_key(name)
            &&& m[name] == (BiocPackage { entry: software[name], subrepo: "bioc"@ })
        }),
{
}

/// A registry has a package if and only if one of the indexes that were fetched has
/// it.
pub proof fn law_no_package_is_lost(
    software: Map<Seq<char>, IndexEntry>,
    annotation: Option<Map<Seq<char>, IndexEntry>>,
    experiment: Option<Map<Seq<char>, IndexEntry>>,
    workflows: Option<Map<Seq<char>, IndexEntry>>,
    name: Seq<char>,
)
    ensures
        merged(software, annotation, experiment, workflows).contains_key(name) == {
            ||| software.contains_key(name)
            ||| annotation matches Some(m) && m.contains_key(name)
            ||| experiment matches Some(m) && m.contains_key(name)
            ||| workflows matches Some(m) && m.contains_key(name)
        },
{
}

/// An index holds a package.
pub open spec fn holds(index: Option<Map<Seq<char>, IndexEntry>>, name: Seq<char>) -> bool {
    index matches Some(m) && m.contains_key(name)
}

/// A package is found in the repository whose index it came from, and can be had from
/// there: of software, annotation data, experiment data and workflows the first that
/// holds it.
pub proof fn law_package_is_found_where_it_is(
    software: Map<Seq<char>, IndexEntry>,
    annotation: Option<Map<Seq<char>, IndexEntry>>,
    experiment: Option<Map<Seq<char>, IndexEntry>>,
    workflows: Option<Map<Seq<char>, IndexEntry>>,
    name: Seq<char>,
    release: Seq<char>,
)
    ensures
        ({
            let m = merged(software, annotation, experiment, workflows);
            let at = |repository: Seq<char>, e: IndexEntry|
                m.contains_key(name) && m[name].entry == e && resolved(release, m[name]).url
                    == "https://bioconductor.org/packages/"@ + release + repository + e.name
                    + seq!['_'] + e.raw_version + ".tar.gz"@;
            &&& software.contains_key(name) ==> at("/bioc/src/contrib/"@, software[name])
            &&& !software.contains_key(name) && holds(annotation, name) ==> at(
                "/data/annotation/src/contrib/"@,
                annotation->0[name],
            )
            &&& !software.contains_key(name) && !holds(annotation, name) && holds(experiment, name)
                ==> at("/data/experiment/src/contrib/"@, experiment->0[name])
            &&& !software.contains_key(name) && !holds(annotation, name) && !holds(
                experiment,
                name,
            ) && holds(workflows, name) ==> at("/workflows/src/contrib/"@, workflows->0[name])
        }),
{
    reveal_strlit("/");
    reveal_strlit("_");
    reveal_strlit("bioc");
    reveal_strlit("data/annotation");
    reveal_strlit("data/experiment");
    reveal_strlit("workflows");
    reveal_strlit("/src/contrib/");
    reveal_strlit("/bioc/src/contrib/");
    reveal_strlit("/data/annotation/src/contrib/");
    reveal_strlit("/data/experiment/src/contrib/");
    reveal_strlit("/workflows/src/contrib/");
    let m = merged(software, annotation, experiment, workflows);
    if m.contains_key(name) {
        let e = m[name].entry;
        let start = "https://bioconductor.org/packages/"@ + release;
        let end = e.name + seq!['_'] + e.raw_version + ".tar.gz"@;
        let url = resolved(release, m[name]).url;
        assert(url =~= start + ("/"@ + m[name].subrepo + "/src/contrib/"@) + end);
        assert("/"@ + "bioc"@ + "/src/contrib/"@ =~= "/bioc/src/contrib/"@);
        assert("/"@ + "data/annotation"@ + "/src/contrib/"@ =~= "/data/annotation/src/contrib/"@);
        assert("/"@ + "data/experiment"@ + "/src/contrib/"@ =~= "/data/experiment/src/contrib/"@);
        assert("/"@ + "workflows"@ + "/src/contrib/"@ =~= "/workflows/src/contrib/"@);
        let whole = |repository: Seq<char>|
            "https://bioconductor.org/packages/"@ + release + repository + e.name + seq!['_']
                + e.raw_version + ".tar.gz"@;
        assert(start + "/bioc/src/contrib/"@ + end =~= whole("/bioc/src/contrib/"@));
        assert(start + "/data/annotation/src/contrib/"@ + end =~= whole(
            "/data/annotation/src/contrib/"@,
        ));
        assert(start + "/data/experiment/src/contrib/"@ + end =~= whole(
            "/data/experiment/src/contrib/"@,
        ));
        assert(start + "/workflows/src/contrib/"@ + end =~= whole("/workflows/src/contrib/"@));
    }
}

/// What a registry tells of a package is what its index says: the version in both
/// forms, the checksum where there is one, the system requirements, and every package
/// that it depends on, imports or links to and that does not come with R.
pub proof fn law_answer_is_of_the_index(release: Seq<char>, p: BiocPackage, n: cran::FieldNeed)
    ensures
        ({
            let r = resolved(release, p);
            let told = |field: Seq<cran::FieldNeed>|
                field.contains(n) && !resolver::is_base(n.name) ==> r.needs.contains(
                    cran::as_need(n),
                );
            &&& r.name == p.entry.name
            &&& r.version == p.entry.version
            &&& r.raw_version == Some(p.entry.raw_version)
            &&& r.system_requirements == p.entry.system_requirements
            &&& r.source == Origin::Bioconductor
            &&& p.entry.md5sum.len() == 0 ==> r.checksum is None
            &&& p.entry.md5sum.len() > 0 ==> r.checksum == Some(
                seq!['m', 'd', '5', ':'] + p.entry.md5sum,
            )
            &&& told(p.entry.depends)
            &&& told(p.entry.imports)
            &&& told(p.entry.linking_to)
            &&& forall|i: int|
                0 <= i < r.needs.len() ==> !resolver::is_base((#[trigger] r.needs[i]).name)
        }),
{
    reveal_strlit("md5:");
    assert("md5:"@ =~= seq!['m', 'd', '5', ':']);
    let a = cran::without_base(p.entry.depends);
    let b = cran::without_base(p.entry.imports);
    let c = cran::without_base(p.entry.linking_to);
    let all = a + b + c;
    lemma_kept(p.entry.depends, n);
    lemma_kept(p.entry.imports, n);
    lemma_kept(p.entry.linking_to, n);
    let x = cran::as_need(n);
    if a.contains(x) {
        let i = choose|i: int| 0 <= i < a.len() && a[i] == x;
        assert(all[i] == x);
    }
    if b.contains(x) {
        let i = choose|i: int| 0 <= i < b.len() && b[i] == x;
        assert(all[a.len() + i] == x);
    }
    if c.contains(x) {
        let i = choose|i: int| 0 <= i < c.len() && c[i] == x;
        assert(all[a.len() + b.len() + i] == x);
    }
    assert forall|i: int| 0 <= i < all.len() implies !resolver::is_base(
        (#[trigger] all[i]).name,
    ) by {
        if i < a.len() {
            assert(all[i] == a[i]);
        } else if i < a.len() + b.len() {
            assert(all[i] == b[i - a.len()]);
        } else {
            assert(all[i] == c[i - a.len() - b.len()]);
        }
    }
}

/// What does not come with R is kept, and nothing else.
proof fn lemma_kept(field: Seq<cran::FieldNeed>, n: cran::FieldNeed)
    ensures
        field.contains(n) && !resolver::is_base(n.name) ==> cran::without_base(field).contains(
            cran::as_need(n),
        ),
        forall|i: int|
            0 <= i < cran::without_base(field).len() ==> !resolver::is_base(
                (#[trigger] cran::without_base(field)[i]).name,
            ),
    decreases field.len(),
{
    if field.len() > 0 {
        let p = field.drop_last();
        lemma_kept(p, n);
        let all = cran::without_base(field);
        let before = cran::without_base(p);
        if field.contains(n) && !resolver::is_base(n.name) {
            let i = choose|i: int| 0 <= i < field.len() && field[i] == n;
            if i < p.len() {
                assert(p[i] == n);
                let j = choose|j: int| 0 <= j < before.len() && before[j] == cran::as_need(n);
                assert(all[j] == cran::as_need(n));
            } else {
                assert(all[before.len() as int] == cran::as_need(n));
            }
        }
        assert forall|i: int| 0 <= i < all.len() implies !resolver::is_base(
            (#[trigger] all[i]).name,
        ) by {
            if i < before.len() {
                assert(all[i] == before[i]);
            }
        }
    }
}

/// No constraint, an empty one and `*` are met by every version. Any other is met by
/// exactly the versions that it accepts, if it is one.
pub proof fn law_constraint_decides(c: Seq<char>, version: resolver::VersionParts)
    ensures
        verdict(None, version) is Met,
        verdict(Some(Seq::<char>::empty()), version) is Met,
        verdict(Some(seq!['*']), version) is Met,
        c.len() > 0 && c != seq!['*'] ==> match resolver::semver_requirement(c) {
            Ok(_) => {
                &&& resolver::semver_accepts(c, resolver::version_text(version)) == Some(true)
                    ==> verdict(Some(c), version) is Met
                &&& resolver::semver_accepts(c, resolver::version_text(version)) != Some(true)
                    ==> verdict(Some(c), version) is Missed
            },
            Err(m) => verdict(Some(c), version) == Verdict::Unreadable(m),
        },
{
    reveal_strlit("*");
    assert("*"@ =~= seq!['*']);
}

/// A constraint that is met is answered with the package, one that is missed with the
/// package and the constraint, and one that is none with the reason.
pub proof fn law_answers(
    name: Seq<char>,
    constraint: Seq<char>,
    release: Seq<char>,
    p: BiocPackage,
    checked: Verdict,
    r: Result<PackageInfo, UvrError>,
)
    requires
        is_answer(name, Some(constraint), release, p, checked, r),
    ensures
        r is Ok == checked is Met,
        checked is Missed ==> (r matches Err(UvrError::NoMatchingVersion { package, constraint: c })
            && package@ == name && c@ == constraint),
        (checked matches Verdict::Unreadable(m) ==> (r matches Err(UvrError::Semver(t)) && t@ == m)),
        (r matches Ok(info) ==> info.deep_view() == resolved(release, p)),
{
}

/// An empty line parts the packages of an index. They are read on their own, and of two
/// of one name the later one stands.
pub proof fn law_blocks_are_read_apart(block: Seq<char>, rest: Seq<char>, name: Seq<char>)
    requires
        !strings::contains_text(block, seq!['\n', '\n']),
        block.len() > 0 ==> block.last() != '\n',
    ensures
        ({
            let all = index_of(block + seq!['\n', '\n'] + rest);
            let later = index_of(rest);
            let trimmed = strings::trim(block);
            let first = if trimmed.len() > 0 {
                cran::index_entry(trimmed)
            } else {
                None
            };
            &&& later.contains_key(name) ==> all.contains_pair(name, later[name])
            &&& !later.contains_key(name) ==> (all.contains_key(name) == (first matches Some(e)
                && e.name == name))
            &&& !later.contains_key(name) && all.contains_key(name) ==> Some(all[name]) == first
        }),
{
    let gap = seq!['\n', '\n'];
    let s = block + gap + rest;
    assert forall|i: int| 0 <= i < block.len() implies !#[trigger] strings::occurs_at(
        s,
        gap,
        i,
    ) by {
        if strings::occurs_at(s, gap, i) {
            let w = s.subrange(i, i + 2);
            assert(w[0] == s[i] && w[1] == s[i + 1]);
            assert(gap[0] == '\n' && gap[1] == '\n');
            if i + 1 < block.len() {
                assert(block.subrange(i, i + 2) =~= gap);
                assert(strings::occurs_at(block, gap, i));
            } else {
                assert(block.last() == s[i]);
            }
        }
    }
    strings::law_split_text_parts(block, gap, rest);
    let one = seq![block];
    let more = strings::split_text(rest, gap);
    lemma_blocks_both(one, more, name);
    reveal_with_fuel(index_of_blocks, 2);
    assert(one.drop_last() =~= seq![]);
}

proof fn lemma_blocks_both(a: Seq<Seq<char>>, b: Seq<Seq<char>>, name: Seq<char>)
    ensures
        ({
            let all = index_of_blocks(a + b);
            let later = index_of_blocks(b);
            let first = index_of_blocks(a);
            &&& later.contains_key(name) ==> all.contains_pair(name, later[name])
            &&& !later.contains_key(name) ==> (all.contains_key(name) == first.contains_key(name))
            &&& !later.contains_key(name) && first.contains_key(name) ==> all[name] == first[name]
        }),
    decreases b.len(),
{
    let both = a + b;
    if b.len() == 0 {
        assert(both =~= a);
    } else {
        lemma_blocks_both(a, b.drop_last(), name);
        assert(both.drop_last() =~= a + b.drop_last());
        assert(both.last() == b.last());
    }
}

/// There is a registry where there is an index of software, and it is of the release that
/// was asked for. It has the packages of every index that was fetched, each from its own
/// repository. Without software the error tells the release and why.
pub proof fn law_registry_has_what_was_fetched(
    release: Seq<char>,
    software: Result<StrMap<CranPackageEntry>, UvrError>,
    annotation: Option<Map<Seq<char>, IndexEntry>>,
    experiment: Option<Map<Seq<char>, IndexEntry>>,
    workflows: Option<Map<Seq<char>, IndexEntry>>,
    r: Result<BiocRegistry, UvrError>,
    name: Seq<char>,
)
    requires
        is_registry(release, software, annotation, experiment, workflows, r),
    ensures
        match software {
            Ok(m) => {
                let first = m.deep_view();
                &&& r matches Ok(b)
                &&& b.bioc_release@ == release
                &&& ({
                    let all = b.packages.deep_view();
                    &&& all.contains_key(name) <==> first.contains_key(name) || holds(
                        annotation,
                        name,
                    ) || holds(experiment, name) || holds(workflows, name)
                    &&& first.contains_key(name) ==> all[name].subrepo == "bioc"@
                        && all[name].entry == first[name]
                    &&& !first.contains_key(name) && holds(annotation, name) ==> all[name].subrepo
                        == "data/annotation"@ && all[name].entry == annotation->0[name]
                    &&& !first.contains_key(name) && !holds(annotation, name) && holds(
                        experiment,
                        name,
                    ) ==> all[name].subrepo == "data/experiment"@ && all[name].entry
                        == experiment->0[name]
                    &&& !first.contains_key(name) && !holds(annotation, name) && !holds(
                        experiment,
                        name,
                    ) && holds(workflows, name) ==> all[name].subrepo == "workflows"@
                        && all[name].entry == workflows->0[name]
                })
            },
            Err(e) => {
                &&& r matches Err(UvrError::Other(m))
                &&& strings::contains_text(m@, release)
                &&& strings::ends_with(m@, error::message_of(e))
            },
        },
{
    if let Err(e) = software {
        if let Err(UvrError::Other(m)) = r {
            let front = "Failed to fetch Bioconductor "@;
            let mid = " software index: "@;
            let why = error::message_of(e);
            strings::lemma_contains_middle(front, release, mid + why);
            assert(m@ =~= front + release + (mid + why));
            assert(m@.skip(m@.len() - why.len()) =~= why);
        }
    }
}

/// A name that the registry does not have is told as not found. One that it has is
/// answered by what the registry has of it, where its own version meets the constraint,
/// and where there is no constraint in any case.
pub proof fn law_resolution(
    packages: Map<Seq<char>, BiocPackage>,
    release: Seq<char>,
    name: Seq<char>,
    constraint: Option<Seq<char>>,
    r: Result<PackageInfo, UvrError>,
)
    requires
        is_resolution(packages, release, name, constraint, r),
    ensures
        !packages.contains_key(name) ==> (r matches Err(UvrError::PackageNotFound(n)) && n@
            == name),
        (r matches Err(UvrError::PackageNotFound(_))) ==> !packages.contains_key(name),
        packages.contains_key(name) && constraint is None ==> r is Ok,
        r matches Ok(info) ==> packages.contains_key(name) && info.deep_view() == resolved(
            release,
            packages[name],
        ) && verdict(constraint, packages[name].entry.version) is Met,
        packages.contains_key(name) && verdict(constraint, packages[name].entry.version) is Met
            ==> r is Ok,
{
}

} // verus!
