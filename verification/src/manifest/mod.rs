//! The project manifest, `uvr.toml`.

use vstd::prelude::*;

use crate::strmap::StrMap;

pub mod description;
pub mod keys;
pub mod remotes;

verus! {

broadcast use crate::strmap::group_deep;

/// The whole of `uvr.toml`.
#[derive(Debug, Clone, PartialEq, Eq)]
pub struct Manifest {
    pub project: ProjectMeta,
    pub dependencies: StrMap<DependencySpec>,
    pub dev_dependencies: StrMap<DependencySpec>,
    pub sources: Vec<PackageSource>,
}

/// The `[project]` table.
#[derive(Debug, Clone, PartialEq, Eq)]
pub struct ProjectMeta {
    pub name: String,
    /// A requirement on the version of R, such as `>=4.0.0`.
    pub r_version: Option<String>,
    /// A Bioconductor release, such as `3.18`. Where there is none it follows
    /// from the version of R.
    pub bioc_version: Option<String>,
    pub description: Option<String>,
}

/// Either a bare version requirement (`>=3.0.0`, `*`) or a table.
#[derive(Debug, PartialEq, Eq)]
pub enum DependencySpec {
    Version(String),
    Detailed(DetailedDep),
}

/// A dependency that is written as a table.
#[derive(Debug, PartialEq, Eq)]
pub struct DetailedDep {
    pub version: Option<String>,
    /// A package of Bioconductor.
    pub bioc: Option<bool>,
    /// The repository that the package comes from.
    pub git: Option<String>,
    /// A branch, a tag or a commit.
    pub rev: Option<String>,
}

/// A repository of packages with a name.
#[derive(Debug, Clone, PartialEq, Eq)]
pub struct PackageSource {
    pub name: String,
    pub url: String,
}

/// What a [`DetailedDep`] holds.
pub struct Detail {
    pub version: Option<Seq<char>>,
    pub bioc: Option<bool>,
    pub git: Option<Seq<char>>,
    pub rev: Option<Seq<char>>,
}

/// What a [`DependencySpec`] holds.
pub enum Dependency {
    Version(Seq<char>),
    Detailed(Detail),
}

/// What a [`Manifest`] holds.
#[verifier::ext_equal]
pub struct Project {
    pub name: Seq<char>,
    pub r_version: Option<Seq<char>>,
    pub bioc_version: Option<Seq<char>>,
    pub description: Option<Seq<char>>,
    pub dependencies: Map<Seq<char>, Dependency>,
    pub dev_dependencies: Map<Seq<char>, Dependency>,
    pub sources: Seq<(Seq<char>, Seq<char>)>,
}

impl DeepView for DetailedDep {
    type V = Detail;

    open spec fn deep_view(&self) -> Detail {
        Detail {
            version: self.version.deep_view(),
            bioc: self.bioc,
            git: self.git.deep_view(),
            rev: self.rev.deep_view(),
        }
    }
}

impl DeepView for DependencySpec {
    type V = Dependency;

    open spec fn deep_view(&self) -> Dependency {
        match self {
            DependencySpec::Version(v) => Dependency::Version(v@),
            DependencySpec::Detailed(d) => Dependency::Detailed(d.deep_view()),
        }
    }
}

impl DeepView for PackageSource {
    type V = (Seq<char>, Seq<char>);

    open spec fn deep_view(&self) -> (Seq<char>, Seq<char>) {
        (self.name@, self.url@)
    }
}

impl DeepView for Manifest {
    type V = Project;

    open spec fn deep_view(&self) -> Project {
        Project {
            name: self.project.name@,
            r_version: self.project.r_version.deep_view(),
            bioc_version: self.project.bioc_version.deep_view(),
            description: self.project.description.deep_view(),
            dependencies: self.dependencies.deep_view(),
            dev_dependencies: self.dev_dependencies.deep_view(),
            sources: self.sources.deep_view(),
        }
    }
}

/// A copy of a string that may be missing.
pub fn copy_of(s: &Option<String>) -> (r: Option<String>)
    ensures
        r.deep_view() == s.deep_view(),
{
    match s {
        Some(t) => Some(t.clone()),
        None => None,
    }
}

impl Clone for DetailedDep {
    fn clone(&self) -> (r: Self)
        ensures
            r.deep_view() == self.deep_view(),
    {
        DetailedDep {
            version: copy_of(&self.version),
            bioc: self.bioc,
            git: copy_of(&self.git),
            rev: copy_of(&self.rev),
        }
    }
}

impl Clone for DependencySpec {
    fn clone(&self) -> (r: Self)
        ensures
            r.deep_view() == self.deep_view(),
    {
        match self {
            DependencySpec::Version(v) => DependencySpec::Version(v.clone()),
            DependencySpec::Detailed(d) => DependencySpec::Detailed(d.clone()),
        }
    }
}

impl Default for DetailedDep {
    fn default() -> (r: Self)
        ensures
            r.deep_view() == (Detail { version: None, bioc: None, git: None, rev: None }),
    {
        DetailedDep { version: None, bioc: None, git: None, rev: None }
    }
}

impl Default for DependencySpec {
    fn default() -> (r: Self)
        ensures
            r.deep_view() == Dependency::Version("*"@),
    {
        DependencySpec::Version("*".to_owned())
    }
}

/// The version requirement of a dependency.
pub open spec fn requirement_of(d: Dependency) -> Option<Seq<char>> {
    match d {
        Dependency::Version(v) => Some(v),
        Dependency::Detailed(x) => x.version,
    }
}

/// The dependency is a package of Bioconductor.
pub open spec fn is_of_bioc(d: Dependency) -> bool {
    d matches Dependency::Detailed(x) && x.bioc == Some(true)
}

/// The repository that a dependency comes from.
pub open spec fn repository_of(d: Dependency) -> Option<Seq<char>> {
    match d {
        Dependency::Detailed(x) => x.git,
        Dependency::Version(_) => None,
    }
}

impl DependencySpec {
    /// The version requirement.
    pub fn version_req(&self) -> (r: Option<&str>)
        ensures
            r.deep_view() == requirement_of(self.deep_view()),
    {
        match self {
            DependencySpec::Version(v) => Some(v.as_str()),
            DependencySpec::Detailed(d) => match &d.version {
                Some(v) => Some(v.as_str()),
                None => None,
            },
        }
    }

    /// Whether this is a package of Bioconductor.
    pub fn is_bioc(&self) -> (r: bool)
        ensures
            r == is_of_bioc(self.deep_view()),
    {
        match self {
            DependencySpec::Version(_) => false,
            DependencySpec::Detailed(d) => match d.bioc {
                Some(b) => b,
                None => false,
            },
        }
    }

    /// The repository that the package comes from.
    pub fn git(&self) -> (r: Option<&str>)
        ensures
            r.deep_view() == repository_of(self.deep_view()),
    {
        match self {
            DependencySpec::Detailed(d) => match &d.git {
                Some(g) => Some(g.as_str()),
                None => None,
            },
            DependencySpec::Version(_) => None,
        }
    }
}

/// A dependency was added to one of the tables, or given a new spec there, and `new`
/// tells which.
pub open spec fn is_added(
    before: Manifest,
    name: Seq<char>,
    spec: DependencySpec,
    dev: bool,
    new: bool,
    after: Manifest,
) -> bool {
    &&& after.project == before.project
    &&& after.sources == before.sources
    &&& dev ==> {
        &&& new == !before.dev_dependencies@.contains_key(name)
        &&& after.dev_dependencies@ == before.dev_dependencies@.insert(name, spec)
        &&& after.dependencies == before.dependencies
    }
    &&& !dev ==> {
        &&& new == !before.dependencies@.contains_key(name)
        &&& after.dependencies@ == before.dependencies@.insert(name, spec)
        &&& after.dev_dependencies == before.dev_dependencies
    }
}

/// A dependency was taken out of both tables, and `found` tells whether it was in one.
pub open spec fn is_removed(
    before: Manifest,
    name: Seq<char>,
    found: bool,
    after: Manifest,
) -> bool {
    &&& found == (before.dependencies@.contains_key(name) || before.dev_dependencies@.contains_key(
        name,
    ))
    &&& after.dependencies@ == before.dependencies@.remove(name)
    &&& after.dev_dependencies@ == before.dev_dependencies@.remove(name)
    &&& after.project == before.project
    &&& after.sources == before.sources
}

impl Manifest {
    /// A manifest without dependencies.
    pub fn new(name: String, r_version: Option<String>) -> (r: Self)
        ensures
            r.deep_view() == (Project {
                name: name@,
                r_version: r_version.deep_view(),
                bioc_version: None,
                description: None,
                dependencies: Map::empty(),
                dev_dependencies: Map::empty(),
                sources: seq![],
            }),
    {
        let r = Manifest {
            project: ProjectMeta { name, r_version, bioc_version: None, description: None },
            dependencies: StrMap::new(),
            dev_dependencies: StrMap::new(),
            sources: Vec::new(),
        };
        assert(r.sources.deep_view() =~= seq![]);
        r
    }

    /// Adds a dependency, or gives one a new spec. Tells whether it is new.
    pub fn add_dep(&mut self, name: String, spec: DependencySpec, dev: bool) -> (r: bool)
        ensures
            is_added(*old(self), name@, spec, dev, r, *final(self)),
    {
        if dev {
            self.dev_dependencies.insert(name, spec).is_none()
        } else {
            self.dependencies.insert(name, spec).is_none()
        }
    }

    /// Takes a dependency out of both tables. Tells whether it was in one.
    pub fn remove_dep(&mut self, name: &str) -> (r: bool)
        ensures
            is_removed(*old(self), name@, r, *final(self)),
    {
        let a = self.dependencies.remove(name).is_some();
        let b = self.dev_dependencies.remove(name).is_some();
        a || b
    }
}

/// Removing a dependency undoes adding it, where it was not there before.
pub proof fn law_removing_undoes_adding(
    dependencies: Map<Seq<char>, DependencySpec>,
    name: Seq<char>,
    spec: DependencySpec,
)
    requires
        !dependencies.contains_key(name),
    ensures
        dependencies.insert(name, spec).contains_key(name),
        dependencies.insert(name, spec).remove(name) == dependencies,
        !dependencies.insert(name, spec).remove(name).contains_key(name),
{
    assert(dependencies.insert(name, spec).remove(name) =~= dependencies);
}

/// A dependency that was added is in the table that it was meant for, with its spec,
/// whether or not it was there before, and nothing else has changed: no other name, and
/// not the other table.
pub proof fn law_added_dependency_is_there(
    before: Manifest,
    name: Seq<char>,
    spec: DependencySpec,
    dev: bool,
    new: bool,
    after: Manifest,
    other: Seq<char>,
)
    requires
        is_added(before, name, spec, dev, new, after),
    ensures
        ({
            let (was, is, rest_was, rest_is) = if dev {
                (
                    before.dev_dependencies@,
                    after.dev_dependencies@,
                    before.dependencies@,
                    after.dependencies@,
                )
            } else {
                (
                    before.dependencies@,
                    after.dependencies@,
                    before.dev_dependencies@,
                    after.dev_dependencies@,
                )
            };
            &&& is.contains_key(name) && is[name] == spec
            &&& new <==> !was.contains_key(name)
            &&& other != name ==> is.contains_key(other) == was.contains_key(other)
            &&& other != name && was.contains_key(other) ==> is[other] == was[other]
            &&& rest_is == rest_was
        }),
        after.project == before.project,
        after.sources == before.sources,
{
}

/// A dependency that was removed is in neither table, and every other is where it was.
pub proof fn law_removed_dependency_is_gone(
    before: Manifest,
    name: Seq<char>,
    found: bool,
    after: Manifest,
    other: Seq<char>,
)
    requires
        is_removed(before, name, found, after),
    ensures
        !after.dependencies@.contains_key(name),
        !after.dev_dependencies@.contains_key(name),
        found <==> before.dependencies@.contains_key(name) || before.dev_dependencies@.contains_key(
            name,
        ),
        other != name ==> after.dependencies@.contains_key(other)
            == before.dependencies@.contains_key(other),
        other != name && before.dependencies@.contains_key(other) ==> after.dependencies@[other]
            == before.dependencies@[other],
        other != name ==> after.dev_dependencies@.contains_key(other)
            == before.dev_dependencies@.contains_key(other),
        other != name && before.dev_dependencies@.contains_key(other)
            ==> after.dev_dependencies@[other] == before.dev_dependencies@[other],
        after.project == before.project,
        after.sources == before.sources,
{
}

/// Removing a dependency that was added gives back the manifest before, where it had no
/// dependency of the name.
pub proof fn law_removal_gives_back_the_manifest(
    before: Manifest,
    name: Seq<char>,
    spec: DependencySpec,
    dev: bool,
    new: bool,
    between: Manifest,
    found: bool,
    after: Manifest,
)
    requires
        !before.dependencies@.contains_key(name),
        !before.dev_dependencies@.contains_key(name),
        is_added(before, name, spec, dev, new, between),
        is_removed(between, name, found, after),
    ensures
        new,
        found,
        after.dependencies@ == before.dependencies@,
        after.dev_dependencies@ == before.dev_dependencies@,
        after.project == before.project,
        after.sources == before.sources,
{
    assert(after.dependencies@ =~= before.dependencies@);
    assert(after.dev_dependencies@ =~= before.dev_dependencies@);
}

/// What is asked of a dependency is what its spec says: a bare requirement asks for a
/// version and nothing else, and a table for what it holds.
pub proof fn law_spec_says_what_is_asked(v: Seq<char>, d: Detail)
    ensures
        requirement_of(Dependency::Version(v)) == Some(v),
        !is_of_bioc(Dependency::Version(v)),
        repository_of(Dependency::Version(v)) is None,
        requirement_of(Dependency::Detailed(d)) == d.version,
        repository_of(Dependency::Detailed(d)) == d.git,
        match d.bioc {
            Some(b) => is_of_bioc(Dependency::Detailed(d)) == b,
            None => !is_of_bioc(Dependency::Detailed(d)),
        },
{
}

} // verus!
