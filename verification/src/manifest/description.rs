//! A manifest from the `DESCRIPTION` of an R package.

use vstd::prelude::*;
use vstd::slice::slice_subrange;

use crate::dcf;
use crate::error::UvrError;
use crate::manifest::remotes;
use crate::manifest::{
    Dependency, DependencySpec, Detail, DetailedDep, Manifest, Project, ProjectMeta,
};
use crate::strings;
use crate::strmap::StrMap;
use crate::text;

verus! {

broadcast use crate::strmap::group_deep;

/// The last closing parenthesis of an entry does not stand before the first
/// opening one.
pub open spec fn closes_in_order(entry: Seq<char>) -> bool {
    let open = strings::first_at(entry, '(');
    let close = strings::last_at(entry, ')');
    open < entry.len() && close >= 0 ==> open < close
}

/// The requirement in the parentheses of an entry, without its white space. An
/// entry that nothing closes goes to its end.
pub open spec fn parenthesized(entry: Seq<char>) -> Seq<char> {
    let open = strings::first_at(entry, '(');
    let close = strings::last_at(entry, ')');
    strings::without_white(
        entry.subrange(
            open + 1,
            if close >= 0 {
                close
            } else {
                entry.len() as int
            },
        ),
    )
}

/// The package that one entry of a dependency field names, with the version that
/// it asks for.
pub open spec fn dep_entry(raw: Seq<char>) -> Option<(Seq<char>, Dependency)> {
    let entry = strings::trim(raw);
    let open = strings::first_at(entry, '(');
    let name = if open < entry.len() {
        strings::trim(entry.take(open))
    } else {
        entry
    };
    if name.len() == 0 {
        None
    } else if open < entry.len() {
        Some((name, Dependency::Version(parenthesized(entry))))
    } else {
        Some((name, Dependency::Version("*"@)))
    }
}

/// The packages that the entries name, in their order.
pub open spec fn dep_entries(entries: Seq<Seq<char>>) -> Seq<(Seq<char>, Dependency)>
    decreases entries.len(),
{
    if entries.len() == 0 {
        seq![]
    } else {
        let before = dep_entries(entries.drop_last());
        match dep_entry(entries.last()) {
            Some(e) => before.push(e),
            None => before,
        }
    }
}

/// The packages that a dependency field names, in their order.
pub open spec fn dep_field(field: Seq<char>) -> Seq<(Seq<char>, Dependency)> {
    dep_entries(strings::split(field, ','))
}

/// In every entry of the field the parentheses are in order.
pub open spec fn is_readable_field(field: Seq<char>) -> bool {
    forall|i: int|
        0 <= i < strings::split(field, ',').len() ==> closes_in_order(
            strings::trim(#[trigger] strings::split(field, ',')[i]),
        )
}

/// The text in the parentheses of an entry, without its white space.
fn read_parenthesized(entry: &[char]) -> (r: String)
    requires
        closes_in_order(entry@),
        strings::first_at(entry@, '(') < entry@.len(),
    ensures
        r@ == parenthesized(entry@),
{
    proof {
        strings::lemma_first_at(entry@, '(');
    }
    let open = text::first_at(entry, '(');
    let n = entry.len();
    let close: usize = match text::last_at(entry, ')') {
        Some(q) => q,
        None => n,
    };
    proof {
        strings::lemma_last_at(entry@, ')');
    }
    text::without_white(slice_subrange(entry, open + 1, close))
}

/// Reads one entry of a dependency field.
fn parse_dep_entry(raw: &[char]) -> (r: Option<(String, DependencySpec)>)
    requires
        closes_in_order(strings::trim(raw@)),
    ensures
        r.deep_view() == dep_entry(raw@),
{
    let entry = text::trim(raw);
    let open = text::first_at(entry, '(');
    if open < entry.len() {
        let head = slice_subrange(entry, 0, open);
        assert(head@ =~= entry@.take(open as int));
        let name = text::string_of(text::trim(head));
        if name.as_str().is_empty() {
            None
        } else {
            Some((name, DependencySpec::Version(read_parenthesized(entry))))
        }
    } else {
        let name = text::string_of(entry);
        if name.as_str().is_empty() {
            None
        } else {
            Some((name, DependencySpec::Version("*".to_owned())))
        }
    }
}

/// Whether in every entry of the field the parentheses are in order.
pub fn field_is_readable(field: &str) -> (r: bool)
    ensures
        r == is_readable_field(field@),
{
    let cs = text::chars_of(field);
    let entries = text::split(cs.as_slice(), ',');
    let ghost all = strings::split(field@, ',');
    let mut i: usize = 0;
    while i < entries.len()
        invariant
            i <= entries@.len(),
            all == strings::split(field@, ','),
            all == text::views(entries@),
            forall|j: int| 0 <= j < i ==> closes_in_order(strings::trim(#[trigger] all[j])),
        decreases entries@.len() - i,
    {
        let entry = text::trim(entries[i]);
        assert(all[i as int] == entries@[i as int]@);
        let open = text::first_at(entry, '(');
        if open < entry.len() {
            if let Some(close) = text::last_at(entry, ')') {
                if close < open {
                    assert(!closes_in_order(strings::trim(all[i as int])));
                    return false;
                }
                proof {
                    strings::lemma_first_at(entry@, '(');
                    strings::lemma_last_at(entry@, ')');
                }
            }
        }
        assert(closes_in_order(entry@));
        i += 1;
    }
    true
}

/// Reads a dependency field (`Imports`, `Depends`, `Suggests`): packages parted
/// by commas, each with an optional requirement in parentheses.
pub fn parse_dep_field(field: &str) -> (r: Vec<(String, DependencySpec)>)
    requires
        is_readable_field(field@),
    ensures
        r.deep_view() == dep_field(field@),
{
    let cs = text::chars_of(field);
    let entries = text::split(cs.as_slice(), ',');
    let ghost all = strings::split(field@, ',');
    let mut out: Vec<(String, DependencySpec)> = Vec::new();
    let mut i: usize = 0;
    assert(out.deep_view() =~= dep_entries(all.take(0)));
    while i < entries.len()
        invariant
            i <= entries@.len(),
            is_readable_field(field@),
            all == strings::split(field@, ','),
            all == text::views(entries@),
            out.deep_view() == dep_entries(all.take(i as int)),
        decreases entries@.len() - i,
    {
        assert(all.take(i + 1).drop_last() =~= all.take(i as int));
        assert(all[i as int] == entries@[i as int]@);
        let ghost before = out.deep_view();
        if let Some(e) = parse_dep_entry(entries[i]) {
            out.push(e);
            assert(out.deep_view() =~= before.push(e.deep_view()));
        }
        i += 1;
    }
    assert(all.take(i as int) =~= all);
    out
}

/// The entry is about R itself, with or without a requirement.
pub open spec fn is_r_entry(entry: Seq<char>) -> bool {
    &&& strings::strip_prefix(entry, "R"@) matches Some(rest)
    &&& {
        ||| strings::trim(rest).len() == 0
        ||| strings::trim(rest)[0] == '('
    }
}

/// The requirement on the version of R in the first entry that is about R.
pub open spec fn r_requirement(entries: Seq<Seq<char>>) -> Option<Seq<char>>
    decreases entries.len(),
{
    if entries.len() == 0 {
        None
    } else {
        let entry = strings::trim(entries[0]);
        if is_r_entry(entry) {
            if strings::first_at(entry, '(') < entry.len() && parenthesized(entry).len() > 0 {
                Some(parenthesized(entry))
            } else {
                None
            }
        } else {
            r_requirement(entries.skip(1))
        }
    }
}

/// In an entry about R nothing but white space stands before the first opening
/// parenthesis, so its parentheses are in order.
proof fn lemma_r_entry_closes_in_order(entry: Seq<char>)
    requires
        is_r_entry(entry),
    ensures
        closes_in_order(entry),
{
    reveal_strlit("R");
    let rest = entry.skip(1);
    let k = strings::lemma_trim_first(rest);
    assert(entry[0] == entry.take(1)[0]);
    assert forall|j: int| 0 <= j <= k implies entry[j] != '(' && entry[j] != ')' by {
        if j > 0 {
            assert(rest[j - 1] == entry[j]);
        }
    }
    strings::lemma_first_at(entry, '(');
    strings::lemma_last_at(entry, ')');
    if strings::trim(rest).len() > 0 {
        assert(rest[k] == entry[k + 1]);
        strings::lemma_first_at_is(entry, '(', k + 1);
    }
}

/// The requirement on the version of R in a `Depends` field:
/// `R (>= 4.0.0), methods` asks for `>=4.0.0`.
pub fn parse_r_version_from_depends(depends: &str) -> (r: Option<String>)
    ensures
        r.deep_view() == r_requirement(strings::split(depends@, ',')),
{
    let cs = text::chars_of(depends);
    let entries = text::split(cs.as_slice(), ',');
    let ghost all = strings::split(depends@, ',');
    let mut i: usize = 0;
    assert(all.skip(0) =~= all);
    while i < entries.len()
        invariant
            i <= entries@.len(),
            all == strings::split(depends@, ','),
            all == text::views(entries@),
            r_requirement(all) == r_requirement(all.skip(i as int)),
        decreases entries@.len() - i,
    {
        let entry = text::trim(entries[i]);
        assert(all[i as int] == entries@[i as int]@);
        assert(all.skip(i as int)[0] == all[i as int]);
        assert(all.skip(i as int).skip(1) =~= all.skip(i + 1));
        if let Some(stripped) = text::strip_prefix(entry, "R") {
            let rest = text::trim(stripped);
            if rest.len() == 0 || rest[0] == '(' {
                proof {
                    lemma_r_entry_closes_in_order(entry@);
                }
                if text::first_at(entry, '(') < entry.len() {
                    let version = read_parenthesized(entry);
                    if !version.as_str().is_empty() {
                        return Some(version);
                    }
                }
                return None;
            }
        }
        i += 1;
    }
    None
}

/// The dependencies with those of `pairs`, of which a later one stands.
pub open spec fn with_all(
    m: Map<Seq<char>, Dependency>,
    pairs: Seq<(Seq<char>, Dependency)>,
) -> Map<Seq<char>, Dependency>
    decreases pairs.len(),
{
    if pairs.len() == 0 {
        m
    } else {
        with_all(m, pairs.drop_last()).insert(pairs.last().0, pairs.last().1)
    }
}

/// The dependencies with those of `pairs` but for R itself.
pub open spec fn with_all_but_r(
    m: Map<Seq<char>, Dependency>,
    pairs: Seq<(Seq<char>, Dependency)>,
) -> Map<Seq<char>, Dependency>
    decreases pairs.len(),
{
    if pairs.len() == 0 {
        m
    } else if pairs.last().0 == "R"@ {
        with_all_but_r(m, pairs.drop_last())
    } else {
        with_all_but_r(m, pairs.drop_last()).insert(pairs.last().0, pairs.last().1)
    }
}

/// The dependencies of a package: those that it needs and those for development.
#[verifier::ext_equal]
pub struct Tables {
    pub dependencies: Map<Seq<char>, Dependency>,
    pub dev_dependencies: Map<Seq<char>, Dependency>,
}

/// One of the tables has an entry of that name.
pub open spec fn is_known(t: Tables, name: Seq<char>) -> bool {
    t.dependencies.contains_key(name) || t.dev_dependencies.contains_key(name)
}

/// The endings by which the repository of a package is told from the package.
pub open spec fn companion_suffixes() -> Seq<Seq<char>> {
    seq!["-r"@, "_r"@, ".r"@, "-R"@, "_R"@, ".R"@]
}

/// `url_pkg` without the first of the endings that leaves a known name.
pub open spec fn companion_of(
    url_pkg: Seq<char>,
    suffixes: Seq<Seq<char>>,
    t: Tables,
) -> Option<Seq<char>>
    decreases suffixes.len(),
{
    if suffixes.len() == 0 {
        None
    } else {
        match strings::strip_suffix(url_pkg, suffixes[0]) {
            Some(s) => if s.len() > 0 && is_known(t, s) {
                Some(s)
            } else {
                companion_of(url_pkg, suffixes.skip(1), t)
            },
            None => companion_of(url_pkg, suffixes.skip(1), t),
        }
    }
}

/// The name of the dependency that a remote of the name `url_pkg` is about: that
/// name where it is known, else a known name that it extends by an ending, else
/// that name.
pub open spec fn bound_name(url_pkg: Seq<char>, t: Tables) -> Seq<char> {
    if is_known(t, url_pkg) {
        url_pkg
    } else {
        match companion_of(url_pkg, companion_suffixes(), t) {
            Some(s) => s,
            None => url_pkg,
        }
    }
}

/// The version that a table asks of `name`, where it asks for one.
pub open spec fn asked_version(m: Map<Seq<char>, Dependency>, name: Seq<char>) -> Option<
    Seq<char>,
> {
    if m.contains_key(name) {
        match super::requirement_of(m[name]) {
            Some(v) => if v == "*"@ {
                None
            } else {
                Some(v)
            },
            None => None,
        }
    } else {
        None
    }
}

/// A remote with the version that was asked for before, unless it has one.
pub open spec fn keeping_version(spec: Dependency, version: Option<Seq<char>>) -> Dependency {
    match spec {
        Dependency::Detailed(d) => if d.version is None {
            Dependency::Detailed(Detail { version, bioc: d.bioc, git: d.git, rev: d.rev })
        } else {
            spec
        },
        Dependency::Version(_) => spec,
    }
}

/// A table in which `name` has the source of a remote. The version that the table
/// asked of it stays.
pub open spec fn with_source(
    m: Map<Seq<char>, Dependency>,
    name: Seq<char>,
    spec: Dependency,
) -> Map<Seq<char>, Dependency> {
    m.insert(name, keeping_version(spec, asked_version(m, name)))
}

/// Whether a remote about `name` is a matter of the dependencies: they hold the
/// name, or no table does.
pub open spec fn is_for_dependencies(t: Tables, name: Seq<char>) -> bool {
    t.dependencies.contains_key(name) || !t.dev_dependencies.contains_key(name)
}

/// The tables with one remote. Each table that holds the name takes its source; a
/// name that neither holds becomes a dependency.
pub open spec fn with_remote(t: Tables, remote: (Seq<char>, Dependency)) -> Tables {
    let name = bound_name(remote.0, t);
    Tables {
        dependencies: if is_for_dependencies(t, name) {
            with_source(t.dependencies, name, remote.1)
        } else {
            t.dependencies
        },
        dev_dependencies: if t.dev_dependencies.contains_key(name) {
            with_source(t.dev_dependencies, name, remote.1)
        } else {
            t.dev_dependencies
        },
    }
}

/// The tables with the remotes, one after another.
pub open spec fn with_remotes(t: Tables, pairs: Seq<(Seq<char>, Dependency)>) -> Tables
    decreases pairs.len(),
{
    if pairs.len() == 0 {
        t
    } else {
        with_remote(with_remotes(t, pairs.drop_last()), pairs.last())
    }
}

/// The value of a field, or nothing.
pub open spec fn field_of(fields: Map<Seq<char>, Seq<char>>, name: Seq<char>) -> Option<Seq<char>> {
    if fields.contains_key(name) {
        Some(fields[name])
    } else {
        None
    }
}

/// The packages of a dependency field, none where there is no such field.
pub open spec fn field_deps(
    fields: Map<Seq<char>, Seq<char>>,
    name: Seq<char>,
) -> Seq<(Seq<char>, Dependency)> {
    match field_of(fields, name) {
        Some(v) => dep_field(v),
        None => seq![],
    }
}

/// The tables before the remotes are looked at: what is imported, then what is
/// depended on but for R, and for development what is suggested.
pub open spec fn declared(fields: Map<Seq<char>, Seq<char>>) -> Tables {
    Tables {
        dependencies: with_all_but_r(
            with_all(Map::empty(), field_deps(fields, "Imports"@)),
            field_deps(fields, "Depends"@),
        ),
        dev_dependencies: with_all(Map::empty(), field_deps(fields, "Suggests"@)),
    }
}

/// The tables that the fields of a description come to.
pub open spec fn described_tables(fields: Map<Seq<char>, Seq<char>>) -> Tables {
    match field_of(fields, "Remotes"@) {
        Some(v) => with_remotes(declared(fields), remotes::remotes_field(v)),
        None => declared(fields),
    }
}

/// The manifest that the fields of a description come to.
pub open spec fn described(fields: Map<Seq<char>, Seq<char>>) -> Project {
    Project {
        name: match field_of(fields, "Package"@) {
            Some(v) => v,
            None => ""@,
        },
        r_version: match field_of(fields, "Depends"@) {
            Some(v) => r_requirement(strings::split(v, ',')),
            None => None,
        },
        bioc_version: None,
        description: field_of(fields, "Title"@),
        dependencies: described_tables(fields).dependencies,
        dev_dependencies: described_tables(fields).dev_dependencies,
        sources: seq![],
    }
}

/// The dependency fields of a description are readable.
pub open spec fn is_readable(fields: Map<Seq<char>, Seq<char>>) -> bool {
    &&& field_of(fields, "Imports"@) matches Some(v) ==> is_readable_field(v)
    &&& field_of(fields, "Depends"@) matches Some(v) ==> is_readable_field(v)
    &&& field_of(fields, "Suggests"@) matches Some(v) ==> is_readable_field(v)
}

/// What two maps hold.
pub open spec fn tables(
    dependencies: &StrMap<DependencySpec>,
    dev_dependencies: &StrMap<DependencySpec>,
) -> Tables {
    Tables {
        dependencies: dependencies.deep_view(),
        dev_dependencies: dev_dependencies.deep_view(),
    }
}

/// The dependency that a remote is about. Its name comes from the repository,
/// which is often named after the package with an ending such as `-r`: where the
/// whole name is not known, the name without the ending is looked for.
pub fn resolve_remote_pkg_name(
    url_pkg: &str,
    dependencies: &StrMap<DependencySpec>,
    dev_dependencies: &StrMap<DependencySpec>,
) -> (r: String)
    ensures
        r@ == bound_name(url_pkg@, tables(dependencies, dev_dependencies)),
{
    let ghost t = tables(dependencies, dev_dependencies);
    if dependencies.contains_key(url_pkg) || dev_dependencies.contains_key(url_pkg) {
        return url_pkg.to_owned();
    }
    let suffixes: Vec<&str> = vec!["-r", "_r", ".r", "-R", "_R", ".R"];
    let ghost all = companion_suffixes();
    let cs = text::chars_of(url_pkg);
    let mut i: usize = 0;
    assert(all.skip(0) =~= all);
    while i < suffixes.len()
        invariant
            i <= suffixes@.len(),
            suffixes@.len() == all.len(),
            forall|j: int| 0 <= j < all.len() ==> all[j] == (#[trigger] suffixes@[j])@,
            all == companion_suffixes(),
            t == tables(dependencies, dev_dependencies),
            cs@ == url_pkg@,
            !is_known(t, url_pkg@),
            companion_of(url_pkg@, all, t) == companion_of(url_pkg@, all.skip(i as int), t),
        decreases suffixes@.len() - i,
    {
        assert(all.skip(i as int)[0] == suffixes@[i as int]@);
        assert(all.skip(i as int).skip(1) =~= all.skip(i + 1));
        if let Some(s) = text::strip_suffix(cs.as_slice(), suffixes[i]) {
            let name = text::string_of(s);
            if !name.as_str().is_empty() && (dependencies.contains_key(name.as_str())
                || dev_dependencies.contains_key(name.as_str())) {
                return name;
            }
        }
        i += 1;
    }
    url_pkg.to_owned()
}

/// Adds the pairs to the map.
fn put_all(map: &mut StrMap<DependencySpec>, pairs: &Vec<(String, DependencySpec)>)
    ensures
        final(map).deep_view() == with_all(old(map).deep_view(), pairs.deep_view()),
{
    let ghost all = pairs.deep_view();
    let ghost start = map.deep_view();
    let mut i: usize = 0;
    assert(with_all(start, all.take(0)) == start);
    while i < pairs.len()
        invariant
            i <= pairs@.len(),
            all == pairs.deep_view(),
            map.deep_view() == with_all(start, all.take(i as int)),
        decreases pairs@.len() - i,
    {
        assert(all.take(i + 1).drop_last() =~= all.take(i as int));
        assert(all[i as int] == pairs@[i as int].deep_view());
        map.insert(pairs[i].0.clone(), pairs[i].1.clone());
        i += 1;
    }
    assert(all.take(i as int) =~= all);
}

/// Adds the pairs to the map, but for R itself.
fn put_all_but_r(map: &mut StrMap<DependencySpec>, pairs: &Vec<(String, DependencySpec)>)
    ensures
        final(map).deep_view() == with_all_but_r(old(map).deep_view(), pairs.deep_view()),
{
    let ghost all = pairs.deep_view();
    let ghost start = map.deep_view();
    let mut i: usize = 0;
    assert(with_all_but_r(start, all.take(0)) == start);
    while i < pairs.len()
        invariant
            i <= pairs@.len(),
            all == pairs.deep_view(),
            map.deep_view() == with_all_but_r(start, all.take(i as int)),
        decreases pairs@.len() - i,
    {
        assert(all.take(i + 1).drop_last() =~= all.take(i as int));
        assert(all[i as int] == pairs@[i as int].deep_view());
        if !text::same_str(pairs[i].0.as_str(), "R") {
            map.insert(pairs[i].0.clone(), pairs[i].1.clone());
        }
        i += 1;
    }
    assert(all.take(i as int) =~= all);
}

/// The version that a table asks of `name`, where it asks for one.
fn version_asked(map: &StrMap<DependencySpec>, name: &str) -> (r: Option<String>)
    ensures
        r.deep_view() == asked_version(map.deep_view(), name@),
{
    match map.get(name) {
        Some(spec) => match spec.version_req() {
            Some(v) => if text::same_str(v, "*") {
                None
            } else {
                Some(v.to_owned())
            },
            None => None,
        },
        None => None,
    }
}

/// A remote with the version that was asked for before, unless it has one.
fn keep_version(spec: &DependencySpec, version: Option<String>) -> (r: DependencySpec)
    ensures
        r.deep_view() == keeping_version(spec.deep_view(), version.deep_view()),
{
    match spec.clone() {
        DependencySpec::Detailed(d) => if d.version.is_none() {
            DependencySpec::Detailed(
                DetailedDep { version, bioc: d.bioc, git: d.git, rev: d.rev },
            )
        } else {
            DependencySpec::Detailed(d)
        },
        DependencySpec::Version(v) => DependencySpec::Version(v),
    }
}

/// Gives the dependencies that the remotes are about their sources.
fn put_remotes(
    dependencies: &mut StrMap<DependencySpec>,
    dev_dependencies: &mut StrMap<DependencySpec>,
    pairs: &Vec<(String, DependencySpec)>,
)
    ensures
        tables(final(dependencies), final(dev_dependencies)) == with_remotes(
            tables(old(dependencies), old(dev_dependencies)),
            pairs.deep_view(),
        ),
{
    let ghost all = pairs.deep_view();
    let ghost start = tables(dependencies, dev_dependencies);
    let mut i: usize = 0;
    assert(with_remotes(start, all.take(0)) == start);
    while i < pairs.len()
        invariant
            i <= pairs@.len(),
            all == pairs.deep_view(),
            tables(dependencies, dev_dependencies) == with_remotes(start, all.take(i as int)),
        decreases pairs@.len() - i,
    {
        assert(all.take(i + 1).drop_last() =~= all.take(i as int));
        assert(all[i as int] == pairs@[i as int].deep_view());
        let name = resolve_remote_pkg_name(
            pairs[i].0.as_str(),
            dependencies,
            dev_dependencies,
        );
        let is_dev = dev_dependencies.contains_key(name.as_str());
        if dependencies.contains_key(name.as_str()) || !is_dev {
            let asked = version_asked(dependencies, name.as_str());
            dependencies.insert(name.clone(), keep_version(&pairs[i].1, asked));
        }
        if is_dev {
            let asked = version_asked(dev_dependencies, name.as_str());
            dev_dependencies.insert(name, keep_version(&pairs[i].1, asked));
        }
        i += 1;
    }
    assert(all.take(i as int) =~= all);
}

/// The manifest that the fields of a description come to.
pub fn manifest_of_fields(fields: &StrMap<String>) -> (r: Manifest)
    requires
        is_readable(fields.deep_view()),
    ensures
        r.deep_view() == described(fields.deep_view()),
{
    let ghost f = fields.deep_view();
    let name = match fields.get("Package") {
        Some(v) => v.clone(),
        None => "".to_owned(),
    };
    let r_version = match fields.get("Depends") {
        Some(v) => parse_r_version_from_depends(v.as_str()),
        None => None,
    };
    let mut dependencies: StrMap<DependencySpec> = StrMap::new();
    let mut dev_dependencies: StrMap<DependencySpec> = StrMap::new();
    if let Some(v) = fields.get("Imports") {
        put_all(&mut dependencies, &parse_dep_field(v.as_str()));
    }
    assert(dependencies.deep_view() == with_all(Map::empty(), field_deps(f, "Imports"@)));
    if let Some(v) = fields.get("Depends") {
        put_all_but_r(&mut dependencies, &parse_dep_field(v.as_str()));
    }
    if let Some(v) = fields.get("Suggests") {
        put_all(&mut dev_dependencies, &parse_dep_field(v.as_str()));
    }
    assert(tables(&dependencies, &dev_dependencies) == declared(f));
    if let Some(v) = fields.get("Remotes") {
        put_remotes(
            &mut dependencies,
            &mut dev_dependencies,
            &remotes::parse_remotes_field(v.as_str()),
        );
    }
    let description = match fields.get("Title") {
        Some(v) => Some(v.clone()),
        None => None,
    };
    let r = Manifest {
        project: ProjectMeta { name, r_version, bioc_version: None, description },
        dependencies,
        dev_dependencies,
        sources: Vec::new(),
    };
    assert(r.sources.deep_view() =~= seq![]);
    r
}

/// Whether a description can be read: whether in the entries of its dependency
/// fields the parentheses are in order.
pub fn description_is_readable(content: &str) -> (r: bool)
    ensures
        r == is_readable(dcf::dcf_fields(content@)),
{
    let fields = dcf::parse_dcf_fields(content);
    let imports = match fields.get("Imports") {
        Some(v) => field_is_readable(v.as_str()),
        None => true,
    };
    let depends = match fields.get("Depends") {
        Some(v) => field_is_readable(v.as_str()),
        None => true,
    };
    let suggests = match fields.get("Suggests") {
        Some(v) => field_is_readable(v.as_str()),
        None => true,
    };
    imports && depends && suggests
}

impl Manifest {
    /// Reads a `DESCRIPTION`. `Imports` and `Depends` name the dependencies,
    /// `Suggests` those for development. What `Depends` says of R is the
    /// requirement on its version. `Remotes` give the dependencies that they match
    /// their sources, in each table that holds them.
    pub fn from_description_str(content: &str) -> (r: Result<Manifest, UvrError>)
        requires
            is_readable(dcf::dcf_fields(content@)),
        ensures
            r matches Ok(m) && m.deep_view() == described(dcf::dcf_fields(content@)),
    {
        let fields = dcf::parse_dcf_fields(content);
        Ok(manifest_of_fields(&fields))
    }
}

/// A remote overrides every entry of its name: in each table that holds the name,
/// the entry has the remote's source and keeps the version that it asked for. The
/// other entries of both tables stay as they were.
pub proof fn law_remote_keeps_the_rest(t: Tables, remote: (Seq<char>, Detail))
    requires
        remote.1.version is None,
    ensures
        ({
            let name = bound_name(remote.0, t);
            let after = with_remote(t, (remote.0, Dependency::Detailed(remote.1)));
            &&& after.dependencies.remove(name) == t.dependencies.remove(name)
            &&& after.dev_dependencies.remove(name) == t.dev_dependencies.remove(name)
            &&& after.dependencies.contains_key(name) ==> is_sourced(
                after.dependencies[name],
                remote.1,
                asked_version(t.dependencies, name),
            )
            &&& after.dev_dependencies.contains_key(name) ==> is_sourced(
                after.dev_dependencies[name],
                remote.1,
                asked_version(t.dev_dependencies, name),
            )
        }),
{
    let name = bound_name(remote.0, t);
    let after = with_remote(t, (remote.0, Dependency::Detailed(remote.1)));
    assert(after.dependencies.remove(name) =~= t.dependencies.remove(name));
    assert(after.dev_dependencies.remove(name) =~= t.dev_dependencies.remove(name));
}

/// An entry has the source of a remote and asks for `version`.
pub open spec fn is_sourced(entry: Dependency, remote: Detail, version: Option<Seq<char>>) -> bool {
    &&& super::requirement_of(entry) == version
    &&& entry matches Dependency::Detailed(d)
    &&& d.git == remote.git
    &&& d.rev == remote.rev
    &&& d.bioc == remote.bioc
}

/// A remote moves no name between the tables: each holds the names that it held,
/// and a name that neither held becomes a dependency.
pub proof fn law_remote_stays_in_its_table(t: Tables, remote: (Seq<char>, Dependency))
    ensures
        ({
            let name = bound_name(remote.0, t);
            let after = with_remote(t, remote);
            &&& after.dev_dependencies.dom() == t.dev_dependencies.dom()
            &&& after.dependencies.dom() == if t.dev_dependencies.contains_key(name) {
                t.dependencies.dom()
            } else {
                t.dependencies.dom().insert(name)
            }
        }),
{
    let name = bound_name(remote.0, t);
    let after = with_remote(t, remote);
    if t.dev_dependencies.contains_key(name) {
        assert(after.dev_dependencies.dom() =~= t.dev_dependencies.dom());
        assert(after.dependencies.dom() =~= t.dependencies.dom());
    }
}

/// What `Depends` says of R does not make R a dependency.
pub proof fn law_depends_never_adds_r(
    m: Map<Seq<char>, Dependency>,
    pairs: Seq<(Seq<char>, Dependency)>,
)
    ensures
        with_all_but_r(m, pairs).contains_key("R"@) == m.contains_key("R"@),
    decreases pairs.len(),
{
    if pairs.len() > 0 {
        law_depends_never_adds_r(m, pairs.drop_last());
    }
}

/// The pairs name a package.
pub open spec fn names(pairs: Seq<(Seq<char>, Dependency)>, name: Seq<char>) -> bool {
    exists|i: int| 0 <= i < pairs.len() && (#[trigger] pairs[i]).0 == name
}

/// Pair `i` is the last one of its name.
pub open spec fn is_last_of_its_name(pairs: Seq<(Seq<char>, Dependency)>, i: int) -> bool {
    &&& 0 <= i < pairs.len()
    &&& forall|j: int| i < j < pairs.len() ==> (#[trigger] pairs[j]).0 != pairs[i].0
}

/// Every package that a field names is in the table, with what its last entry asks for.
/// The rest of the table stays as it was.
pub proof fn law_every_named_package_is_taken(
    m: Map<Seq<char>, Dependency>,
    pairs: Seq<(Seq<char>, Dependency)>,
    i: int,
    name: Seq<char>,
)
    ensures
        is_last_of_its_name(pairs, i) ==> with_all(m, pairs).contains_pair(
            pairs[i].0,
            pairs[i].1,
        ),
        !names(pairs, name) ==> (with_all(m, pairs).contains_key(name) == m.contains_key(name)),
        !names(pairs, name) && m.contains_key(name) ==> with_all(m, pairs)[name] == m[name],
    decreases pairs.len(),
{
    if pairs.len() > 0 {
        let p = pairs.drop_last();
        law_every_named_package_is_taken(m, p, i, name);
        if is_last_of_its_name(pairs, i) && i < p.len() {
            assert(pairs[pairs.len() - 1].0 != pairs[i].0);
            assert(is_last_of_its_name(p, i));
        }
        if !names(pairs, name) {
            assert(pairs[pairs.len() - 1].0 != name);
            assert(!names(p, name)) by {
                if names(p, name) {
                    let j = choose|j: int| 0 <= j < p.len() && (#[trigger] p[j]).0 == name;
                    assert(pairs[j].0 == name);
                }
            }
        }
    }
}

/// Every package that `Depends` names is in the table, with what its last entry asks
/// for: only the one that is called exactly `R` is none. The rest of the table stays as
/// it was.
pub proof fn law_only_r_is_left_out(
    m: Map<Seq<char>, Dependency>,
    pairs: Seq<(Seq<char>, Dependency)>,
    i: int,
    name: Seq<char>,
)
    ensures
        is_last_of_its_name(pairs, i) && pairs[i].0 != seq!['R'] ==> with_all_but_r(
            m,
            pairs,
        ).contains_pair(pairs[i].0, pairs[i].1),
        !names(pairs, name) || name == seq!['R'] ==> (with_all_but_r(m, pairs).contains_key(name)
            == m.contains_key(name)),
        (!names(pairs, name) || name == seq!['R']) && m.contains_key(name) ==> with_all_but_r(
            m,
            pairs,
        )[name] == m[name],
    decreases pairs.len(),
{
    reveal_strlit("R");
    assert("R"@ =~= seq!['R']);
    if pairs.len() > 0 {
        let p = pairs.drop_last();
        law_only_r_is_left_out(m, p, i, name);
        if is_last_of_its_name(pairs, i) && i < p.len() {
            assert(pairs[pairs.len() - 1].0 != pairs[i].0);
            assert(is_last_of_its_name(p, i));
        }
        if !names(pairs, name) {
            assert(pairs[pairs.len() - 1].0 != name);
            assert(!names(p, name)) by {
                if names(p, name) {
                    let j = choose|j: int| 0 <= j < p.len() && (#[trigger] p[j]).0 == name;
                    assert(pairs[j].0 == name);
                }
            }
        }
    }
}

/// Where the only opening parenthesis of a text that starts with `head` comes after it.
proof fn lemma_opens_after(head: Seq<char>, tail: Seq<char>)
    requires
        !head.contains('('),
    ensures
        strings::first_at(head + seq!['('] + tail, '(') == head.len(),
        strings::first_at(head, '(') == head.len(),
{
    let s = head + seq!['('] + tail;
    assert forall|j: int| 0 <= j < head.len() implies s[j] != '(' && head[j] != '(' by {
        assert(head.contains(head[j]));
        assert(s[j] == head[j]);
    }
    strings::lemma_first_at_is(s, '(', head.len() as int);
    strings::lemma_first_at_is(head, '(', head.len() as int);
}

/// An entry `name (requirement)` names the package and asks for the requirement without
/// its white space, however much white space stands around the name and the entry.
pub proof fn law_entry_with_a_requirement(
    before: Seq<char>,
    name: Seq<char>,
    gap: Seq<char>,
    requirement: Seq<char>,
    after: Seq<char>,
)
    requires
        strings::all_white(before),
        strings::all_white(gap),
        strings::all_white(after),
        name.len() > 0,
        strings::is_trimmed(name),
        !name.contains('('),
    ensures
        ({
            let entry = before + (name + gap + seq!['('] + requirement + seq![')']) + after;
            &&& closes_in_order(strings::trim(entry))
            &&& dep_entry(entry) == Some(
                (name, Dependency::Version(strings::without_white(requirement))),
            )
        }),
{
    let m = name + gap + seq!['('] + requirement + seq![')'];
    assert(m[0] == name[0] && m.last() == ')');
    strings::law_trim_takes_white_space_away(before, m, after);
    let head = name + gap;
    assert(!head.contains('(')) by {
        if head.contains('(') {
            let i = choose|i: int| 0 <= i < head.len() && head[i] == '(';
            if i < name.len() {
                assert(name.contains(name[i]));
            } else {
                assert(strings::is_white(gap[i - name.len()]));
            }
        }
    }
    let tail = requirement + seq![')'];
    assert(m =~= head + seq!['('] + tail);
    lemma_opens_after(head, tail);
    let open = head.len() as int;
    strings::lemma_last_at_is(m, ')', m.len() - 1);
    assert(m.take(open) =~= Seq::<char>::empty() + name + gap);
    strings::law_trim_takes_white_space_away(Seq::<char>::empty(), name, gap);
    assert(m.subrange(open + 1, m.len() - 1) =~= requirement);
}

/// An entry without parentheses names the package and asks for any version.
pub proof fn law_entry_without_a_requirement(
    before: Seq<char>,
    name: Seq<char>,
    after: Seq<char>,
)
    requires
        strings::all_white(before),
        strings::all_white(after),
        strings::is_trimmed(name),
        !name.contains('('),
    ensures
        ({
            let entry = before + name + after;
            &&& closes_in_order(strings::trim(entry))
            &&& name.len() > 0 ==> dep_entry(entry) == Some((name, Dependency::Version(seq!['*'])))
            &&& name.len() == 0 ==> dep_entry(entry) is None
        }),
{
    strings::law_trim_takes_white_space_away(before, name, after);
    lemma_opens_after(name, seq![]);
    reveal_strlit("*");
    assert("*"@ =~= seq!['*']);
}

proof fn lemma_dep_entries_both(a: Seq<Seq<char>>, b: Seq<Seq<char>>)
    ensures
        dep_entries(a + b) == dep_entries(a) + dep_entries(b),
    decreases b.len(),
{
    let both = a + b;
    if b.len() == 0 {
        assert(both =~= a);
        assert(dep_entries(a) + dep_entries(b) =~= dep_entries(a));
    } else {
        lemma_dep_entries_both(a, b.drop_last());
        assert(both.drop_last() =~= a + b.drop_last());
        assert(both.last() == b.last());
        assert(dep_entries(both) =~= dep_entries(a) + dep_entries(b));
    }
}

/// The entries of a dependency field are parted by commas and read one by one.
pub proof fn law_commas_part_entries(left: Seq<char>, right: Seq<char>)
    ensures
        dep_field(left + seq![','] + right) == dep_field(left) + dep_field(right),
        !left.contains(',') ==> dep_field(left) == (match dep_entry(left) {
            Some(e) => seq![e],
            None => seq![],
        }),
{
    strings::lemma_split_between(left, ',', right);
    lemma_dep_entries_both(strings::split(left, ','), strings::split(right, ','));
    if !left.contains(',') {
        assert forall|j: int| 0 <= j < left.len() implies left[j] != ',' by {
            assert(left.contains(left[j]));
        }
        strings::lemma_first_at_is(left, ',', left.len() as int);
        let one = seq![left];
        assert(one.drop_last() =~= seq![]);
        reveal_with_fuel(dep_entries, 2);
        assert(dep_entries(one) =~= match dep_entry(left) {
            Some(e) => seq![e],
            None => seq![],
        });
    }
}

/// What a description without remotes comes to. A package is a dependency if and only
/// if `Imports` names it, or `Depends` does and it is not R; what `Depends` asks for
/// stands. It is one for development if and only if `Suggests` names it.
pub proof fn law_fields_fill_their_tables(
    fields: Map<Seq<char>, Seq<char>>,
    imports: Seq<(Seq<char>, Dependency)>,
    depends: Seq<(Seq<char>, Dependency)>,
    suggests: Seq<(Seq<char>, Dependency)>,
    name: Seq<char>,
    i: int,
)
    requires
        !fields.contains_key("Remotes"@),
        imports == (if fields.contains_key("Imports"@) {
            dep_field(fields["Imports"@])
        } else {
            seq![]
        }),
        depends == (if fields.contains_key("Depends"@) {
            dep_field(fields["Depends"@])
        } else {
            seq![]
        }),
        suggests == (if fields.contains_key("Suggests"@) {
            dep_field(fields["Suggests"@])
        } else {
            seq![]
        }),
    ensures
        ({
            let m = described(fields);
            let in_depends = names(depends, name) && name != seq!['R'];
            &&& m.dependencies.contains_key(name) == (names(imports, name) || in_depends)
            &&& m.dev_dependencies.contains_key(name) == names(suggests, name)
            &&& is_last_of_its_name(depends, i) && depends[i].0 == name && name != seq!['R']
                ==> m.dependencies[name] == depends[i].1
            &&& !in_depends && is_last_of_its_name(imports, i) && imports[i].0 == name
                ==> m.dependencies[name] == imports[i].1
            &&& is_last_of_its_name(suggests, i) && suggests[i].0 == name
                ==> m.dev_dependencies[name] == suggests[i].1
        }),
{
    let none = Map::<Seq<char>, Dependency>::empty();
    let first = with_all(none, imports);
    law_every_named_package_is_taken(none, imports, i, name);
    law_every_named_package_is_taken(none, suggests, i, name);
    law_only_r_is_left_out(first, depends, i, name);
    lemma_last_exists(imports, name);
    lemma_last_exists(depends, name);
    lemma_last_exists(suggests, name);
    if names(imports, name) {
        let j = choose|j: int| is_last_of_its_name(imports, j) && imports[j].0 == name;
        law_every_named_package_is_taken(none, imports, j, name);
    }
    if names(depends, name) {
        let j = choose|j: int| is_last_of_its_name(depends, j) && depends[j].0 == name;
        law_only_r_is_left_out(first, depends, j, name);
    }
    if names(suggests, name) {
        let j = choose|j: int| is_last_of_its_name(suggests, j) && suggests[j].0 == name;
        law_every_named_package_is_taken(none, suggests, j, name);
    }
}

/// A package that pairs name has a last pair.
proof fn lemma_last_exists(pairs: Seq<(Seq<char>, Dependency)>, name: Seq<char>)
    ensures
        names(pairs, name) ==> exists|i: int|
            #![trigger is_last_of_its_name(pairs, i)]
            is_last_of_its_name(pairs, i) && pairs[i].0 == name,
    decreases pairs.len(),
{
    if names(pairs, name) {
        let p = pairs.drop_last();
        let n = pairs.len() - 1;
        if pairs[n].0 == name {
            assert(is_last_of_its_name(pairs, n));
        } else {
            let k = choose|k: int| 0 <= k < pairs.len() && (#[trigger] pairs[k]).0 == name;
            assert(p[k].0 == name);
            lemma_last_exists(p, name);
            let i = choose|i: int|
                #![trigger is_last_of_its_name(p, i)]
                is_last_of_its_name(p, i) && p[i].0 == name;
            assert forall|j: int| i < j < pairs.len() implies (#[trigger] pairs[j]).0
                != pairs[i].0 by {
                if j < n {
                    assert(p[j].0 != p[i].0);
                }
            }
            assert(is_last_of_its_name(pairs, i));
        }
    }
}

/// The other fields of a description: the name, the title, and nothing of Bioconductor
/// or of sources. Remotes are applied to what the other fields declare.
pub proof fn law_other_fields_of_a_description(fields: Map<Seq<char>, Seq<char>>)
    ensures
        ({
            let m = described(fields);
            &&& fields.contains_key("Package"@) ==> m.name == fields["Package"@]
            &&& !fields.contains_key("Package"@) ==> m.name.len() == 0
            &&& fields.contains_key("Title"@) ==> m.description == Some(fields["Title"@])
            &&& !fields.contains_key("Title"@) ==> m.description is None
            &&& m.bioc_version is None
            &&& m.sources.len() == 0
            &&& fields.contains_key("Depends"@) ==> m.r_version == r_requirement(
                strings::split(fields["Depends"@], ','),
            )
            &&& !fields.contains_key("Depends"@) ==> m.r_version is None
            &&& fields.contains_key("Remotes"@) ==> {
                let without = described(fields.remove("Remotes"@));
                let t = with_remotes(
                    Tables {
                        dependencies: without.dependencies,
                        dev_dependencies: without.dev_dependencies,
                    },
                    remotes::remotes_field(fields["Remotes"@]),
                );
                m.dependencies == t.dependencies && m.dev_dependencies == t.dev_dependencies
            }
        }),
{
    reveal_strlit("");
    reveal_strlit("Package");
    reveal_strlit("Title");
    reveal_strlit("Depends");
    reveal_strlit("Imports");
    reveal_strlit("Suggests");
    reveal_strlit("Remotes");
    let f = fields.remove("Remotes"@);
    assert("Remotes"@ != "Imports"@) by {
        assert("Remotes"@[0] != "Imports"@[0]);
    }
    assert("Remotes"@ != "Depends"@) by {
        assert("Remotes"@[0] != "Depends"@[0]);
    }
    assert("Remotes"@ != "Suggests"@) by {
        assert("Remotes"@[0] != "Suggests"@[0]);
    }
    assert(field_deps(f, "Imports"@) == field_deps(fields, "Imports"@));
    assert(field_deps(f, "Depends"@) == field_deps(fields, "Depends"@));
    assert(field_deps(f, "Suggests"@) == field_deps(fields, "Suggests"@));
    assert(declared(f) == declared(fields));
}

/// Remotes are applied one after another, each to what those before it have made.
pub proof fn law_remotes_are_applied_in_order(
    t: Tables,
    a: Seq<(Seq<char>, Dependency)>,
    b: Seq<(Seq<char>, Dependency)>,
)
    ensures
        with_remotes(t, a + b) == with_remotes(with_remotes(t, a), b),
        with_remotes(t, Seq::<(Seq<char>, Dependency)>::empty()) == t,
        a.len() == 1 ==> with_remotes(t, a) == with_remote(t, a[0]),
    decreases b.len(),
{
    let both = a + b;
    if b.len() == 0 {
        assert(both =~= a);
    } else {
        law_remotes_are_applied_in_order(t, a, b.drop_last());
        assert(both.drop_last() =~= a + b.drop_last());
        assert(both.last() == b.last());
    }
    if a.len() == 1 {
        reveal_with_fuel(with_remotes, 2);
        assert(a.drop_last() =~= seq![]);
    }
}

/// The first entry about R tells the requirement on its version. Entries about other
/// packages before it have no bearing, also where their names begin with an R.
pub proof fn law_requirement_on_r(
    before: Seq<char>,
    gap: Seq<char>,
    requirement: Seq<char>,
    after: Seq<char>,
    rest: Seq<Seq<char>>,
)
    requires
        strings::all_white(before),
        strings::all_white(gap),
        strings::all_white(after),
    ensures
        ({
            let entry = before + (seq!['R'] + gap + seq!['('] + requirement + seq![')']) + after;
            let asked = strings::without_white(requirement);
            r_requirement(seq![entry] + rest) == (if asked.len() > 0 {
                Some(asked)
            } else {
                None
            })
        }),
        r_requirement(seq![before + seq!['R'] + after] + rest) is None,
        r_requirement(Seq::<Seq<char>>::empty()) is None,
{
    reveal_strlit("R");
    let m = seq!['R'] + gap + seq!['('] + requirement + seq![')'];
    let entry = before + m + after;
    assert(m[0] == 'R' && m.last() == ')');
    strings::law_trim_takes_white_space_away(before, m, after);
    let entries = seq![entry] + rest;
    assert(entries[0] == entry);
    assert(m.take(1) =~= "R"@);
    let body = m.skip(1);
    let tail = seq!['('] + requirement + seq![')'];
    assert(body =~= gap + tail + Seq::<char>::empty());
    assert(tail[0] == '(' && tail.last() == ')');
    strings::law_trim_takes_white_space_away(gap, tail, Seq::<char>::empty());
    assert(is_r_entry(m));
    let head = seq!['R'] + gap;
    assert(!head.contains('(')) by {
        if head.contains('(') {
            let i = choose|i: int| 0 <= i < head.len() && head[i] == '(';
            if i > 0 {
                assert(strings::is_white(gap[i - 1]));
            }
        }
    }
    assert(m =~= head + seq!['('] + (requirement + seq![')']));
    lemma_opens_after(head, requirement + seq![')']);
    strings::lemma_last_at_is(m, ')', m.len() - 1);
    assert(m.subrange(head.len() as int + 1, m.len() - 1) =~= requirement);
    // R alone asks for nothing.
    let alone = before + seq!['R'] + after;
    strings::law_trim_takes_white_space_away(before, seq!['R'], after);
    let single = seq![alone] + rest;
    assert(single[0] == alone);
    assert(seq!['R'].take(1) =~= "R"@);
    assert(seq!['R'].skip(1) =~= seq![]);
    strings::lemma_trim_trimmed(seq![]);
    lemma_opens_after(seq!['R'], seq![]);
    assert(!seq!['R'].contains('('));
}

/// An entry that is not about R is passed over: one that does not begin with an R, and
/// one that goes on after the R with neither white space nor a parenthesis.
pub proof fn law_other_entries_say_nothing_of_r(
    before: Seq<char>,
    entry: Seq<char>,
    after: Seq<char>,
    rest: Seq<Seq<char>>,
)
    requires
        strings::all_white(before),
        strings::all_white(after),
        strings::is_trimmed(entry),
        entry.len() == 0 || entry[0] != 'R' || (entry.len() > 1 && entry[1] != '('
            && !strings::is_white(entry[1])),
    ensures
        r_requirement(seq![before + entry + after] + rest) == r_requirement(rest),
{
    reveal_strlit("R");
    strings::law_trim_takes_white_space_away(before, entry, after);
    let entries = seq![before + entry + after] + rest;
    assert(entries[0] == before + entry + after);
    assert(entries.skip(1) =~= rest);
    assert(!is_r_entry(entry)) by {
        if strings::starts_with(entry, "R"@) {
            assert(entry.take(1)[0] == 'R');
            let body = entry.skip(1);
            assert(body[0] == entry[1]);
            assert(body.last() == entry.last());
            strings::lemma_trim_trimmed(body);
        }
    }
}

/// A remote is about the package of its own name where a table holds it. Where none
/// does, the name without one of the endings `-r`, `_r` and `.r`, in small letters or
/// capitals, is meant if a table holds that. Otherwise its own name stands.
pub proof fn law_remote_finds_its_package(t: Tables, base: Seq<char>, sep: char, r: char)
    requires
        sep == '-' || sep == '_' || sep == '.',
        r == 'r' || r == 'R',
    ensures
        ({
            let held = |n: Seq<char>|
                t.dependencies.contains_key(n) || t.dev_dependencies.contains_key(n);
            let url = base + seq![sep, r];
            &&& held(base) ==> bound_name(base, t) == base
            &&& held(url) ==> bound_name(url, t) == url
            &&& !held(url) && base.len() > 0 && held(base) ==> bound_name(url, t) == base
            &&& !held(url) && !held(base) ==> bound_name(url, t) == url
            &&& base.len() == 0 ==> bound_name(url, t) == url
        }),
{
    let url = base + seq![sep, r];
    let all = companion_suffixes();
    reveal_strlit("-r");
    reveal_strlit("_r");
    reveal_strlit(".r");
    reveal_strlit("-R");
    reveal_strlit("_R");
    reveal_strlit(".R");
    reveal_with_fuel(companion_of, 7);
    let end = url.skip(url.len() - 2);
    assert(end =~= seq![sep, r]);
    assert(url.take(url.len() - 2) =~= base);
    assert forall|i: int| 0 <= i < 6 implies #[trigger] all[i].len() == 2 && (strings::ends_with(
        url,
        all[i],
    ) ==> all[i][0] == sep && all[i][1] == r) by {
        if strings::ends_with(url, all[i]) {
            assert(end == all[i]);
        }
    }
    let i = if r == 'r' {
        if sep == '-' {
            0
        } else if sep == '_' {
            1
        } else {
            2int
        }
    } else {
        if sep == '-' {
            3
        } else if sep == '_' {
            4
        } else {
            5
        }
    };
    assert(end =~= all[i]);
    assert(strings::strip_suffix(url, all[i]) == Some(base));
    assert(all.skip(1)[0] == all[1]);
    assert(all.skip(1).skip(1)[0] == all[2]);
    assert(all.skip(1).skip(1).skip(1)[0] == all[3]);
    assert(all.skip(1).skip(1).skip(1).skip(1)[0] == all[4]);
    assert(all.skip(1).skip(1).skip(1).skip(1).skip(1)[0] == all[5]);
}

/// A name that ends in none of the endings stands.
pub proof fn law_other_names_stand(t: Tables, url: Seq<char>)
    requires
        url.len() < 2 || (url.last() != 'r' && url.last() != 'R') || (url[url.len() - 2] != '-'
            && url[url.len() - 2] != '_' && url[url.len() - 2] != '.'),
    ensures
        bound_name(url, t) == url,
{
    reveal_strlit("-r");
    reveal_strlit("_r");
    reveal_strlit(".r");
    reveal_strlit("-R");
    reveal_strlit("_R");
    reveal_strlit(".R");
    reveal_with_fuel(companion_of, 7);
    let all = companion_suffixes();
    assert forall|i: int| 0 <= i < 6 implies !strings::ends_with(url, #[trigger] all[i]) by {
        if strings::ends_with(url, all[i]) {
            let end = url.skip(url.len() - all[i].len());
            assert(end[0] == url[url.len() - 2] && end[1] == url.last());
        }
    }
    assert(all.skip(1)[0] == all[1]);
    assert(all.skip(1).skip(1)[0] == all[2]);
    assert(all.skip(1).skip(1).skip(1)[0] == all[3]);
    assert(all.skip(1).skip(1).skip(1).skip(1)[0] == all[4]);
    assert(all.skip(1).skip(1).skip(1).skip(1).skip(1)[0] == all[5]);
}

/// What follows the last closing parenthesis of an entry says nothing, and an entry that
/// nothing closes asks for all that follows the opening one. Without a name before it
/// there is no package.
pub proof fn law_ends_of_a_requirement(
    name: Seq<char>,
    gap: Seq<char>,
    requirement: Seq<char>,
    rest: Seq<char>,
)
    requires
        strings::all_white(gap),
        name.len() > 0,
        strings::is_trimmed(name),
        !name.contains('('),
        strings::is_trimmed(rest),
        rest.len() > 0,
        !rest.contains(')'),
    ensures
        dep_entry(name + gap + seq!['('] + requirement + seq![')'] + rest) == Some(
            (name, Dependency::Version(strings::without_white(requirement))),
        ),
        !name.contains(')') ==> dep_entry(name + gap + seq!['('] + rest) == Some(
            (name, Dependency::Version(strings::without_white(rest))),
        ),
        dep_entry(seq!['('] + rest) is None,
{
    let head = name + gap;
    assert(!head.contains('(')) by {
        if head.contains('(') {
            let i = choose|i: int| 0 <= i < head.len() && head[i] == '(';
            if i < name.len() {
                assert(name.contains(name[i]));
            } else {
                assert(strings::is_white(gap[i - name.len()]));
            }
        }
    }
    let open = head.len() as int;
    assert(head =~= Seq::<char>::empty() + name + gap);
    strings::law_trim_takes_white_space_away(Seq::<char>::empty(), name, gap);
    // Something after the closing parenthesis.
    let m = name + gap + seq!['('] + requirement + seq![')'] + rest;
    assert(m[0] == name[0] && m.last() == rest.last());
    strings::lemma_trim_trimmed(m);
    let tail = requirement + seq![')'] + rest;
    assert(m =~= head + seq!['('] + tail);
    lemma_opens_after(head, tail);
    let close = open + 1 + requirement.len();
    assert(m[close] == ')');
    assert forall|j: int| close < j < m.len() implies m[j] != ')' by {
        assert(m[j] == rest[j - close - 1]);
        assert(rest.contains(rest[j - close - 1]));
    }
    strings::lemma_last_at_is(m, ')', close);
    assert(m.take(open) =~= head);
    assert(m.subrange(open + 1, close) =~= requirement);
    // Nothing that closes.
    let u = name + gap + seq!['('] + rest;
    assert(u[0] == name[0] && u.last() == rest.last());
    strings::lemma_trim_trimmed(u);
    assert(u =~= head + seq!['('] + rest);
    lemma_opens_after(head, rest);
    if !name.contains(')') {
        assert forall|j: int| -1 < j < u.len() implies u[j] != ')' by {
            if j < name.len() {
                assert(name.contains(name[j]));
            } else if j < open {
                assert(strings::is_white(gap[j - name.len()]));
            } else if j > open {
                assert(rest.contains(rest[j - open - 1]));
            }
        }
        strings::lemma_last_at_is(u, ')', -1);
        assert(u.take(open) =~= head);
        assert(u.subrange(open + 1, u.len() as int) =~= rest);
    }
    // No name.
    let w = seq!['('] + rest;
    assert(w[0] == '(' && w.last() == rest.last());
    strings::lemma_trim_trimmed(w);
    assert(w =~= Seq::<char>::empty() + seq!['('] + rest);
    lemma_opens_after(Seq::<char>::empty(), rest);
    assert(w.take(0) =~= seq![]);
    strings::lemma_trim_trimmed(seq![]);
}

/// A field is readable where its entries are, and an entry is where no opening
/// parenthesis comes only after all the closing ones.
pub proof fn law_what_can_be_read(left: Seq<char>, right: Seq<char>, a: Seq<char>, b: Seq<char>)
    ensures
        is_readable_field(left + seq![','] + right) <==> is_readable_field(left)
            && is_readable_field(right),
        !left.contains('(') || !left.contains(')') ==> closes_in_order(left),
        !a.contains('(') && !b.contains(')') ==> !closes_in_order(a + seq![')', '('] + b),
        !a.contains('(') && !b.contains(')') ==> closes_in_order(a + seq!['(', ')'] + b),
{
    let x = strings::split(left, ',');
    let y = strings::split(right, ',');
    let all = strings::split(left + seq![','] + right, ',');
    strings::lemma_split_between(left, ',', right);
    assert(all == x + y);
    if is_readable_field(left + seq![','] + right) {
        assert forall|i: int| 0 <= i < x.len() implies closes_in_order(
            strings::trim(#[trigger] x[i]),
        ) by {
            assert(all[i] == x[i]);
        }
        assert forall|i: int| 0 <= i < y.len() implies closes_in_order(
            strings::trim(#[trigger] y[i]),
        ) by {
            assert(all[x.len() + i] == y[i]);
        }
    }
    if is_readable_field(left) && is_readable_field(right) {
        assert forall|i: int| 0 <= i < all.len() implies closes_in_order(
            strings::trim(#[trigger] all[i]),
        ) by {
            if i < x.len() {
                assert(all[i] == x[i]);
            } else {
                assert(all[i] == y[i - x.len()]);
            }
        }
    }
    strings::lemma_first_at(left, '(');
    strings::lemma_last_at(left, ')');
    if strings::first_at(left, '(') < left.len() && strings::last_at(left, ')') >= 0 {
        assert(left.contains('('));
        assert(left.contains(')'));
    }
    if !a.contains('(') && !b.contains(')') {
        let n = a.len() as int;
        let s = a + seq![')', '('] + b;
        let t = a + seq!['(', ')'] + b;
        assert(s[n] == ')' && s[n + 1] == '(' && t[n] == '(' && t[n + 1] == ')');
        assert forall|j: int| 0 <= j < n implies s[j] != '(' && t[j] != '(' by {
            assert(a.contains(a[j]));
        }
        assert forall|j: int| n + 2 <= j < s.len() implies s[j] != ')' && t[j] != ')' by {
            assert(b.contains(b[j - n - 2]));
        }
        strings::lemma_first_at_is(s, '(', n + 1);
        strings::lemma_last_at_is(s, ')', n);
        strings::lemma_first_at_is(t, '(', n);
        strings::lemma_last_at_is(t, ')', n + 1);
    }
}

/// An entry that goes on after the R with white space and then with anything but a
/// parenthesis is not about R.
pub proof fn law_other_word_after_r(gap: Seq<char>, word: Seq<char>, rest: Seq<Seq<char>>)
    requires
        strings::all_white(gap),
        strings::is_trimmed(word),
        word.len() > 0,
        word[0] != '(',
    ensures
        r_requirement(seq![seq!['R'] + gap + word] + rest) == r_requirement(rest),
{
    reveal_strlit("R");
    let entry = seq!['R'] + gap + word;
    let entries = seq![entry] + rest;
    assert(entries[0] == entry);
    assert(entries.skip(1) =~= rest);
    assert(entry[0] == 'R' && entry.last() == word.last());
    strings::lemma_trim_trimmed(entry);
    assert(entry.take(1) =~= "R"@);
    assert(entry.skip(1) =~= gap + word + Seq::<char>::empty());
    strings::law_trim_takes_white_space_away(gap, word, Seq::<char>::empty());
}

/// The version that a table asks of a package: a requirement that is not `*`.
pub proof fn law_version_that_is_asked(
    m: Map<Seq<char>, Dependency>,
    name: Seq<char>,
    v: Seq<char>,
    d: Detail,
)
    ensures
        v != seq!['*'] ==> asked_version(m.insert(name, Dependency::Version(v)), name) == Some(v),
        asked_version(m.insert(name, Dependency::Version(seq!['*'])), name) is None,
        d.version is None ==> asked_version(m.insert(name, Dependency::Detailed(d)), name) is None,
        d.version == Some(v) && v != seq!['*'] ==> asked_version(
            m.insert(name, Dependency::Detailed(d)),
            name,
        ) == Some(v),
        asked_version(m.remove(name), name) is None,
{
    reveal_strlit("*");
    assert("*"@ =~= seq!['*']);
}

/// A remote that asks for a version itself stands as it is, in each table that holds its
/// name.
pub proof fn law_remote_with_a_version_stands(t: Tables, url: Seq<char>, d: Detail)
    requires
        d.version is Some,
    ensures
        ({
            let name = bound_name(url, t);
            let after = with_remote(t, (url, Dependency::Detailed(d)));
            &&& after.dependencies.contains_key(name) ==> after.dependencies[name]
                == Dependency::Detailed(d)
            &&& after.dev_dependencies.contains_key(name) ==> after.dev_dependencies[name]
                == Dependency::Detailed(d)
            &&& after.dependencies.contains_key(name) || after.dev_dependencies.contains_key(name)
        }),
{
}

/// A description can be read where each of its three dependency fields can, if it is
/// there, and no other field has a bearing.
pub proof fn law_fields_that_must_be_readable(
    fields: Map<Seq<char>, Seq<char>>,
    name: Seq<char>,
    value: Seq<char>,
)
    ensures
        (name == "Imports"@ || name == "Depends"@ || name == "Suggests"@) && is_readable(
            fields.insert(name, value),
        ) ==> is_readable_field(value),
        (name == "Imports"@ || name == "Depends"@ || name == "Suggests"@) && is_readable(
            fields.remove(name),
        ) && is_readable_field(value) ==> is_readable(fields.insert(name, value)),
        name != "Imports"@ && name != "Depends"@ && name != "Suggests"@ ==> is_readable(
            fields.insert(name, value),
        ) == is_readable(fields),
        is_readable(Map::<Seq<char>, Seq<char>>::empty()),
{
    let with = fields.insert(name, value);
    let without = fields.remove(name);
    assert(field_of(with, name) == Some(value));
    assert forall|k: Seq<char>| k != name implies #[trigger] field_of(with, k) == field_of(
        without,
        k,
    ) && field_of(with, k) == field_of(fields, k) by {}
}

} // verus!
