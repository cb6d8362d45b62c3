//! The package index of CRAN, whose format Bioconductor shares.

use vstd::prelude::*;

use crate::dcf;
use crate::manifest::description;
use crate::registry::{Dep, Need};
use crate::resolver;
use crate::resolver::{Requirement, Version, VersionParts, VersionReq};
use crate::strings;
use crate::strmap::StrMap;
use crate::text;

verus! {

/// A package that another one names in a dependency field.
#[derive(Debug, PartialEq, Eq)]
pub struct FieldDep {
    pub name: String,
    pub req: Option<VersionReq>,
}

/// What a [`FieldDep`] holds.
pub struct FieldNeed {
    pub name: Seq<char>,
    pub req: Option<Requirement>,
}

impl DeepView for FieldDep {
    type V = FieldNeed;

    open spec fn deep_view(&self) -> FieldNeed {
        FieldNeed { name: self.name@, req: self.req.deep_view() }
    }
}

/// A package of the index.
#[derive(Debug, PartialEq, Eq)]
pub struct CranPackageEntry {
    pub name: String,
    pub version: Version,
    pub raw_version: String,
    pub depends: Vec<FieldDep>,
    pub imports: Vec<FieldDep>,
    pub linking_to: Vec<FieldDep>,
    pub md5sum: String,
    pub system_requirements: Option<String>,
    pub path: Option<String>,
    pub built: Option<String>,
}

/// What a [`CranPackageEntry`] holds.
pub struct IndexEntry {
    pub name: Seq<char>,
    pub version: VersionParts,
    pub raw_version: Seq<char>,
    pub depends: Seq<FieldNeed>,
    pub imports: Seq<FieldNeed>,
    pub linking_to: Seq<FieldNeed>,
    pub md5sum: Seq<char>,
    pub system_requirements: Option<Seq<char>>,
    pub path: Option<Seq<char>>,
    pub built: Option<Seq<char>>,
}

impl DeepView for CranPackageEntry {
    type V = IndexEntry;

    open spec fn deep_view(&self) -> IndexEntry {
        IndexEntry {
            name: self.name@,
            version: self.version.deep_view(),
            raw_version: self.raw_version@,
            depends: self.depends.deep_view(),
            imports: self.imports.deep_view(),
            linking_to: self.linking_to.deep_view(),
            md5sum: self.md5sum@,
            system_requirements: self.system_requirements.deep_view(),
            path: self.path.deep_view(),
            built: self.built.deep_view(),
        }
    }
}

/// What the parentheses of an entry hold: what stands between the first opening
/// one and the first closing one after it, without white space.
pub open spec fn requirement_in(entry: Seq<char>) -> Option<Seq<char>> {
    match strings::split_once(entry, '(') {
        Some((_, rest)) => Some(strings::without_white(strings::before(rest, ')'))),
        None => None,
    }
}

/// The package that one entry of a dependency field names, with the requirement as
/// it is written and as it is shown. A requirement that is none is dropped.
pub open spec fn need_of(raw: Seq<char>) -> Option<FieldNeed> {
    let entry = strings::trim(raw);
    let name = strings::trim(strings::before(entry, '('));
    if name.len() == 0 {
        None
    } else {
        Some(
            FieldNeed {
                name,
                req: match requirement_in(entry) {
                    Some(text) => match resolver::semver_requirement(text) {
                        Ok(shown) => Some(Requirement { text, shown }),
                        Err(_) => None,
                    },
                    None => None,
                },
            },
        )
    }
}

/// The packages that the entries name, in their order.
pub open spec fn needs_of(entries: Seq<Seq<char>>) -> Seq<FieldNeed>
    decreases entries.len(),
{
    if entries.len() == 0 {
        seq![]
    } else {
        let before = needs_of(entries.drop_last());
        match need_of(entries.last()) {
            Some(n) => before.push(n),
            None => before,
        }
    }
}

/// Reads one entry of a dependency field.
fn parse_entry(raw: &[char]) -> (r: Option<FieldDep>)
    ensures
        r.deep_view() == need_of(raw@),
{
    let entry = text::trim(raw);
    let name = text::string_of(text::trim(text::before(entry, '(')));
    if name.as_str().is_empty() {
        return None;
    }
    let req = match text::split_once(entry, '(') {
        Some((_, rest)) => {
            let c = text::without_white(text::before(rest, ')'));
            match resolver::parse_version_req(c.as_str()) {
                Ok(q) => Some(q),
                Err(_) => None,
            }
        },
        None => None,
    };
    Some(FieldDep { name, req })
}

/// Reads a dependency field of the index.
pub fn parse_dep_field(field: &str) -> (r: Vec<FieldDep>)
    ensures
        r.deep_view() == needs_of(strings::split(field@, ',')),
{
    let cs = text::chars_of(field);
    let entries = text::split(cs.as_slice(), ',');
    let ghost all = text::views(entries@);
    let mut out: Vec<FieldDep> = Vec::new();
    let mut i: usize = 0;
    assert(out.deep_view() =~= needs_of(all.take(0)));
    while i < entries.len()
        invariant
            i <= entries@.len(),
            all == text::views(entries@),
            out.deep_view() == needs_of(all.take(i as int)),
        decreases entries@.len() - i,
    {
        assert(all.take(i + 1).drop_last() =~= all.take(i as int));
        assert(all.take(i + 1).last() == entries@[i as int]@);
        let ghost before = out.deep_view();
        if let Some(d) = parse_entry(entries[i]) {
            out.push(d);
            assert(out.deep_view() =~= before.push(d.deep_view()));
        }
        i += 1;
    }
    assert(all.take(i as int) =~= all);
    out
}

/// A package that is named in a dependency field as a need: the requirement is told
/// as it is shown.
pub open spec fn as_need(n: FieldNeed) -> Need {
    Need {
        name: n.name,
        constraint: match n.req {
            Some(q) => Some(q.shown),
            None => None,
        },
    }
}

/// The needs but for packages that come with R.
pub open spec fn without_base(needs: Seq<FieldNeed>) -> Seq<Need>
    decreases needs.len(),
{
    if needs.len() == 0 {
        seq![]
    } else {
        let before = without_base(needs.drop_last());
        if resolver::is_base(needs.last().name) {
            before
        } else {
            before.push(as_need(needs.last()))
        }
    }
}

/// Adds the packages to `out`, but for those that come with R.
pub fn push_needs(out: &mut Vec<Dep>, deps: &Vec<FieldDep>)
    ensures
        final(out).deep_view() == old(out).deep_view() + without_base(deps.deep_view()),
{
    let ghost all = deps.deep_view();
    let ghost start = out.deep_view();
    let mut i: usize = 0;
    assert(start + without_base(all.take(0)) =~= start);
    while i < deps.len()
        invariant
            i <= deps@.len(),
            all == deps.deep_view(),
            out.deep_view() == start + without_base(all.take(i as int)),
        decreases deps@.len() - i,
    {
        assert(all.take(i + 1).drop_last() =~= all.take(i as int));
        assert(all.take(i + 1).last() == deps@[i as int].deep_view());
        let ghost before = out.deep_view();
        if !resolver::is_base_package(deps[i].name.as_str()) {
            let dep = Dep {
                name: deps[i].name.clone(),
                constraint: match &deps[i].req {
                    Some(q) => Some(q.shown.clone()),
                    None => None,
                },
            };
            out.push(dep);
            assert(out.deep_view() =~= before.push(dep.deep_view()));
            assert(before.push(dep.deep_view()) =~= start + without_base(all.take(i + 1)));
        }
        i += 1;
    }
    assert(all.take(i as int) =~= all);
}

impl CranPackageEntry {
    /// What the package needs, but for packages that come with R.
    pub fn requires_as_deps(&self) -> (r: Vec<Dep>)
        ensures
            r.deep_view() == without_base(self.depends.deep_view()) + without_base(
                self.imports.deep_view(),
            ) + without_base(self.linking_to.deep_view()),
    {
        let mut out: Vec<Dep> = Vec::new();
        assert(out.deep_view() =~= seq![]);
        push_needs(&mut out, &self.depends);
        push_needs(&mut out, &self.imports);
        push_needs(&mut out, &self.linking_to);
        assert(out.deep_view() =~= without_base(self.depends.deep_view()) + without_base(
            self.imports.deep_view(),
        ) + without_base(self.linking_to.deep_view()));
        out
    }
}

/// The needs of a field, none where there is no such field.
pub open spec fn field_needs(fields: Map<Seq<char>, Seq<char>>, name: Seq<char>) -> Seq<FieldNeed> {
    match description::field_of(fields, name) {
        Some(v) => needs_of(strings::split(v, ',')),
        None => seq![],
    }
}

/// The package that a block of the index is about. It has a name and a version.
pub open spec fn index_entry(block: Seq<char>) -> Option<IndexEntry> {
    let f = dcf::dcf_fields(block);
    match (description::field_of(f, "Package"@), description::field_of(f, "Version"@)) {
        (Some(name), Some(raw_version)) => Some(
            IndexEntry {
                name,
                version: resolver::package_version(raw_version),
                raw_version,
                depends: field_needs(f, "Depends"@),
                imports: field_needs(f, "Imports"@),
                linking_to: field_needs(f, "LinkingTo"@),
                md5sum: match description::field_of(f, "MD5sum"@) {
                    Some(v) => v,
                    None => ""@,
                },
                system_requirements: description::field_of(f, "SystemRequirements"@),
                path: description::field_of(f, "Path"@),
                built: description::field_of(f, "Built"@),
            },
        ),
        _ => None,
    }
}

/// The needs of a field.
fn read_field_needs(fields: &StrMap<String>, name: &str) -> (r: Vec<FieldDep>)
    ensures
        r.deep_view() == field_needs(fields.deep_view(), name@),
{
    match fields.get(name) {
        Some(v) => parse_dep_field(v.as_str()),
        None => {
            let r: Vec<FieldDep> = Vec::new();
            assert(r.deep_view() =~= seq![]);
            r
        },
    }
}

/// The value of a field.
fn read_field(fields: &StrMap<String>, name: &str) -> (r: Option<String>)
    ensures
        r.deep_view() == description::field_of(fields.deep_view(), name@),
{
    match fields.get(name) {
        Some(v) => Some(v.clone()),
        None => None,
    }
}

/// Reads a block of the index.
pub fn parse_dcf_block(block: &str) -> (r: Option<CranPackageEntry>)
    ensures
        r.deep_view() == index_entry(block@),
{
    let fields = dcf::parse_dcf_fields(block);
    let name = read_field(&fields, "Package");
    let raw_version = read_field(&fields, "Version");
    match (name, raw_version) {
        (Some(name), Some(raw_version)) => {
            let version = resolver::parse_package_version(raw_version.as_str());
            Some(
                CranPackageEntry {
                    name,
                    version,
                    raw_version,
                    depends: read_field_needs(&fields, "Depends"),
                    imports: read_field_needs(&fields, "Imports"),
                    linking_to: read_field_needs(&fields, "LinkingTo"),
                    md5sum: match read_field(&fields, "MD5sum") {
                        Some(v) => v,
                        None => "".to_owned(),
                    },
                    system_requirements: read_field(&fields, "SystemRequirements"),
                    path: read_field(&fields, "Path"),
                    built: read_field(&fields, "Built"),
                },
            )
        },
        _ => None,
    }
}

/// An entry `name (requirement)` of the index needs the package, with the requirement
/// where it is one. What the parentheses hold counts without its white space, up to the
/// first closing one.
pub proof fn law_entry_with_a_requirement(
    before: Seq<char>,
    name: Seq<char>,
    gap: Seq<char>,
    requirement: Seq<char>,
    rest: Seq<char>,
)
    requires
        strings::all_white(before),
        strings::all_white(gap),
        strings::is_trimmed(name),
        name.len() > 0,
        !name.contains('('),
        !requirement.contains(')'),
        rest.len() > 0 ==> !strings::is_white(rest.last()),
    ensures
        ({
            let entry = before + (name + gap + seq!['('] + requirement + seq![')'] + rest)
                + Seq::<char>::empty();
            let text = strings::without_white(requirement);
            &&& need_of(entry) matches Some(n)
            &&& n.name == name
            &&& resolver::semver_requirement(text) matches Ok(shown) ==> n.req == Some(
                Requirement { text, shown },
            )
            &&& resolver::semver_requirement(text) is Err ==> n.req is None
        }),
{
    let m = name + gap + seq!['('] + requirement + seq![')'] + rest;
    assert(strings::is_trimmed(m)) by {
        assert(m[0] == name[0]);
        if rest.len() > 0 {
            assert(m.last() == rest.last());
        } else {
            assert(m.last() == ')');
        }
    }
    strings::law_trim_takes_white_space_away(before, m, seq![]);
    let head = name + gap;
    let tail = requirement + seq![')'] + rest;
    assert(m =~= head + seq!['('] + tail);
    assert forall|j: int| 0 <= j < head.len() implies m[j] != '(' by {
        assert(m[j] == head[j]);
        if j < name.len() {
            assert(name.contains(name[j]));
        } else {
            assert(strings::is_white(gap[j - name.len()]));
        }
    }
    strings::lemma_first_at_is(m, '(', head.len() as int);
    assert(m.take(head.len() as int) =~= Seq::<char>::empty() + name + gap);
    strings::law_trim_takes_white_space_away(seq![], name, gap);
    assert(m.skip(head.len() as int + 1) =~= tail);
    assert forall|j: int| 0 <= j < requirement.len() implies tail[j] != ')' by {
        assert(requirement.contains(requirement[j]));
        assert(tail[j] == requirement[j]);
    }
    strings::lemma_first_at_is(tail, ')', requirement.len() as int);
    assert(tail.take(requirement.len() as int) =~= requirement);
}

/// An entry of the index without parentheses needs the package in any version. An
/// empty one needs none.
pub proof fn law_entry_without_a_requirement(
    before: Seq<char>,
    name: Seq<char>,
    after: Seq<char>,
)
    requires
        strings::all_white(before),
        strings::all_white(after),
        strings::is_trimmed(name),
        !name.contains('('),
    ensures
        name.len() > 0 ==> need_of(before + name + after) == Some(FieldNeed { name, req: None }),
        name.len() == 0 ==> need_of(before + name + after) is None,
{
    strings::law_trim_takes_white_space_away(before, name, after);
    assert forall|j: int| 0 <= j < name.len() implies name[j] != '(' by {
        assert(name.contains(name[j]));
    }
    strings::lemma_first_at_is(name, '(', name.len() as int);
    assert(name.take(name.len() as int) =~= name);
    strings::lemma_trim_trimmed(name);
}

/// The entries of a field of the index are read one by one.
pub proof fn law_needs_one_by_one(a: Seq<Seq<char>>, b: Seq<Seq<char>>)
    ensures
        needs_of(a + b) == needs_of(a) + needs_of(b),
        a.len() == 1 ==> needs_of(a) == (match need_of(a[0]) {
            Some(n) => seq![n],
            None => seq![],
        }),
    decreases b.len(),
{
    let both = a + b;
    if b.len() == 0 {
        assert(both =~= a);
        assert(needs_of(a) + needs_of(b) =~= needs_of(a));
    } else {
        law_needs_one_by_one(a, b.drop_last());
        assert(both.drop_last() =~= a + b.drop_last());
        assert(both.last() == b.last());
        assert(needs_of(both) =~= needs_of(a) + needs_of(b));
    }
    if a.len() == 1 {
        reveal_with_fuel(needs_of, 2);
        assert(a.drop_last() =~= seq![]);
        assert(needs_of(a) =~= match need_of(a[0]) {
            Some(n) => seq![n],
            None => seq![],
        });
    }
}

/// A package is needed unless it comes with R, and then with its requirement as it is
/// shown. The order stays.
pub proof fn law_only_base_packages_are_left_out(a: Seq<FieldNeed>, b: Seq<FieldNeed>)
    ensures
        without_base(a + b) == without_base(a) + without_base(b),
        a.len() == 1 && resolver::is_base(a[0].name) ==> without_base(a).len() == 0,
        a.len() == 1 && !resolver::is_base(a[0].name) ==> {
            &&& without_base(a).len() == 1
            &&& without_base(a)[0].name == a[0].name
            &&& a[0].req matches Some(q) ==> without_base(a)[0].constraint == Some(q.shown)
            &&& a[0].req is None ==> without_base(a)[0].constraint is None
        },
        without_base(Seq::<FieldNeed>::empty()).len() == 0,
    decreases b.len(),
{
    let both = a + b;
    if b.len() == 0 {
        assert(both =~= a);
        assert(without_base(a) + without_base(b) =~= without_base(a));
    } else {
        law_only_base_packages_are_left_out(a, b.drop_last());
        assert(both.drop_last() =~= a + b.drop_last());
        assert(both.last() == b.last());
        assert(without_base(both) =~= without_base(a) + without_base(b));
    }
    if a.len() == 1 {
        reveal_with_fuel(without_base, 2);
        assert(a.drop_last() =~= seq![]);
    }
}

/// A block of the index is about a package if and only if it has a name and a version.
/// Each field tells what it is named after.
pub proof fn law_block_tells_its_package(block: Seq<char>)
    ensures
        ({
            let f = dcf::dcf_fields(block);
            let needs = |n: Seq<char>|
                if f.contains_key(n) {
                    needs_of(strings::split(f[n], ','))
                } else {
                    seq![]
                };
            match index_entry(block) {
                Some(e) => {
                    &&& f.contains_pair("Package"@, e.name)
                    &&& f.contains_pair("Version"@, e.raw_version)
                    &&& e.version == resolver::package_version(f["Version"@])
                    &&& e.depends == needs("Depends"@)
                    &&& e.imports == needs("Imports"@)
                    &&& e.linking_to == needs("LinkingTo"@)
                    &&& e.md5sum == if f.contains_key("MD5sum"@) {
                        f["MD5sum"@]
                    } else {
                        seq![]
                    }
                    &&& e.system_requirements is Some == f.contains_key("SystemRequirements"@)
                    &&& e.system_requirements matches Some(v) ==> v == f["SystemRequirements"@]
                },
                None => !f.contains_key("Package"@) || !f.contains_key("Version"@),
            }
        }),
{
    reveal_strlit("");
    assert(""@ =~= seq![]);
}

/// A requirement that nothing closes goes to the end of its entry. An entry without a
/// name before its parenthesis needs nothing.
pub proof fn law_open_requirement(name: Seq<char>, gap: Seq<char>, requirement: Seq<char>)
    requires
        strings::all_white(gap),
        strings::is_trimmed(name),
        name.len() > 0,
        !name.contains('('),
        !requirement.contains(')'),
        strings::is_trimmed(requirement),
        requirement.len() > 0,
    ensures
        ({
            let text = strings::without_white(requirement);
            &&& need_of(name + gap + seq!['('] + requirement) matches Some(n)
            &&& n.name == name
            &&& resolver::semver_requirement(text) matches Ok(shown) ==> n.req == Some(
                Requirement { text, shown },
            )
            &&& resolver::semver_requirement(text) is Err ==> n.req is None
        }),
        need_of(seq!['('] + requirement) is None,
{
    let m = name + gap + seq!['('] + requirement;
    assert(m[0] == name[0] && m.last() == requirement.last());
    strings::lemma_trim_trimmed(m);
    let head = name + gap;
    assert forall|j: int| 0 <= j < head.len() implies m[j] != '(' by {
        assert(m[j] == head[j]);
        if j < name.len() {
            assert(name.contains(name[j]));
        } else {
            assert(strings::is_white(gap[j - name.len()]));
        }
    }
    strings::lemma_first_at_is(m, '(', head.len() as int);
    assert(m.take(head.len() as int) =~= Seq::<char>::empty() + name + gap);
    strings::law_trim_takes_white_space_away(seq![], name, gap);
    assert(m.skip(head.len() as int + 1) =~= requirement);
    assert forall|j: int| 0 <= j < requirement.len() implies requirement[j] != ')' by {
        assert(requirement.contains(requirement[j]));
    }
    strings::lemma_first_at_is(requirement, ')', requirement.len() as int);
    assert(requirement.take(requirement.len() as int) =~= requirement);
    let w = seq!['('] + requirement;
    assert(w[0] == '(' && w.last() == requirement.last());
    strings::lemma_trim_trimmed(w);
    strings::lemma_first_at_is(w, '(', 0);
    assert(w.take(0) =~= seq![]);
    strings::lemma_trim_trimmed(seq![]);
}

/// A block tells where in the repository its package is, and what it was built for,
/// where it has such fields.
pub proof fn law_block_tells_its_place(block: Seq<char>)
    ensures
        ({
            let f = dcf::dcf_fields(block);
            index_entry(block) matches Some(e) ==> {
                &&& e.path is Some <==> f.contains_key("Path"@)
                &&& e.path matches Some(v) ==> v == f["Path"@]
                &&& e.built is Some <==> f.contains_key("Built"@)
                &&& e.built matches Some(v) ==> v == f["Built"@]
            }
        }),
{
}

} // verus!
