//! The keys of the dependency tables in `uvr.toml`.
//!
//! `[dependencies.data.table]` declares a package `data` with a key `table`, not
//! the package `data.table`. Such a manifest would be read without complaint and
//! resolve the wrong package, so it is refused with advice.

use vstd::prelude::*;

use crate::error::UvrError;
use crate::strings;
use crate::text;

verus! {

/// What a TOML value holds, as far as the manifest's keys go.
pub enum TomlTree {
    Text(Seq<char>),
    Flag(bool),
    Table(Seq<(Seq<char>, TomlTree)>),
    Other,
}

/// A TOML value, as far as the manifest's keys go.
#[derive(Debug, PartialEq, Eq)]
pub enum TomlNode {
    Text(String),
    Flag(bool),
    /// The keys with their values, in order.
    Table(Vec<(String, TomlNode)>),
    Other,
}

/// What the entries of a table hold.
pub open spec fn entries_tree(entries: Seq<(String, TomlNode)>) -> Seq<(Seq<char>, TomlTree)>
    decreases entries,
{
    Seq::new(
        entries.len(),
        |i: int|
            (
                entries[i].0@,
                if 0 <= i < entries.len() {
                    tree_of(entries[i].1)
                } else {
                    TomlTree::Other
                },
            ),
    )
}

/// What a node holds.
pub open spec fn tree_of(n: TomlNode) -> TomlTree
    decreases n,
{
    match n {
        TomlNode::Text(s) => TomlTree::Text(s@),
        TomlNode::Flag(b) => TomlTree::Flag(b),
        TomlNode::Table(entries) => TomlTree::Table(entries_tree(entries@)),
        TomlNode::Other => TomlTree::Other,
    }
}

/// A TOML value of the crate `toml`.
#[verifier::external_type_specification]
#[verifier::external_body]
pub struct ExTomlValue(toml::Value);

/// What `toml::from_str` makes of a text: the document, or the message that
/// refuses it.
pub uninterp spec fn toml_document(text: Seq<char>) -> Result<TomlTree, Seq<char>>;

/// What a TOML value holds.
pub uninterp spec fn toml_tree(v: toml::Value) -> TomlTree;

/// `toml::from_str`, for a `toml::Value`: a function of the text alone. An error
/// is told by its message.
#[verifier::external_body]
fn read_value(s: &str) -> (r: Result<toml::Value, String>)
    ensures
        match r {
            Ok(v) => toml_document(s@) == Ok::<TomlTree, Seq<char>>(toml_tree(v)),
            Err(m) => toml_document(s@) == Err::<TomlTree, Seq<char>>(m@),
        },
{
    toml::from_str::<toml::Value>(s).map_err(|e| e.to_string())
}

/// The outermost layer of a TOML value.
enum Layer {
    Text(String),
    Flag(bool),
    Table(Vec<(String, toml::Value)>),
    Other,
}

/// The variants of `toml::Value`. A table hands its entries out in the order in
/// which `toml::Table` iterates.
#[verifier::external_body]
fn layer_of(v: toml::Value) -> (r: Layer)
    ensures
        match r {
            Layer::Text(s) => toml_tree(v) == TomlTree::Text(s@),
            Layer::Flag(b) => toml_tree(v) == TomlTree::Flag(b),
            Layer::Table(entries) => toml_tree(v) == TomlTree::Table(
                Seq::new(
                    entries@.len(),
                    |i: int| (entries@[i].0@, toml_tree(entries@[i].1)),
                ),
            ),
            Layer::Other => toml_tree(v) == TomlTree::Other,
        },
{
    match v {
        toml::Value::String(s) => Layer::Text(s),
        toml::Value::Boolean(b) => Layer::Flag(b),
        toml::Value::Table(t) => Layer::Table(t.into_iter().collect()),
        toml::Value::Integer(_) => Layer::Other,
        toml::Value::Float(_) => Layer::Other,
        toml::Value::Datetime(_) => Layer::Other,
        toml::Value::Array(_) => Layer::Other,
    }
}

/// A TOML value as a node.
fn node_of(v: toml::Value) -> (r: TomlNode)
    ensures
        tree_of(r) == toml_tree(v),
    decreases toml_tree(v),
{
    match layer_of(v) {
        Layer::Text(s) => TomlNode::Text(s),
        Layer::Flag(b) => TomlNode::Flag(b),
        Layer::Table(entries) => {
            let ghost whole = toml_tree(v);
            let ghost all = entries@;
            let mut out: Vec<(String, TomlNode)> = Vec::new();
            for e in it: entries
                invariant
                    it.seq() == all,
                    whole == toml_tree(v),
                    whole == TomlTree::Table(
                        Seq::new(all.len(), |i: int| (all[i].0@, toml_tree(all[i].1))),
                    ),
                    out@.len() == it.index(),
                    forall|j: int|
                        #![trigger out@[j]]
                        0 <= j < out@.len() ==> out@[j].0 == all[j].0 && tree_of(out@[j].1)
                            == toml_tree(all[j].1),
            {
                proof {
                    let t = whole->Table_0;
                    let i = it.index() as int;
                    assert(t[i] == (all[i].0@, toml_tree(all[i].1)));
                    assert(decreases_to!(whole => t[i].1));
                }
                let (key, value) = e;
                out.push((key, node_of(value)));
            }
            assert(entries_tree(out@) =~= whole->Table_0);
            TomlNode::Table(out)
        },
        Layer::Other => TomlNode::Other,
    }
}

/// A key of a dependency that is written as a table.
pub open spec fn is_dep_key(key: Seq<char>) -> bool {
    key == "version"@ || key == "bioc"@ || key == "git"@ || key == "rev"@
}

/// The keys of a table that are none of a dependency's, in order.
pub open spec fn unknown_keys(table: Seq<(Seq<char>, TomlTree)>) -> Seq<Seq<char>>
    decreases table.len(),
{
    if table.len() == 0 {
        seq![]
    } else {
        let before = unknown_keys(table.drop_last());
        if is_dep_key(table.last().0) {
            before
        } else {
            before.push(table.last().0)
        }
    }
}

/// The place of the first key that is none of a dependency's, or the length.
pub open spec fn first_unknown(table: Seq<(Seq<char>, TomlTree)>) -> int
    decreases table.len(),
{
    if table.len() == 0 || !is_dep_key(table[0].0) {
        0
    } else {
        1 + first_unknown(table.skip(1))
    }
}

/// A table is passed over up to its first unknown key.
proof fn lemma_first_unknown(table: Seq<(Seq<char>, TomlTree)>)
    ensures
        0 <= first_unknown(table) <= table.len(),
        forall|j: int| 0 <= j < first_unknown(table) ==> is_dep_key(#[trigger] table[j].0),
        first_unknown(table) < table.len() ==> !is_dep_key(table[first_unknown(table)].0),
    decreases table.len(),
{
    if table.len() > 0 && is_dep_key(table[0].0) {
        let rest = table.skip(1);
        lemma_first_unknown(rest);
        assert forall|j: int| 0 <= j < first_unknown(table) implies is_dep_key(
            #[trigger] table[j].0,
        ) by {
            if j > 0 {
                assert(table[j] == rest[j - 1]);
            }
        }
    }
}

/// The keys that lead down from a table, by the first unknown key of each level,
/// until a level has none or is no table.
pub open spec fn path_down(table: Seq<(Seq<char>, TomlTree)>) -> Seq<Seq<char>>
    decreases table,
{
    let i = first_unknown(table);
    if 0 <= i < table.len() {
        match table[i].1 {
            TomlTree::Table(inner) => seq![table[i].0] + path_down(inner),
            _ => seq![table[i].0],
        }
    } else {
        seq![]
    }
}

/// The package that a dotted key was meant to declare.
pub open spec fn full_name(key: Seq<char>, table: Seq<(Seq<char>, TomlTree)>) -> Seq<char> {
    strings::join(seq![key] + path_down(table), "."@)
}

/// The keys as a list: each in its `Debug` form.
pub open spec fn key_list(keys: Seq<Seq<char>>) -> Seq<char> {
    "["@ + strings::join(keys.map_values(|k: Seq<char>| text::debug_form(k)), ", "@) + "]"@
}

/// The advice for a dotted key.
pub open spec fn advice(
    section: Seq<char>,
    key: Seq<char>,
    table: Seq<(Seq<char>, TomlTree)>,
) -> Seq<char> {
    let full = full_name(key, table);
    "dependency `"@ + key + "` in ["@ + section + "] contains dotted sub-key(s): "@ + key_list(
        unknown_keys(table),
    ) + ".\n\nThis is caused by a dotted TOML key: `["@ + section + "."@ + full
        + "]` is parsed by TOML as package `"@ + key
        + "` with nested sub-keys, not as package `"@ + full
        + "`.\n\nIf you meant to declare package `"@ + full
        + "`, use a quoted key in the flat ["@ + section + "] table:\n\n\t["@ + section
        + "]\n\t\""@ + full + "\" = \"*\"\n\nOr run: uvr add "@ + full
}

/// The advice for the first dotted key of a section, if it has one.
pub open spec fn section_advice(
    section: Seq<char>,
    deps: Seq<(Seq<char>, TomlTree)>,
) -> Option<Seq<char>>
    decreases deps.len(),
{
    if deps.len() == 0 {
        None
    } else {
        match deps[0].1 {
            TomlTree::Table(inner) => if unknown_keys(inner).len() > 0 {
                Some(advice(section, deps[0].0, inner))
            } else {
                section_advice(section, deps.skip(1))
            },
            _ => section_advice(section, deps.skip(1)),
        }
    }
}

/// The value of a key in a table.
pub open spec fn value_at(table: Seq<(Seq<char>, TomlTree)>, key: Seq<char>) -> Option<TomlTree>
    decreases table.len(),
{
    if table.len() == 0 {
        None
    } else if table[0].0 == key {
        Some(table[0].1)
    } else {
        value_at(table.skip(1), key)
    }
}

/// The dependencies in a section of a document, none where it has no such table.
pub open spec fn section_of(root: TomlTree, section: Seq<char>) -> Seq<(Seq<char>, TomlTree)> {
    match root {
        TomlTree::Table(t) => match value_at(t, section) {
            Some(TomlTree::Table(deps)) => deps,
            _ => seq![],
        },
        _ => seq![],
    }
}

/// The advice for the first dotted key of a document, if it has one.
pub open spec fn document_advice(root: TomlTree) -> Option<Seq<char>> {
    match section_advice("dependencies"@, section_of(root, "dependencies"@)) {
        Some(a) => Some(a),
        None => section_advice("dev-dependencies"@, section_of(root, "dev-dependencies"@)),
    }
}

/// Whether `key` is a key of a dependency that is written as a table.
fn dep_key(key: &str) -> (r: bool)
    ensures
        r == is_dep_key(key@),
{
    text::same_str(key, "version") || text::same_str(key, "bioc") || text::same_str(key, "git")
        || text::same_str(key, "rev")
}

/// The keys of a table that are none of a dependency's, in their `Debug` form.
fn unknown_forms(table: &Vec<(String, TomlNode)>) -> (r: Vec<String>)
    ensures
        text::string_views(r@) == unknown_keys(entries_tree(table@)).map_values(
            |k: Seq<char>| text::debug_form(k),
        ),
{
    let ghost all = entries_tree(table@);
    let mut out: Vec<String> = Vec::new();
    let mut i: usize = 0;
    let ghost form = |k: Seq<char>| text::debug_form(k);
    assert(text::string_views(out@) =~= unknown_keys(all.take(0)).map_values(form));
    while i < table.len()
        invariant
            i <= table@.len(),
            all == entries_tree(table@),
            form == |k: Seq<char>| text::debug_form(k),
            text::string_views(out@) == unknown_keys(all.take(i as int)).map_values(form),
        decreases table@.len() - i,
    {
        assert(all.take(i + 1).drop_last() =~= all.take(i as int));
        assert(all.take(i + 1).last() == all[i as int]);
        let ghost before = text::string_views(out@);
        let key = table[i].0.as_str();
        if !dep_key(key) {
            out.push(text::debug_text(key));
            assert(text::string_views(out@) =~= before.push(text::debug_form(key@)));
            assert(unknown_keys(all.take(i + 1)).map_values(form) =~= unknown_keys(
                all.take(i as int),
            ).map_values(form).push(text::debug_form(key@)));
        }
        i += 1;
    }
    assert(all.take(i as int) =~= all);
    out
}

/// The place of the first key that is none of a dependency's, or the length.
fn find_unknown(table: &Vec<(String, TomlNode)>) -> (r: usize)
    ensures
        r == first_unknown(entries_tree(table@)),
        r <= table@.len(),
{
    let ghost all = entries_tree(table@);
    let mut i: usize = 0;
    assert(all.skip(0) =~= all);
    while i < table.len() && dep_key(table[i].0.as_str())
        invariant
            i <= table@.len(),
            all == entries_tree(table@),
            first_unknown(all) == i + first_unknown(all.skip(i as int)),
        decreases table@.len() - i,
    {
        assert(all.skip(i as int)[0] == all[i as int]);
        assert(all.skip(i as int).skip(1) =~= all.skip(i + 1));
        i += 1;
    }
    proof {
        if i < table@.len() {
            assert(all.skip(i as int)[0] == all[i as int]);
        }
    }
    i
}

/// Adds to `parts` the keys that lead down from a table.
fn walk_down(table: &Vec<(String, TomlNode)>, parts: &mut Vec<String>)
    ensures
        text::string_views(final(parts)@) == text::string_views(old(parts)@) + path_down(
            entries_tree(table@),
        ),
    decreases table@,
{
    let ghost all = entries_tree(table@);
    let ghost before = text::string_views(parts@);
    let i = find_unknown(table);
    if i == table.len() {
        assert(before + path_down(all) =~= before);
        return;
    }
    assert(all[i as int] == (table@[i as int].0@, tree_of(table@[i as int].1)));
    parts.push(table[i].0.clone());
    assert(text::string_views(parts@) =~= before.push(table@[i as int].0@));
    if let TomlNode::Table(inner) = &table[i].1 {
        walk_down(inner, parts);
    }
    assert(text::string_views(parts@) =~= before + path_down(all));
}

/// The advice for a dotted key.
fn write_advice(section: &str, key: &str, table: &Vec<(String, TomlNode)>) -> (r: String)
    ensures
        r@ == advice(section@, key@, entries_tree(table@)),
{
    let mut parts: Vec<String> = Vec::new();
    parts.push(key.to_owned());
    assert(text::string_views(parts@) =~= seq![key@]);
    walk_down(table, &mut parts);
    let full = text::join(parts.as_slice(), ".");
    let unknown = text::join(unknown_forms(table).as_slice(), ", ");
    let mut list = "[".to_owned();
    list.append(unknown.as_str());
    list.append("]");
    let mut m = "dependency `".to_owned();
    m.append(key);
    m.append("` in [");
    m.append(section);
    m.append("] contains dotted sub-key(s): ");
    m.append(list.as_str());
    m.append(".\n\nThis is caused by a dotted TOML key: `[");
    m.append(section);
    m.append(".");
    m.append(full.as_str());
    m.append("]` is parsed by TOML as package `");
    m.append(key);
    m.append("` with nested sub-keys, not as package `");
    m.append(full.as_str());
    m.append("`.\n\nIf you meant to declare package `");
    m.append(full.as_str());
    m.append("`, use a quoted key in the flat [");
    m.append(section);
    m.append("] table:\n\n\t[");
    m.append(section);
    m.append("]\n\t\"");
    m.append(full.as_str());
    m.append("\" = \"*\"\n\nOr run: uvr add ");
    m.append(full.as_str());
    m
}

/// The advice for the first dotted key of a section, if it has one.
fn check_section(section: &str, deps: &Vec<(String, TomlNode)>) -> (r: Option<String>)
    ensures
        r.deep_view() == section_advice(section@, entries_tree(deps@)),
{
    let ghost all = entries_tree(deps@);
    let mut i: usize = 0;
    assert(all.skip(0) =~= all);
    while i < deps.len()
        invariant
            i <= deps@.len(),
            all == entries_tree(deps@),
            section_advice(section@, all) == section_advice(section@, all.skip(i as int)),
        decreases deps@.len() - i,
    {
        assert(all.skip(i as int)[0] == all[i as int]);
        assert(all[i as int] == (deps@[i as int].0@, tree_of(deps@[i as int].1)));
        assert(all.skip(i as int).skip(1) =~= all.skip(i + 1));
        if let TomlNode::Table(inner) = &deps[i].1 {
            let ghost table = entries_tree(inner@);
            proof {
                lemma_unknown(table);
            }
            if find_unknown(inner) < inner.len() {
                return Some(write_advice(section, deps[i].0.as_str(), inner));
            }
        }
        i += 1;
    }
    None
}

/// A table has unknown keys where it has a first one.
proof fn lemma_unknown(table: Seq<(Seq<char>, TomlTree)>)
    ensures
        (unknown_keys(table).len() > 0) == (first_unknown(table) < table.len()),
    decreases table.len(),
{
    lemma_first_unknown(table);
    if table.len() > 0 {
        let front = table.drop_last();
        lemma_unknown(front);
        lemma_first_unknown(front);
        let i = first_unknown(table);
        if i < front.len() {
            assert(front[i] == table[i]);
        }
        let j = first_unknown(front);
        if j < front.len() {
            assert(front[j] == table[j]);
        }
    }
}

/// The dependencies in a section of a document.
fn find_section<'a>(root: &'a TomlNode, section: &str) -> (r: Option<&'a Vec<(String, TomlNode)>>)
    ensures
        match r {
            Some(deps) => section_of(tree_of(*root), section@) == entries_tree(deps@),
            None => section_of(tree_of(*root), section@).len() == 0,
        },
{
    let table = match root {
        TomlNode::Table(t) => t,
        _ => {
            return None;
        },
    };
    let ghost all = entries_tree(table@);
    let mut i: usize = 0;
    assert(all.skip(0) =~= all);
    while i < table.len()
        invariant
            i <= table@.len(),
            all == entries_tree(table@),
            tree_of(*root) == TomlTree::Table(all),
            value_at(all, section@) == value_at(all.skip(i as int), section@),
        decreases table@.len() - i,
    {
        assert(all.skip(i as int)[0] == all[i as int]);
        assert(all[i as int] == (table@[i as int].0@, tree_of(table@[i as int].1)));
        assert(all.skip(i as int).skip(1) =~= all.skip(i + 1));
        if text::same_str(table[i].0.as_str(), section) {
            return match &table[i].1 {
                TomlNode::Table(deps) => Some(deps),
                _ => None,
            };
        }
        i += 1;
    }
    None
}

/// What checking a document comes to.
pub open spec fn is_verdict(root: TomlTree, r: Result<(), UvrError>) -> bool {
    match r {
        Ok(_) => document_advice(root) is None,
        Err(e) => e matches UvrError::ManifestParse(m) && document_advice(root) == Some(m@),
    }
}

/// What reading a text comes to, where `document` is what the text is as TOML.
pub open spec fn is_reading(
    document: Result<TomlTree, Seq<char>>,
    r: Result<TomlNode, UvrError>,
) -> bool {
    match document {
        Ok(tree) => match document_advice(tree) {
            Some(a) => r matches Err(UvrError::ManifestParse(m)) && m@ == a,
            None => r matches Ok(root) && tree_of(root) == tree,
        },
        Err(message) => r matches Err(UvrError::ManifestParse(m)) && m@ == message,
    }
}

/// Refuses a document with a dotted key in one of its dependency tables: a
/// dependency that is a table has no keys but `version`, `bioc`, `git` and `rev`.
pub fn check_document(root: &TomlNode) -> (r: Result<(), UvrError>)
    ensures
        is_verdict(tree_of(*root), r),
{
    if let Some(deps) = find_section(root, "dependencies") {
        if let Some(m) = check_section("dependencies", deps) {
            return Err(UvrError::ManifestParse(m));
        }
    }
    if let Some(deps) = find_section(root, "dev-dependencies") {
        if let Some(m) = check_section("dev-dependencies", deps) {
            return Err(UvrError::ManifestParse(m));
        }
    }
    Ok(())
}

/// Reads the text of a manifest as a TOML document and refuses dotted keys in its
/// dependency tables.
pub fn read_document(s: &str) -> (r: Result<TomlNode, UvrError>)
    ensures
        is_reading(toml_document(s@), r),
{
    match read_value(s) {
        Ok(v) => {
            let root = node_of(v);
            match check_document(&root) {
                Ok(_) => Ok(root),
                Err(e) => Err(e),
            }
        },
        Err(m) => Err(UvrError::ManifestParse(m)),
    }
}

/// The keys of a table are a dependency's.
pub open spec fn has_dep_keys(table: Seq<(Seq<char>, TomlTree)>) -> bool {
    forall|i: int| 0 <= i < table.len() ==> is_dep_key(#[trigger] table[i].0)
}

/// The dependencies that are tables have the keys of a dependency.
pub open spec fn has_plain_deps(deps: Seq<(Seq<char>, TomlTree)>) -> bool {
    forall|i: int|
        0 <= i < deps.len() ==> ((#[trigger] deps[i]).1 matches TomlTree::Table(t)
            ==> has_dep_keys(t))
}

/// A section is accepted if and only if its dependencies that are tables have no
/// keys but those of a dependency.
proof fn lemma_section(section: Seq<char>, deps: Seq<(Seq<char>, TomlTree)>)
    ensures
        (section_advice(section, deps) is None) == has_plain_deps(deps),
    decreases deps.len(),
{
    if deps.len() > 0 {
        let rest = deps.skip(1);
        lemma_section(section, rest);
        assert(forall|i: int| 0 < i < deps.len() ==> #[trigger] deps[i] == rest[i - 1]);
        assert(forall|i: int| 0 <= i < rest.len() ==> #[trigger] rest[i] == deps[i + 1]);
        if let TomlTree::Table(t) = deps[0].1 {
            lemma_unknown(t);
            lemma_first_unknown(t);
            assert((unknown_keys(t).len() == 0) == has_dep_keys(t));
        }
        if has_plain_deps(deps) {
            assert(deps[0].1 matches TomlTree::Table(t) ==> has_dep_keys(t));
            assert(has_plain_deps(rest));
        }
    }
}

/// A document is accepted if and only if every dependency of both tables that is
/// itself a table has no keys but those of a dependency. A quoted name with dots
/// in it is a name like any other.
pub proof fn law_accepted_documents(root: TomlTree)
    ensures
        (document_advice(root) is None) == (has_plain_deps(section_of(root, "dependencies"@))
            && has_plain_deps(section_of(root, "dev-dependencies"@))),
{
    lemma_section("dependencies"@, section_of(root, "dependencies"@));
    lemma_section("dev-dependencies"@, section_of(root, "dev-dependencies"@));
}

/// The table that the header `[section.a.b.c]` declares below `a`: tables within
/// tables, the innermost of which is `leaf`.
pub open spec fn nested(
    names: Seq<Seq<char>>,
    leaf: Seq<(Seq<char>, TomlTree)>,
) -> Seq<(Seq<char>, TomlTree)>
    decreases names.len(),
{
    if names.len() == 0 {
        leaf
    } else {
        seq![(names[0], TomlTree::Table(nested(names.skip(1), leaf)))]
    }
}

/// The keys that lead down through nested tables are their names.
proof fn lemma_path_down_nested(names: Seq<Seq<char>>, leaf: Seq<(Seq<char>, TomlTree)>)
    requires
        has_dep_keys(leaf),
        forall|i: int| 0 <= i < names.len() ==> !is_dep_key(#[trigger] names[i]),
    ensures
        path_down(nested(names, leaf)) == names,
    decreases names.len(),
{
    let t = nested(names, leaf);
    lemma_first_unknown(t);
    if names.len() > 0 {
        let rest = names.skip(1);
        assert forall|i: int| 0 <= i < rest.len() implies !is_dep_key(#[trigger] rest[i]) by {
            assert(rest[i] == names[i + 1]);
        }
        lemma_path_down_nested(rest, leaf);
        assert(t[0] == (names[0], TomlTree::Table(nested(rest, leaf))));
        assert(first_unknown(t) == 0);
        assert(seq![names[0]] + rest =~= names);
    } else {
        assert(path_down(t) =~= names);
    }
}

/// The advice for a package of any number of dotted parts names the whole of it,
/// and ends with the command that adds it.
pub proof fn law_advice_names_the_whole_package(
    section: Seq<char>,
    key: Seq<char>,
    names: Seq<Seq<char>>,
    leaf: Seq<(Seq<char>, TomlTree)>,
)
    requires
        has_dep_keys(leaf),
        forall|i: int| 0 <= i < names.len() ==> !is_dep_key(#[trigger] names[i]),
    ensures
        full_name(key, nested(names, leaf)) == strings::join(seq![key] + names, "."@),
        strings::ends_with(
            advice(section, key, nested(names, leaf)),
            "\n\nOr run: uvr add "@ + strings::join(seq![key] + names, "."@),
        ),
{
    lemma_path_down_nested(names, leaf);
    let a = advice(section, key, nested(names, leaf));
    let full = full_name(key, nested(names, leaf));
    reveal_strlit("\" = \"*\"\n\nOr run: uvr add ");
    reveal_strlit("\n\nOr run: uvr add ");
    let tail = "\n\nOr run: uvr add "@ + full;
    assert(a.skip(a.len() - tail.len()) =~= tail);
}

/// The names of the keys that a dependency has.
pub open spec fn dep_key_names() -> Seq<Seq<char>> {
    seq!["version"@, "bioc"@, "git"@, "rev"@]
}

/// The keys of a dependency are just these.
pub proof fn law_dep_keys(key: Seq<char>)
    ensures
        is_dep_key(key) <==> dep_key_names().contains(key),
{
    let names = dep_key_names();
    assert(names[0] == "version"@ && names[1] == "bioc"@ && names[2] == "git"@ && names[3]
        == "rev"@);
}

/// The first entry of a key is the one that counts.
proof fn lemma_value_at(
    a: Seq<(Seq<char>, TomlTree)>,
    key: Seq<char>,
    value: TomlTree,
    b: Seq<(Seq<char>, TomlTree)>,
)
    requires
        forall|i: int| 0 <= i < a.len() ==> (#[trigger] a[i]).0 != key,
    ensures
        value_at(a + seq![(key, value)] + b, key) == Some(value),
        value_at(a, key) is None,
    decreases a.len(),
{
    let t = a + seq![(key, value)] + b;
    if a.len() > 0 {
        let rest = a.skip(1);
        assert forall|i: int| 0 <= i < rest.len() implies (#[trigger] rest[i]).0 != key by {
            assert(rest[i] == a[i + 1]);
        }
        lemma_value_at(rest, key, value, b);
        assert(t[0] == a[0]);
        assert(t.skip(1) =~= rest + seq![(key, value)] + b);
    } else {
        assert(t[0] == (key, value));
    }
}

/// The dependencies of a section are the table under its name, wherever in the document
/// it stands; a document without it has none.
pub proof fn law_section_is_the_table_of_its_name(
    a: Seq<(Seq<char>, TomlTree)>,
    section: Seq<char>,
    deps: Seq<(Seq<char>, TomlTree)>,
    b: Seq<(Seq<char>, TomlTree)>,
)
    requires
        forall|i: int| 0 <= i < a.len() ==> (#[trigger] a[i]).0 != section,
    ensures
        section_of(
            TomlTree::Table(a + seq![(section, TomlTree::Table(deps))] + b),
            section,
        ) == deps,
        section_of(TomlTree::Table(a), section).len() == 0,
{
    lemma_value_at(a, section, TomlTree::Table(deps), b);
}

/// A dependency of either table that has a key which none of the four is makes the
/// document refused, wherever the table stands and whatever else it holds.
pub proof fn law_dotted_key_is_refused(
    a: Seq<(Seq<char>, TomlTree)>,
    section: Seq<char>,
    deps: Seq<(Seq<char>, TomlTree)>,
    b: Seq<(Seq<char>, TomlTree)>,
    table: Seq<(Seq<char>, TomlTree)>,
    i: int,
    j: int,
)
    requires
        section == "dependencies"@ || section == "dev-dependencies"@,
        forall|k: int| 0 <= k < a.len() ==> (#[trigger] a[k]).0 != section,
        0 <= i < deps.len(),
        deps[i].1 == TomlTree::Table(table),
        0 <= j < table.len(),
        !dep_key_names().contains(table[j].0),
    ensures
        document_advice(
            TomlTree::Table(a + seq![(section, TomlTree::Table(deps))] + b),
        ) is Some,
{
    let root = TomlTree::Table(a + seq![(section, TomlTree::Table(deps))] + b);
    law_section_is_the_table_of_its_name(a, section, deps, b);
    law_dep_keys(table[j].0);
    law_accepted_documents(root);
    assert(!has_dep_keys(table));
    assert(!has_plain_deps(deps));
}

/// A document whose dependencies are all written with the four keys, or not as tables
/// at all, is accepted, whatever else it holds.
pub proof fn law_plain_document_is_accepted(root: TomlTree)
    requires
        forall|i: int, j: int|
            #![trigger section_of(root, "dependencies"@)[i].1->Table_0[j]]
            0 <= i < section_of(root, "dependencies"@).len() && section_of(
                root,
                "dependencies"@,
            )[i].1 is Table && 0 <= j < section_of(root, "dependencies"@)[i].1->Table_0.len()
                ==> dep_key_names().contains(
                section_of(root, "dependencies"@)[i].1->Table_0[j].0,
            ),
        forall|i: int, j: int|
            #![trigger section_of(root, "dev-dependencies"@)[i].1->Table_0[j]]
            0 <= i < section_of(root, "dev-dependencies"@).len() && section_of(
                root,
                "dev-dependencies"@,
            )[i].1 is Table && 0 <= j < section_of(root, "dev-dependencies"@)[i].1->Table_0.len()
                ==> dep_key_names().contains(
                section_of(root, "dev-dependencies"@)[i].1->Table_0[j].0,
            ),
    ensures
        document_advice(root) is None,
{
    let x = section_of(root, "dependencies"@);
    let y = section_of(root, "dev-dependencies"@);
    law_accepted_documents(root);
    assert forall|i: int| 0 <= i < x.len() && (#[trigger] x[i]).1 is Table implies has_dep_keys(
        x[i].1->Table_0,
    ) by {
        let t = x[i].1->Table_0;
        assert forall|j: int| 0 <= j < t.len() implies is_dep_key(#[trigger] t[j].0) by {
            assert(dep_key_names().contains(x[i].1->Table_0[j].0));
            law_dep_keys(t[j].0);
        }
    }
    assert forall|i: int| 0 <= i < y.len() && (#[trigger] y[i]).1 is Table implies has_dep_keys(
        y[i].1->Table_0,
    ) by {
        let t = y[i].1->Table_0;
        assert forall|j: int| 0 <= j < t.len() implies is_dep_key(#[trigger] t[j].0) by {
            assert(dep_key_names().contains(y[i].1->Table_0[j].0));
            law_dep_keys(t[j].0);
        }
    }
}

/// The unknown keys of a table are found one by one, in order.
pub proof fn law_unknown_keys_one_by_one(
    a: Seq<(Seq<char>, TomlTree)>,
    b: Seq<(Seq<char>, TomlTree)>,
    key: Seq<char>,
    value: TomlTree,
)
    ensures
        unknown_keys(a + b) == unknown_keys(a) + unknown_keys(b),
        dep_key_names().contains(key) ==> unknown_keys(seq![(key, value)]).len() == 0,
        !dep_key_names().contains(key) ==> unknown_keys(seq![(key, value)]) == seq![key],
    decreases b.len(),
{
    let both = a + b;
    if b.len() == 0 {
        assert(both =~= a);
        assert(unknown_keys(a) + unknown_keys(b) =~= unknown_keys(a));
    } else {
        law_unknown_keys_one_by_one(a, b.drop_last(), key, value);
        assert(both.drop_last() =~= a + b.drop_last());
        assert(both.last() == b.last());
        assert(unknown_keys(both) =~= unknown_keys(a) + unknown_keys(b));
    }
    law_dep_keys(key);
    reveal_with_fuel(unknown_keys, 2);
    assert(seq![(key, value)].drop_last() =~= seq![]);
    if !is_dep_key(key) {
        assert(unknown_keys(seq![(key, value)]) =~= seq![key]);
    }
}

/// The advice is about the first dependency of a section that has an unknown key.
pub proof fn law_advice_is_of_the_first(
    section: Seq<char>,
    a: Seq<(Seq<char>, TomlTree)>,
    key: Seq<char>,
    table: Seq<(Seq<char>, TomlTree)>,
    b: Seq<(Seq<char>, TomlTree)>,
)
    requires
        has_plain_deps(a),
        !has_dep_keys(table),
    ensures
        section_advice(section, a + seq![(key, TomlTree::Table(table))] + b) == Some(
            advice(section, key, table),
        ),
    decreases a.len(),
{
    let all = a + seq![(key, TomlTree::Table(table))] + b;
    lemma_unknown(table);
    lemma_first_unknown(table);
    if a.len() > 0 {
        let rest = a.skip(1);
        assert(forall|i: int| 0 <= i < rest.len() ==> #[trigger] rest[i] == a[i + 1]);
        assert(has_plain_deps(rest));
        law_advice_is_of_the_first(section, rest, key, table, b);
        assert(all[0] == a[0]);
        assert(all.skip(1) =~= rest + seq![(key, TomlTree::Table(table))] + b);
        if let TomlTree::Table(t) = a[0].1 {
            assert(has_dep_keys(t));
            lemma_unknown(t);
            lemma_first_unknown(t);
        }
    } else {
        assert(all[0] == (key, TomlTree::Table(table)));
    }
}

/// The advice begins with the dependency, the section and every unknown key, and shows
/// the line that declares the whole package in the section.
pub proof fn law_advice_tells_what_is_wrong(
    section: Seq<char>,
    key: Seq<char>,
    table: Seq<(Seq<char>, TomlTree)>,
    i: int,
)
    ensures
        ({
            let a = advice(section, key, table);
            let full = full_name(key, table);
            let unknown = unknown_keys(table);
            &&& strings::starts_with(
                a,
                "dependency `"@ + key + "` in ["@ + section + "] contains dotted sub-key(s): "@,
            )
            &&& 0 <= i < unknown.len() ==> strings::contains_text(a, text::debug_form(unknown[i]))
            &&& strings::contains_text(
                a,
                "\n\t["@ + section + "]\n\t\""@ + full + "\" = \"*\""@,
            )
        }),
{
    let full = full_name(key, table);
    let unknown = unknown_keys(table);
    let forms = unknown.map_values(|k: Seq<char>| text::debug_form(k));
    let list = key_list(unknown);
    let s1 = "dependency `"@;
    let s2 = "` in ["@;
    let s3 = "] contains dotted sub-key(s): "@;
    let s4 = ".\n\nThis is caused by a dotted TOML key: `["@;
    let s5 = "]` is parsed by TOML as package `"@;
    let s6 = "` with nested sub-keys, not as package `"@;
    let s7 = "`.\n\nIf you meant to declare package `"@;
    let s8 = "`, use a quoted key in the flat ["@;
    let s9 = "] table:\n\n\t["@;
    let s10 = "]\n\t\""@;
    let s11 = "\" = \"*\"\n\nOr run: uvr add "@;
    let front = s1 + key + s2 + section + s3;
    let named = front + list;
    let told = named + s4 + section + "."@ + full + s5 + key + s6 + full + s7 + full + s8 + section;
    let a = told + s9 + section + s10 + full + s11 + full;
    assert(a == advice(section, key, table));
    let after = a.skip(named.len() as int);
    assert(a =~= named + after);
    assert(a.take(front.len() as int) =~= front);
    if 0 <= i < unknown.len() {
        let joined = strings::join(forms, ", "@);
        assert(forms[i] == text::debug_form(unknown[i]));
        strings::lemma_join_contains(forms, ", "@, i);
        strings::lemma_contains_middle(front + "["@, joined, "]"@ + after);
        assert(a =~= front + "["@ + joined + ("]"@ + after));
        strings::lemma_contains_transitive(a, joined, forms[i]);
    }
    reveal_strlit("] table:\n\n\t[");
    reveal_strlit("] table:\n");
    reveal_strlit("\n\t[");
    reveal_strlit("\" = \"*\"\n\nOr run: uvr add ");
    reveal_strlit("\" = \"*\"");
    reveal_strlit("\n\nOr run: uvr add ");
    assert(s9 =~= "] table:\n"@ + "\n\t["@);
    assert(s11 =~= "\" = \"*\""@ + "\n\nOr run: uvr add "@);
    let shown = "\n\t["@ + section + s10 + full + "\" = \"*\""@;
    let head = told + "] table:\n"@;
    let tail = "\n\nOr run: uvr add "@ + full;
    assert(a =~= head + shown + tail);
    strings::lemma_contains_middle(head, shown, tail);
}

/// A document is read as it is, and refused only where the text is no TOML or a
/// dependency has an unknown key; then the error tells what was said of it. Reading and
/// checking agree.
pub proof fn law_document_is_read_as_it_is(
    document: Result<TomlTree, Seq<char>>,
    r: Result<TomlNode, UvrError>,
    checked: Result<(), UvrError>,
)
    requires
        is_reading(document, r),
        document matches Ok(tree) ==> is_verdict(tree, checked),
    ensures
        r matches Ok(root) ==> document == Ok::<TomlTree, Seq<char>>(tree_of(root)) && checked is Ok,
        match document {
            Ok(tree) => {
                &&& r is Ok <==> has_plain_deps(section_of(tree, "dependencies"@))
                    && has_plain_deps(section_of(tree, "dev-dependencies"@))
                &&& checked is Ok <==> r is Ok
            },
            Err(message) => r matches Err(UvrError::ManifestParse(m)) && m@ == message,
        },
{
    if let Ok(tree) = document {
        law_accepted_documents(tree);
    }
}

/// The name of the package that was meant goes on by the first unknown key of each table:
/// those of a dependency before it have no bearing, nor has anything after it.
pub proof fn law_name_goes_by_the_first_unknown_key(
    a: Seq<(Seq<char>, TomlTree)>,
    key: Seq<char>,
    value: TomlTree,
    b: Seq<(Seq<char>, TomlTree)>,
)
    requires
        forall|i: int| 0 <= i < a.len() ==> dep_key_names().contains((#[trigger] a[i]).0),
        !dep_key_names().contains(key),
    ensures
        path_down(a + seq![(key, value)] + b) == seq![key] + (match value {
            TomlTree::Table(inner) => path_down(inner),
            _ => seq![],
        }),
        path_down(a).len() == 0,
{
    let t = a + seq![(key, value)] + b;
    let n = a.len() as int;
    law_dep_keys(key);
    lemma_first_unknown(t);
    lemma_first_unknown(a);
    assert(t[n] == (key, value));
    let i = first_unknown(t);
    if i < n {
        assert(t[i] == a[i]);
        assert(dep_key_names().contains(a[i].0));
        law_dep_keys(a[i].0);
    }
    if i > n {
        assert(is_dep_key(t[n].0));
    }
    let j = first_unknown(a);
    if j < n {
        assert(dep_key_names().contains(a[j].0));
        law_dep_keys(a[j].0);
    }
    assert(path_down(t) =~= seq![key] + (match value {
        TomlTree::Table(inner) => path_down(inner),
        _ => seq![],
    }));
}

} // verus!
