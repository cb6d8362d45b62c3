use uvr::dcf::parse_dcf_fields;
use uvr::error::UvrError;
use uvr::manifest::description::{
    description_is_readable, field_is_readable, manifest_of_fields, parse_dep_field,
    parse_r_version_from_depends, resolve_remote_pkg_name,
};
use uvr::manifest::keys::{check_document, read_document, TomlNode};
use uvr::manifest::remotes::{parse_forgejo_entry, parse_gitlab_entry, parse_remotes_field};
use uvr::manifest::{DependencySpec, DetailedDep, Manifest};
use uvr::strmap::StrMap;

fn version(v: &str) -> DependencySpec {
    DependencySpec::Version(v.to_string())
}

fn git(git: &str, rev: Option<&str>) -> DependencySpec {
    DependencySpec::Detailed(DetailedDep {
        git: Some(git.to_string()),
        rev: rev.map(str::to_string),
        ..DetailedDep::default()
    })
}

fn text(s: &str) -> TomlNode {
    TomlNode::Text(s.to_string())
}

fn table(entries: Vec<(&str, TomlNode)>) -> TomlNode {
    TomlNode::Table(
        entries
            .into_iter()
            .map(|(k, v)| (k.to_string(), v))
            .collect(),
    )
}

#[test]
fn control_files_are_read_line_by_line() {
    let f = parse_dcf_fields("A: 1\n  2\n\t3\nB:\n x\nnot a field\n y\nA: 9\r\n");
    assert_eq!(f.get("A").map(String::as_str), Some("9"));
    assert_eq!(f.get("B").map(String::as_str), Some("x"));
    assert_eq!(parse_dcf_fields("A: 1\n  2\n").get("A").unwrap(), "1 2");
    assert!(parse_dcf_fields("").get("A").is_none());
}

#[test]
fn dependency_fields() {
    assert_eq!(
        parse_dep_field("a (>= 1.0 ), b,, (x), c (== 2"),
        vec![
            ("a".to_string(), version(">=1.0")),
            ("b".to_string(), version("*")),
            ("c".to_string(), version("==2")),
        ]
    );
    assert!(field_is_readable("a (>= 1), b)"));
    assert!(!field_is_readable("a )x("));
    assert!(!description_is_readable("Imports: a )x("));
    assert!(description_is_readable("Imports: a (>= 1)\nEnhances: a )x("));
}

#[test]
fn the_requirement_on_r() {
    let r = |s: &str| parse_r_version_from_depends(s);
    assert_eq!(r("R (>= 4.0.0), methods").as_deref(), Some(">=4.0.0"));
    assert_eq!(r("methods, R(>=3.5)").as_deref(), Some(">=3.5"));
    assert_eq!(r("R"), None);
    assert_eq!(r("R ()"), None);
    // Only the first entry about R counts, and `Rcpp` is none.
    assert_eq!(r("Rcpp (>= 1.0), R, R (>= 4.0)"), None);
    // Parentheses of other entries do not matter, nor does one that nothing closes.
    assert_eq!(r("foo )(, R (>= 4.0)").as_deref(), Some(">=4.0"));
    assert_eq!(r("R)(, R ( >= 4.1").as_deref(), Some(">=4.1"));
    assert_eq!(r(""), None);
}

#[test]
fn depends_does_not_make_r_a_dependency() {
    let m = Manifest::from_description_str("Depends: R, methods\n").unwrap();
    assert!(!m.dependencies.contains_key("R"));
    assert!(m.dependencies.contains_key("methods"));
    assert_eq!(m.project.name, "");
    // What is imported under that name is one.
    let m = Manifest::from_description_str("Imports: R\n").unwrap();
    assert!(m.dependencies.contains_key("R"));
}

#[test]
fn a_remote_keeps_version_table_and_the_rest() {
    let fields = parse_dcf_fields(
        "Imports: foo (>= 2.0.0), bar\nSuggests: baz (>= 3.0)\nRemotes: user/baz.R, other/foo@v1\n",
    );
    let m = manifest_of_fields(&fields);
    assert_eq!(m.dependencies.get("bar"), Some(&version("*")));
    let foo = m.dependencies.get("foo").unwrap();
    assert_eq!(foo.version_req(), Some(">=2.0.0"));
    assert_eq!(foo.git(), Some("other/foo"));
    let baz = m.dev_dependencies.get("baz").unwrap();
    assert_eq!(baz.version_req(), Some(">=3.0"));
    assert_eq!(baz.git(), Some("user/baz.R"));
    assert_eq!(m.dependencies.entries().len(), 2);
    assert_eq!(m.dev_dependencies.entries().len(), 1);
}

#[test]
fn a_remote_overrides_its_package_in_every_table() {
    let m = Manifest::from_description_str(
        "Package: p\nImports: foo\nSuggests: foo\nRemotes: u/foo\n",
    )
    .unwrap();
    assert_eq!(m.dependencies.get("foo"), Some(&git("u/foo", None)));
    assert_eq!(m.dev_dependencies.get("foo"), Some(&git("u/foo", None)));
    // Each table keeps the version that it asked for.
    let m = Manifest::from_description_str(
        "Depends: foo (>= 1.0), bar\nSuggests: foo (>= 2.0)\nRemotes: u/foo@v3, u/new\n",
    )
    .unwrap();
    let foo = m.dependencies.get("foo").unwrap();
    assert_eq!((foo.git(), foo.version_req()), (Some("u/foo"), Some(">=1.0")));
    let foo = m.dev_dependencies.get("foo").unwrap();
    assert_eq!((foo.git(), foo.version_req()), (Some("u/foo"), Some(">=2.0")));
    assert_eq!(m.dependencies.get("bar"), Some(&version("*")));
    // A package that neither table holds becomes a dependency.
    assert_eq!(m.dependencies.get("new"), Some(&git("u/new", None)));
    assert_eq!(m.dev_dependencies.entries().len(), 1);
}

#[test]
fn the_name_that_a_remote_is_about() {
    let mut deps: StrMap<DependencySpec> = StrMap::new();
    deps.insert("a".to_string(), version("*"));
    deps.insert("b-r".to_string(), version("*"));
    let mut dev: StrMap<DependencySpec> = StrMap::new();
    dev.insert("c".to_string(), version("*"));
    let name = |s: &str| resolve_remote_pkg_name(s, &deps, &dev);
    assert_eq!(name("a"), "a");
    assert_eq!(name("a-r"), "a");
    assert_eq!(name("a.R"), "a");
    assert_eq!(name("b-r"), "b-r");
    assert_eq!(name("c_R"), "c");
    assert_eq!(name("d-r"), "d-r");
    assert_eq!(name("-r"), "-r");
    assert_eq!(name("a-r-r"), "a-r-r");
}

#[test]
fn entries_of_remotes() {
    let v = parse_remotes_field(
        "user/a@v1#12, b=user/c, user/d#7, bitbucket::user/e, plain, user/f@, =user/g, user/",
    );
    assert_eq!(
        v,
        vec![
            ("a".to_string(), git("user/a", Some("v1"))),
            ("b".to_string(), git("user/c", None)),
            ("d".to_string(), git("user/d", None)),
            ("f".to_string(), git("user/f", None)),
            ("g".to_string(), git("=user/g", None)),
        ]
    );
    // An entry that is none takes no other with it.
    assert_eq!(
        parse_remotes_field("plain,,user/a"),
        parse_remotes_field("user/a")
    );
    let cs = |s: &str| s.chars().collect::<Vec<char>>();
    assert_eq!(
        parse_forgejo_entry(&cs("x=h.org/o/r@v1#3")),
        Some(("x".to_string(), git("forgejo::h.org/o/r", Some("v1"))))
    );
    assert_eq!(parse_forgejo_entry(&cs("h.org/o")), None);
    assert_eq!(
        parse_gitlab_entry(&cs("h.org/g/s/p#3")),
        Some(("p".to_string(), git("gitlab::h.org/g/s/p", None)))
    );
    assert_eq!(parse_gitlab_entry(&cs("h.org/p")), None);
}

#[test]
fn adding_and_removing() {
    let mut m = Manifest::new("p".to_string(), Some(">=4.0".to_string()));
    assert_eq!(m.project.r_version.as_deref(), Some(">=4.0"));
    assert!(m.add_dep("a".to_string(), DependencySpec::default(), true));
    assert!(m.add_dep("a".to_string(), version(">=1"), false));
    assert_eq!(m.dev_dependencies.get("a"), Some(&version("*")));
    assert_eq!(m.dependencies.get("a"), Some(&version(">=1")));
    assert!(m.remove_dep("a"));
    assert_eq!(m, Manifest::new("p".to_string(), Some(">=4.0".to_string())));
    assert!(!m.remove_dep("a"));
}

#[test]
fn dotted_keys_of_any_depth_are_named_in_full() {
    let doc = table(vec![(
        "dependencies",
        table(vec![
            ("plain", text("*")),
            ("ok", table(vec![("version", text("*"))])),
            (
                "a",
                table(vec![
                    ("git", text("x/y")),
                    ("b", table(vec![("c", table(vec![("rev", text("1"))]))])),
                    ("z", text("1")),
                ]),
            ),
        ]),
    )]);
    let expected = "dependency `a` in [dependencies] contains dotted sub-key(s): [\"b\", \"z\"].\n\nThis is caused by a dotted TOML key: `[dependencies.a.b.c]` is parsed by TOML as package `a` with nested sub-keys, not as package `a.b.c`.\n\nIf you meant to declare package `a.b.c`, use a quoted key in the flat [dependencies] table:\n\n\t[dependencies]\n\t\"a.b.c\" = \"*\"\n\nOr run: uvr add a.b.c";
    assert_eq!(
        check_document(&doc).unwrap_err(),
        UvrError::ManifestParse(expected.to_string())
    );
}

#[test]
fn documents_without_dotted_keys_pass() {
    assert!(check_document(&TomlNode::Other).is_ok());
    assert!(check_document(&table(vec![])).is_ok());
    assert!(check_document(&table(vec![("dependencies", text("x"))])).is_ok());
    let root = read_document("[a.b]\nc = [1]\nd = 2026-01-01\n").unwrap();
    assert_eq!(
        root,
        table(vec![(
            "a",
            table(vec![(
                "b",
                table(vec![("c", TomlNode::Other), ("d", TomlNode::Other)])
            )])
        )])
    );
    match read_document("[broken") {
        Err(UvrError::ManifestParse(m)) => assert!(m.contains("TOML parse error")),
        other => panic!("{other:?}"),
    }
}

#[test]
fn packages_of_bioconductor() {
    let bioc = |b: Option<bool>| {
        DependencySpec::Detailed(DetailedDep {
            bioc: b,
            ..DetailedDep::default()
        })
    };
    assert!(bioc(Some(true)).is_bioc());
    assert!(!bioc(Some(false)).is_bioc() && !bioc(None).is_bioc() && !version("*").is_bioc());
    assert_eq!(bioc(None).version_req(), None);
    assert_eq!(version("*").git(), None);
}
