use uvr::manifest::keys::{read_document, TomlNode};
use uvr::manifest::remotes::parse_remotes_field;
use uvr::manifest::{DependencySpec, Manifest};

/// The value of a key in a table.
fn value<'a>(node: &'a TomlNode, key: &str) -> Option<&'a TomlNode> {
    match node {
        TomlNode::Table(entries) => entries.iter().find(|(k, _)| k == key).map(|(_, v)| v),
        _ => None,
    }
}

/// A dependency of a document.
fn dependency<'a>(root: &'a TomlNode, name: &str) -> Option<&'a TomlNode> {
    value(value(root, "dependencies")?, name)
}


const DESCRIPTION_SAMPLE: &str = r#"Package: myanalysis
Title: My Analysis Project
Version: 0.1.0
Depends:
    R (>= 4.1.0),
    methods
Imports:
    ggplot2 (>= 3.4.0),
    dplyr,
    stringr
Suggests:
    testthat (>= 3.0.0),
    knitr
"#;

#[test]
fn description_basic() {
    let m = Manifest::from_description_str(DESCRIPTION_SAMPLE).expect("parse");
    assert_eq!(m.project.name, "myanalysis");
    assert_eq!(m.project.r_version.as_deref(), Some(">=4.1.0"));
    assert_eq!(
        m.project.description.as_deref(),
        Some("My Analysis Project")
    );
}

#[test]
fn description_imports_as_deps() {
    let m = Manifest::from_description_str(DESCRIPTION_SAMPLE).expect("parse");
    // ggplot2 with version constraint
    let gg = m.dependencies.get("ggplot2").unwrap();
    assert!(matches!(gg, DependencySpec::Version(v) if v == ">=3.4.0"));
    // dplyr without version
    let dp = m.dependencies.get("dplyr").unwrap();
    assert!(matches!(dp, DependencySpec::Version(v) if v == "*"));
    // methods from Depends (non-R entry)
    assert!(m.dependencies.contains_key("methods"));
}

#[test]
fn description_suggests_as_dev_deps() {
    let m = Manifest::from_description_str(DESCRIPTION_SAMPLE).expect("parse");
    let tt = m.dev_dependencies.get("testthat").unwrap();
    assert!(matches!(tt, DependencySpec::Version(v) if v == ">=3.0.0"));
    assert!(m.dev_dependencies.contains_key("knitr"));
}

#[test]
fn description_no_r_in_deps() {
    let m = Manifest::from_description_str(DESCRIPTION_SAMPLE).expect("parse");
    assert!(!m.dependencies.contains_key("R"));
    assert!(!m.dev_dependencies.contains_key("R"));
}

#[test]
fn description_remotes_override_imports_with_git_source() {
    let dcf = r#"Package: AQmap
Imports:
    airquality,
    dplyr,
    handyr
Remotes:
    B-Nilson/airquality,
    github::B-Nilson/handyr@dev,
    gitlab::other/thing,
    gitlab::gitlab.com/my-group/mypkg@v1.0,
    pkg=user/repo@v1.0
"#;
    let m = Manifest::from_description_str(dcf).expect("parse");

    // airquality: bare user/repo
    let aq = m.dependencies.get("airquality").unwrap();
    assert_eq!(aq.git(), Some("B-Nilson/airquality"));

    // handyr: github:: prefix + @ref
    let hr = m.dependencies.get("handyr").unwrap();
    assert_eq!(hr.git(), Some("B-Nilson/handyr"));
    if let DependencySpec::Detailed(d) = hr {
        assert_eq!(d.rev.as_deref(), Some("dev"));
    } else {
        panic!("handyr should be a detailed git dep");
    }

    // dplyr: not in Remotes, stays as "*"
    let dp = m.dependencies.get("dplyr").unwrap();
    assert!(matches!(dp, DependencySpec::Version(v) if v == "*"));

    // gitlab:: is parsed, but a real spec needs host/group/project at
    // minimum — "other/thing" has only two segments (host + project,
    // no group), so it fails validation and "thing" correctly does
    // not appear as a dep.
    assert!(!m.dependencies.contains_key("thing"));

    // gitlab:: with a valid host/group/project shape does parse.
    let ml = m.dependencies.get("mypkg").unwrap();
    assert_eq!(ml.git(), Some("gitlab::gitlab.com/my-group/mypkg"));
    if let DependencySpec::Detailed(d) = ml {
        assert_eq!(d.rev.as_deref(), Some("v1.0"));
    } else {
        panic!("mypkg should be a detailed git dep");
    }

    // pkg=user/repo → explicit pkg name with @ref
    let pk = m.dependencies.get("pkg").unwrap();
    assert_eq!(pk.git(), Some("user/repo"));
    if let DependencySpec::Detailed(d) = pk {
        assert_eq!(d.rev.as_deref(), Some("v1.0"));
    }
}

#[test]
fn description_remotes_override_preserves_version_constraint() {
    // #132 — a Remotes entry declares the *source* for a dep, not its
    // version. The constraint from the Imports line must survive the
    // override so the resolver's pre-resolved check can still validate
    // the git version against it.
    let dcf = r#"Package: thing
Imports:
    foo (>= 2.0.0),
    bar
Remotes:
    user/foo,
    user/bar
"#;
    let m = Manifest::from_description_str(dcf).expect("parse");

    let foo = m.dependencies.get("foo").unwrap();
    assert_eq!(foo.git(), Some("user/foo"));
    assert_eq!(
        foo.version_req(),
        Some(">=2.0.0"),
        "Imports version constraint should survive the Remotes override"
    );

    // Unconstrained ("*") deps should not grow a version field.
    let bar = m.dependencies.get("bar").unwrap();
    assert_eq!(bar.git(), Some("user/bar"));
    assert!(bar.version_req().is_none());
}

#[test]
fn description_remotes_companion_suffix_binds_to_runtime_dep() {
    // Companion #2 to the Suggests-side test: when the existing dep
    // came from `Imports:` (runtime), the git source should land on
    // dependencies, not dev_dependencies.
    let dcf = r#"Package: thing
Imports:
    uvr (>= 0.1.0)
Remotes:
    nbafrank/uvr-r
"#;
    let m = Manifest::from_description_str(dcf).expect("parse");
    assert!(
        !m.dependencies.contains_key("uvr-r"),
        "uvr-r should not be a runtime dep, got {:?}",
        m.dependencies
    );
    assert!(
        !m.dev_dependencies.contains_key("uvr"),
        "uvr should not have moved to dev-deps, got {:?}",
        m.dev_dependencies
    );
    let uvr = m
        .dependencies
        .get("uvr")
        .expect("uvr should remain a runtime dep");
    assert_eq!(uvr.git(), Some("nbafrank/uvr-r"));
}

#[test]
fn description_remotes_companion_suffix_binds_to_existing_dep() {
    // #68 — `Remotes: nbafrank/uvr-r` paired with `Suggests: uvr` should
    // bind to the `uvr` dev-dep, not create a new `uvr-r` runtime dep.
    let dcf = r#"Package: templates
Suggests:
    uvr (>= 0.1.0)
Remotes:
    nbafrank/uvr-r
"#;
    let m = Manifest::from_description_str(dcf).expect("parse");

    // No spurious runtime dep was created.
    assert!(
        !m.dependencies.contains_key("uvr-r"),
        "uvr-r should not be a runtime dep, got {:?}",
        m.dependencies
    );

    // The Suggests entry survives as a dev-dep with git source merged in.
    let uvr = m
        .dev_dependencies
        .get("uvr")
        .expect("uvr should remain a dev-dep");
    assert_eq!(uvr.git(), Some("nbafrank/uvr-r"));
}

#[test]
fn description_remotes_underscore_r_suffix_binds() {
    let dcf = r#"Package: thing
Imports:
    foo
Remotes:
    user/foo_r
"#;
    let m = Manifest::from_description_str(dcf).expect("parse");
    assert!(!m.dependencies.contains_key("foo_r"));
    assert_eq!(m.dependencies.get("foo").unwrap().git(), Some("user/foo_r"));
}

#[test]
fn description_remotes_unmatched_falls_back_to_url_name() {
    // Remote name doesn't match anything in Imports/Suggests and doesn't
    // strip to a known dep — keep prior behavior (insert as new dep).
    let dcf = r#"Package: thing
Imports:
    foo
Remotes:
    user/totally-unrelated
"#;
    let m = Manifest::from_description_str(dcf).expect("parse");
    assert_eq!(
        m.dependencies.get("totally-unrelated").unwrap().git(),
        Some("user/totally-unrelated")
    );
    // foo stays unsourced.
    let foo = m.dependencies.get("foo").unwrap();
    assert!(foo.git().is_none(), "foo should remain version-only");
}

#[test]
fn description_without_package_yields_empty_name() {
    let dcf = "Imports:\n    dplyr\n";
    let m = Manifest::from_description_str(dcf).expect("parse");
    assert_eq!(m.project.name, "");
}

#[test]
fn description_no_depends() {
    let content = "Package: minimal\nImports: ggplot2\n";
    let m = Manifest::from_description_str(content).expect("parse");
    assert_eq!(m.project.name, "minimal");
    assert!(m.project.r_version.is_none());
    assert!(m.dependencies.contains_key("ggplot2"));
}

#[test]
fn add_remove_dep() {
    let mut m = Manifest::new("test".to_string(), None);
    assert!(m.add_dep("ggplot2".into(), DependencySpec::Version("*".into()), false));
    assert!(!m.add_dep(
        "ggplot2".into(),
        DependencySpec::Version(">=3.0.0".into()),
        false
    ));
    assert!(m.remove_dep("ggplot2"));
    assert!(!m.remove_dep("ggplot2"));
}

#[test]
fn parse_remotes_field_keeps_forgejo_and_gitlab() {
    let field = "forgejo::codefloe.com/pat-s/mypkg@v0.1.0, github::user/a, \
                 gitlab::other/x, gitlab::gitlab.com/my-group/my-sub/thing@v2.0";
    let v = parse_remotes_field(field);
    let names: Vec<&str> = v.iter().map(|(n, _)| n.as_str()).collect();
    // "other/x" has only two segments (host + project, no group) —
    // not a valid gitlab spec — so it's dropped, not because gitlab
    // is unsupported.
    assert_eq!(names, vec!["mypkg", "a", "thing"]);

    // The forgejo entry stores the full `forgejo::host/owner/repo` in
    // the `git` field, with the ref split into `rev`.
    match &v[0].1 {
        DependencySpec::Detailed(d) => {
            assert_eq!(d.git.as_deref(), Some("forgejo::codefloe.com/pat-s/mypkg"));
            assert_eq!(d.rev.as_deref(), Some("v0.1.0"));
        }
        other => panic!("expected Detailed, got {other:?}"),
    }

    // The gitlab entry stores the full `gitlab::host/group/.../project`
    // string (nested subgroup included), with the ref split into `rev`.
    match &v[2].1 {
        DependencySpec::Detailed(d) => {
            assert_eq!(
                d.git.as_deref(),
                Some("gitlab::gitlab.com/my-group/my-sub/thing")
            );
            assert_eq!(d.rev.as_deref(), Some("v2.0"));
        }
        other => panic!("expected Detailed, got {other:?}"),
    }
}

// --- Dotted-key trap detection ---

#[test]
fn dotted_key_single_dot_is_rejected() {
    // `[dependencies.data.table]` → TOML key `data`, sub-key `table`
    let toml = r#"
[project]
name = "test"
r_version = "4.5"

[dependencies.data.table]
version = "*"
"#;
    let err = read_document(toml).unwrap_err().message();
    assert!(
        err.contains("data") && err.contains("table"),
        "expected dotted-key error mentioning 'data' and 'table', got: {err}"
    );
    assert!(
        err.contains("dotted TOML key") || err.contains("sub-key"),
        "expected actionable error message, got: {err}"
    );
}

#[test]
fn dotted_key_r_prefix_is_rejected() {
    // `[dependencies.R.utils]` → key `R`, sub-key `utils`
    let toml = r#"
[project]
name = "test"
r_version = "4.5"

[dependencies.R.utils]
version = "*"
"#;
    let err = read_document(toml).unwrap_err().message();
    assert!(
        err.contains("utils"),
        "expected mention of 'utils', got: {err}"
    );
}

#[test]
fn dotted_key_bioc_flag_is_rejected() {
    // `[dependencies.org.Hs.eg.db]` with `bioc = true` silently drops flag.
    // The error must name the *full* package (`org.Hs.eg.db`), not just the
    // first two segments (`org.Hs`), so the user can follow the advice verbatim.
    let toml = r#"
[project]
name = "test"
r_version = "4.5"

[dependencies.org.Hs.eg.db]
bioc = true
"#;
    let err = read_document(toml).unwrap_err().message();
    assert!(
        err.contains("org.Hs.eg.db"),
        "error must name the full package 'org.Hs.eg.db', got: {err}"
    );
    assert!(
        err.contains("uvr add org.Hs.eg.db"),
        "error must suggest 'uvr add org.Hs.eg.db', got: {err}"
    );
}

#[test]
fn dotted_key_four_segments_reconstructed() {
    // TxDb.Hsapiens.UCSC.hg38.knownGene — five segments, common Bioc annotation package.
    // The advice must name the full package, not just the first two segments.
    let toml = r#"
[project]
name = "test"
r_version = "4.5"

[dependencies.TxDb.Hsapiens.UCSC.hg38.knownGene]
bioc = true
"#;
    let err = read_document(toml).unwrap_err().message();
    assert!(
        err.contains("TxDb.Hsapiens.UCSC.hg38.knownGene"),
        "error must name the full package, got: {err}"
    );
    assert!(
        err.contains("uvr add TxDb.Hsapiens.UCSC.hg38.knownGene"),
        "error must suggest correct uvr add command, got: {err}"
    );
}

#[test]
fn dotted_key_dev_dependencies_is_rejected() {
    // Same trap applies to [dev-dependencies]
    let toml = r#"
[project]
name = "test"
r_version = "4.5"

[dev-dependencies.shiny.test]
version = "*"
"#;
    let err = read_document(toml).unwrap_err().message();
    assert!(err.contains("shiny") || err.contains("test"), "got: {err}");
}

#[test]
fn quoted_dot_package_names_are_accepted() {
    // Quoted keys `"data.table"`, `"R.utils"`, `"org.Hs.eg.db"` must parse fine.
    let toml = r#"
[project]
name = "test"
r_version = "4.5"

[dependencies]
"data.table" = "*"
"R.utils" = { version = "*" }
"shiny.i18n" = "*"

[dependencies."org.Hs.eg.db"]
bioc = true
"#;
    let root = read_document(toml).expect("quoted dot-names must parse");
    assert!(
        dependency(&root, "data.table").is_some(),
        "data.table missing"
    );
    assert!(dependency(&root, "R.utils").is_some(), "R.utils missing");
    assert!(
        dependency(&root, "shiny.i18n").is_some(),
        "shiny.i18n missing"
    );
    let org = dependency(&root, "org.Hs.eg.db").unwrap();
    assert_eq!(
        value(org, "bioc"),
        Some(&TomlNode::Flag(true)),
        "org.Hs.eg.db should be bioc=true"
    );
}

#[test]
fn table_header_syntax_with_valid_fields_is_accepted() {
    // `[dependencies.DESeq2]` with known DetailedDep fields must still work.
    let toml = r#"
[project]
name = "test"
r_version = "4.5"

[dependencies.DESeq2]
bioc = true

[dependencies.myPkg]
git = "user/repo"
rev = "main"
"#;
    let root = read_document(toml).expect("valid table-header syntax must parse");
    let deseq2 = dependency(&root, "DESeq2").unwrap();
    assert_eq!(value(deseq2, "bioc"), Some(&TomlNode::Flag(true)));
    let my_pkg = dependency(&root, "myPkg").unwrap();
    assert_eq!(
        value(my_pkg, "git"),
        Some(&TomlNode::Text("user/repo".to_string()))
    );
}
