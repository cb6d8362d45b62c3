use std::io::Write;

use uvr::error::UvrError;
use uvr::http::Request;
use uvr::registry::bioconductor::config::{
    cache_is_fresh, parse_bioc_config, unquote, version_key, ConfigAction, ConfigEvent,
    ConfigLoad,
};
use uvr::registry::bioconductor::fetch::{
    CacheMeta, FetchAction, FetchEvent, FetchState, SubrepoFetch,
};
use uvr::registry::bioconductor::{parse_bioc_text, BiocRegistry};
use uvr::registry::cran::{parse_dcf_block, parse_dep_field};
use uvr::resolver::{version_matches_req, Version};

const INDEX: &str = "Package: DESeq2\nVersion: 1.42.0\nDepends: R (>= 3.5.0), S4Vectors (>= 0.23.18)\nImports: methods, BiocGenerics (>=0.7.5)\nLinkingTo: Rcpp\nMD5sum: abc\n\nPackage: limma\nVersion: 3.58-1\n\n\nNoPackage: x\n\nPackage: limma\nVersion: 3.60.0\n";

fn gzip(text: &str) -> Vec<u8> {
    let mut e = flate2::write::GzEncoder::new(Vec::new(), flate2::Compression::default());
    e.write_all(text.as_bytes()).unwrap();
    e.finish().unwrap()
}

fn meta(etag: Option<&str>, last_modified: Option<&str>) -> CacheMeta {
    CacheMeta {
        etag: etag.map(str::to_string),
        last_modified: last_modified.map(str::to_string),
    }
}

fn fetch() -> SubrepoFetch {
    SubrepoFetch::new("3.20", "data-annotation", "data/annotation")
}

fn replied(status: u16, status_text: &str) -> FetchEvent {
    FetchEvent::Replied {
        status,
        status_text: status_text.to_string(),
        meta: meta(Some("e2"), None),
    }
}

#[test]
fn an_index_is_read_block_by_block() {
    let index = parse_bioc_text(INDEX);
    let names: Vec<&str> = index.entries().iter().map(|(n, _)| n.as_str()).collect();
    assert_eq!(names, vec!["DESeq2", "limma"]);
    let deseq2 = index.get("DESeq2").unwrap();
    assert_eq!(deseq2.raw_version, "1.42.0");
    assert_eq!((deseq2.version.major, deseq2.version.minor), (1, 42));
    assert_eq!(deseq2.md5sum, "abc");
    let needs: Vec<(String, Option<String>)> = deseq2
        .requires_as_deps()
        .into_iter()
        .map(|d| (d.name, d.constraint))
        .collect();
    assert_eq!(
        needs,
        vec![
            ("S4Vectors".to_string(), Some(">=0.23.18".to_string())),
            ("BiocGenerics".to_string(), Some(">=0.7.5".to_string())),
            ("Rcpp".to_string(), None),
        ]
    );
    // A later block of a name stands.
    assert_eq!(index.get("limma").unwrap().raw_version, "3.60.0");
}

#[test]
fn a_block_needs_a_name_and_a_version() {
    assert!(parse_dcf_block("Package: x").is_none());
    assert!(parse_dcf_block("Version: 1.0").is_none());
    let e = parse_dcf_block("Package: x\nVersion: 1.2-3\nSystemRequirements: zlib").unwrap();
    assert_eq!(
        (e.version.major, e.version.minor, e.version.patch),
        (1, 2, 3)
    );
    assert_eq!(e.system_requirements.as_deref(), Some("zlib"));
    assert_eq!(e.md5sum, "");
}

#[test]
fn an_unreadable_requirement_is_dropped() {
    let deps = parse_dep_field("a (>= 1.0), b (nonsense), , c");
    let names: Vec<&str> = deps.iter().map(|d| d.name.as_str()).collect();
    assert_eq!(names, vec!["a", "b", "c"]);
    assert_eq!(deps[0].req.as_ref().unwrap().shown, ">=1.0");
    assert_eq!(deps[0].req.as_ref().unwrap().text, ">=1.0");
    assert!(deps[1].req.is_none());
    assert!(deps[2].req.is_none());
    // A requirement is checked as it is written and told as it is shown.
    let deps = parse_dep_field("d (1 . 2)");
    let req = deps[0].req.as_ref().unwrap();
    assert_eq!((req.text.as_str(), req.shown.as_str()), ("1.2", "^1.2"));
    assert!(version_matches_req(&Version::new(1, 3, 0), req));
    assert!(!version_matches_req(&Version::new(2, 0, 0), req));
}

#[test]
fn without_a_copy_the_index_is_downloaded_and_put_by() {
    let mut f = fetch();
    assert_eq!(f.cache_key(), "bioc-3.20-data-annotation");
    let url = "https://bioconductor.org/packages/3.20/data/annotation/src/contrib/PACKAGES.gz";
    assert_eq!(f.url(), url);
    assert_eq!(
        f.step(FetchEvent::Cache {
            exists: false,
            known: None
        }),
        FetchAction::Get(Request {
            url: url.to_string(),
            headers: vec![],
        })
    );
    assert_eq!(f.step(replied(200, "200 OK")), FetchAction::ReadBody);
    assert_eq!(
        f.step(FetchEvent::Body(gzip(INDEX))),
        FetchAction::WriteData(INDEX.to_string())
    );
    // Only once the index is put by is its version put by.
    assert_eq!(
        f.step(FetchEvent::DataWritten(true)),
        FetchAction::WriteMeta(meta(Some("e2"), None))
    );
    match f.step(FetchEvent::MetaWritten) {
        FetchAction::Done(Ok(index)) => assert_eq!(index, parse_bioc_text(INDEX)),
        other => panic!("{other:?}"),
    }
    assert_eq!(f.state, FetchState::Finished);
}

#[test]
fn the_version_is_not_put_by_without_the_index() {
    let mut f = fetch();
    f.step(FetchEvent::Cache {
        exists: false,
        known: None,
    });
    f.step(replied(200, "200 OK"));
    f.step(FetchEvent::Body(gzip(INDEX)));
    match f.step(FetchEvent::DataWritten(false)) {
        FetchAction::Done(Ok(index)) => assert_eq!(index, parse_bioc_text(INDEX)),
        other => panic!("{other:?}"),
    }
}

#[test]
fn with_a_copy_the_server_is_asked_on_condition() {
    let mut f = fetch();
    match f.step(FetchEvent::Cache {
        exists: true,
        known: Some(meta(Some("e1"), Some("Mon"))),
    }) {
        FetchAction::Get(request) => assert_eq!(
            request.headers,
            vec![
                ("If-None-Match".to_string(), "e1".to_string()),
                ("If-Modified-Since".to_string(), "Mon".to_string()),
            ]
        ),
        other => panic!("{other:?}"),
    }
    assert_eq!(
        f.step(replied(304, "304 Not Modified")),
        FetchAction::ReadCache
    );
    match f.step(FetchEvent::CacheRead(INDEX.to_string())) {
        FetchAction::Done(Ok(index)) => assert!(index.contains_key("limma")),
        other => panic!("{other:?}"),
    }
}

#[test]
fn a_copy_outlives_a_server_that_fails() {
    for event in [
        replied(503, "503 Service Unavailable"),
        FetchEvent::SendFailed(vec!["offline".to_string()]),
    ] {
        let mut f = fetch();
        f.step(FetchEvent::Cache {
            exists: true,
            known: Some(meta(None, None)),
        });
        assert_eq!(f.step(event), FetchAction::ReadCache);
    }
    // Of a copy of unknown version the server is not asked at all.
    let mut f = fetch();
    assert_eq!(
        f.step(FetchEvent::Cache {
            exists: true,
            known: None
        }),
        FetchAction::ReadCache
    );
    assert_eq!(
        f.step(FetchEvent::CacheUnreadable("denied".to_string())),
        FetchAction::Done(Err(UvrError::Io("denied".to_string())))
    );
}

#[test]
fn without_a_copy_failures_are_errors() {
    let start = || {
        let mut f = fetch();
        f.step(FetchEvent::Cache {
            exists: false,
            known: None,
        });
        f
    };
    assert_eq!(
        start().step(FetchEvent::SendFailed(vec!["offline".to_string()])),
        FetchAction::Done(Err(UvrError::Network(vec!["offline".to_string()])))
    );
    assert_eq!(
        start().step(replied(404, "404 Not Found")),
        FetchAction::Done(Err(UvrError::Other(
            "Failed to fetch Bioconductor data/annotation index (HTTP 404 Not Found)".to_string()
        )))
    );
    let mut f = start();
    f.step(replied(200, "200 OK"));
    assert_eq!(
        f.step(FetchEvent::BodyFailed(vec!["reset".to_string()])),
        FetchAction::Done(Err(UvrError::Network(vec!["reset".to_string()])))
    );
    let mut f = start();
    f.step(replied(200, "200 OK"));
    match f.step(FetchEvent::Body(b"not gzip at all".to_vec())) {
        FetchAction::Done(Err(UvrError::Io(m))) => assert!(!m.is_empty()),
        other => panic!("{other:?}"),
    }
}

#[test]
fn what_unpacking_came_to_decides() {
    let mut f = fetch();
    assert_eq!(
        f.unpacked(meta(None, Some("Tue")), Ok("Package: a".to_string())),
        FetchAction::WriteData("Package: a".to_string())
    );
    assert_eq!(
        f.step(FetchEvent::DataWritten(true)),
        FetchAction::WriteMeta(meta(None, Some("Tue")))
    );
    assert_eq!(
        f.unpacked(meta(None, None), Err("broken".to_string())),
        FetchAction::Done(Err(UvrError::Io("broken".to_string())))
    );
}

#[test]
fn the_indexes_are_merged_with_software_first() {
    let one = |version: &str| parse_bioc_text(&format!("Package: a\nVersion: {version}\n"));
    let both = parse_bioc_text("Package: a\nVersion: 9.0\n\nPackage: b\nVersion: 2.0\n");
    let r = BiocRegistry::from_indexes("3.20", Ok(one("1.0")), Some(both), None, Some(one("8.0")))
        .unwrap();
    assert_eq!(r.release(), "3.20");
    assert!(r.contains("a") && r.contains("b") && !r.contains("c"));
    assert_eq!(
        r.resolve_package("a", Some("*")).unwrap().url,
        "https://bioconductor.org/packages/3.20/bioc/src/contrib/a_1.0.tar.gz"
    );
    assert_eq!(
        r.resolve_package("b", Some("")).unwrap().url,
        "https://bioconductor.org/packages/3.20/data/annotation/src/contrib/b_2.0.tar.gz"
    );
    assert_eq!(
        r.resolve_package("c", None).unwrap_err(),
        UvrError::PackageNotFound("c".to_string())
    );
    assert_eq!(
        r.resolve_package("b", Some("<2.0.0")).unwrap_err(),
        UvrError::NoMatchingVersion {
            package: "b".to_string(),
            constraint: "<2.0.0".to_string()
        }
    );
    assert!(matches!(
        r.resolve_package("b", Some("nonsense")),
        Err(UvrError::Semver(_))
    ));
    assert!(r.resolve_package("b", Some(">=2")).is_ok());
}

#[test]
fn software_has_to_be_there() {
    let e = BiocRegistry::from_indexes(
        "3.20",
        Err(UvrError::Io("full".to_string())),
        None,
        None,
        None,
    )
    .unwrap_err();
    assert_eq!(
        e.message(),
        "Failed to fetch Bioconductor 3.20 software index: I/O error: full"
    );
}

#[test]
fn a_fresh_copy_of_the_config_is_used() {
    let config = "r_ver_for_bioc_ver:\n  \"3.22\": \"4.5\"\n";
    let mut load = ConfigLoad::new();
    assert_eq!(
        load.step(ConfigEvent::Age(Some(604_799))),
        ConfigAction::ReadCache
    );
    assert_eq!(
        load.step(ConfigEvent::CacheRead(Some(config.to_string()))),
        ConfigAction::Done(Some(parse_bioc_config(config)))
    );
}

#[test]
fn a_stale_config_is_fetched_and_put_by() {
    let config = "devel_version: '3.24'\n";
    for age in [Some(604_800), None] {
        assert!(!cache_is_fresh(age));
        let mut load = ConfigLoad::new();
        assert_eq!(load.step(ConfigEvent::Age(age)), ConfigAction::Fetch);
        assert_eq!(
            load.step(ConfigEvent::Fetched(Some(config.to_string()))),
            ConfigAction::WriteCache(config.to_string())
        );
        assert_eq!(
            load.step(ConfigEvent::CacheWritten),
            ConfigAction::Done(Some(parse_bioc_config(config)))
        );
    }
}

#[test]
fn a_stale_config_is_the_last_resort() {
    let mut load = ConfigLoad::new();
    load.step(ConfigEvent::Age(None));
    assert_eq!(
        load.step(ConfigEvent::Fetched(None)),
        ConfigAction::ReadCache
    );
    assert_eq!(
        load.step(ConfigEvent::CacheRead(None)),
        ConfigAction::Done(None)
    );
    // A fresh copy that cannot be read is fetched.
    let mut load = ConfigLoad::new();
    load.step(ConfigEvent::Age(Some(1)));
    assert_eq!(load.step(ConfigEvent::CacheRead(None)), ConfigAction::Fetch);
}

#[test]
fn versions_and_scalars_of_the_config() {
    assert_eq!(version_key("4.5.1"), Some((4, 5)));
    assert_eq!(version_key(" 4 "), Some((4, 0)));
    assert_eq!(version_key("4.x"), None);
    assert_eq!(version_key(""), None);
    let cs: Vec<char> = " \"3.24\" ".chars().collect();
    assert_eq!(unquote(&cs), "3.24");
    // The devel release is not picked, and the last of equally new ones is.
    let c = parse_bioc_config(
        "devel_version: \"3.24\"\nr_ver_for_bioc_ver:\n  '3.23': 4.6\n  3.23.0: 4.6\n  '3.24': 4.6\n",
    );
    assert_eq!(c.release_for_r(4, 6).as_deref(), Some("3.23.0"));
    assert_eq!(c.release_for_r(4, 5), None);
    assert_eq!(c.release_for_r(9, 0).as_deref(), Some("3.23.0"));
}
