use uvr::lockfile::PackageSource;
use uvr::registry::bioconductor::config::{
    bioc_release_for_r, parse_bioc_config, resolve_release,
};
use uvr::registry::bioconductor::{BiocEntry, BiocRegistry};
use uvr::registry::cran::CranPackageEntry;
use uvr::resolver::Version;
use uvr::strmap::StrMap;


fn make_entry(name: &str, raw_version: &str, md5: &str) -> CranPackageEntry {
    let parts: Vec<u64> = raw_version
        .split(['.', '-'])
        .filter_map(|s| s.parse().ok())
        .collect();
    let version = Version::new(
        parts.first().copied().unwrap_or(0),
        parts.get(1).copied().unwrap_or(0),
        parts.get(2).copied().unwrap_or(0),
    );
    CranPackageEntry {
        name: name.to_string(),
        version,
        raw_version: raw_version.to_string(),
        depends: vec![],
        imports: vec![],
        linking_to: vec![],
        md5sum: md5.to_string(),
        system_requirements: None,
        path: None,
        built: None,
    }
}

/// A trimmed but structurally faithful sample of
/// https://bioconductor.org/config.yaml — same quoting, same trailing
/// comments, same `versions:` sequence right after the mapping block (the
/// thing a naive indent-based parser trips over).
const CONFIG_YAML_FIXTURE: &str = r#"---
## Lines that must be updated when we release a new software version are
## indicated in comments below

output_dir: output

## CHANGE THIS WHEN WE RELEASE A VERSION:
release_version: "3.23"
r_version_associated_with_release: "4.6.0"
r_version_associated_with_devel: "4.6.0"

## CHANGE THIS WHEN WE RELEASE A VERSION:
devel_version: "3.24"

versions:
- "3.23"
- "3.24"

r_ver_for_bioc_ver:
  "2.11": "2.15" # R switching to yearly releases, BioC remaining the same
  "3.17": "4.3"
  "3.18": "4.3"
  "3.19": "4.4"
  "3.20": "4.4"
  "3.21": "4.5"
  "3.22": "4.5"
  "3.23": "4.6"
  "3.24": "4.6"
# UPDATE THIS when we release a version

release_dates:
  "3.23": "April 2026"
"#;

#[test]
fn config_yaml_parses_the_two_fields_we_need() {
    let cfg = parse_bioc_config(CONFIG_YAML_FIXTURE);
    assert_eq!(cfg.devel.as_deref(), Some("3.24"));
    // Only the r_ver_for_bioc_ver block is collected — not the
    // `versions:` sequence items, not the `release_dates:` block that
    // follows the terminating comment.
    assert_eq!(cfg.pairs.len(), 9);
    assert_eq!(cfg.pairs.first().unwrap().0, "2.11");
    assert!(cfg.pairs.iter().any(|(b, r)| b == "3.23" && r == "4.6"));
    assert!(!cfg.pairs.iter().any(|(b, _)| b == "April 2026"));
}

#[test]
fn config_yaml_picks_latest_released_bioc_per_r() {
    // #120: two Bioc releases share each R, and the newer one is the
    // answer. The vendored table says R 4.5 → 3.21; the live config says
    // 3.22, and that staleness is exactly what this fixes.
    let cfg = parse_bioc_config(CONFIG_YAML_FIXTURE);
    assert_eq!(cfg.release_for_r(4, 5).as_deref(), Some("3.22"));
    assert_eq!(cfg.release_for_r(4, 4).as_deref(), Some("3.20"));
    assert_eq!(cfg.release_for_r(4, 3).as_deref(), Some("3.18"));
}

#[test]
fn config_yaml_excludes_the_devel_release() {
    // R 4.6 pairs with both 3.23 (released) and 3.24 (devel). Devel must
    // never win: its packages are built against an unreleased branch and
    // change under a lockfile that pins them.
    let cfg = parse_bioc_config(CONFIG_YAML_FIXTURE);
    assert_eq!(cfg.release_for_r(4, 6).as_deref(), Some("3.23"));
}

#[test]
fn config_yaml_newer_r_gets_newest_released() {
    // An R the cached config predates still resolves to the newest
    // released Bioc (not devel), mirroring the vendored table's catch-all.
    let cfg = parse_bioc_config(CONFIG_YAML_FIXTURE);
    assert_eq!(cfg.release_for_r(4, 7).as_deref(), Some("3.23"));
    assert_eq!(cfg.release_for_r(5, 0).as_deref(), Some("3.23"));
}

#[test]
fn config_yaml_older_r_defers_to_the_table() {
    // R 4.0 predates every pair in the fixture, so the config has no
    // opinion and the vendored table answers.
    let cfg = parse_bioc_config(CONFIG_YAML_FIXTURE);
    assert_eq!(cfg.release_for_r(4, 0), None);
    assert_eq!(resolve_release(Some(&cfg), "4.0.5"), "3.12");
}

#[test]
fn unusable_config_falls_back_to_the_table() {
    // A missing, truncated, or restructured config.yaml must not break
    // resolution — the vendored table is the safety net.
    assert_eq!(resolve_release(None, "4.5.1"), "3.21");
    let empty = parse_bioc_config("output_dir: output\n");
    assert!(empty.pairs.is_empty());
    assert_eq!(resolve_release(Some(&empty), "4.5.1"), "3.21");
}

#[test]
fn bioc_release_mapping() {
    assert_eq!(bioc_release_for_r(4, 5), "3.21");
    assert_eq!(bioc_release_for_r(4, 4), "3.20");
    assert_eq!(bioc_release_for_r(4, 3), "3.18");
    assert_eq!(bioc_release_for_r(4, 2), "3.16");
    assert_eq!(bioc_release_for_r(4, 1), "3.14");
    assert_eq!(bioc_release_for_r(4, 0), "3.12");
}

#[test]
fn bioc_release_fallback() {
    // Unknown R versions fall back to the newest known release, not a
    // stale one — a future R should err toward the latest Bioc API.
    assert_eq!(bioc_release_for_r(5, 0), "3.23");
    assert_eq!(bioc_release_for_r(3, 6), "3.23");
    // R 4.6 is now mapped explicitly to its paired release.
    assert_eq!(bioc_release_for_r(4, 6), "3.23");
}

#[test]
fn resolve_missing_package() {
    let registry = BiocRegistry {
        packages: StrMap::new(),
        bioc_release: "3.20".to_string(),
    };
    let result = registry.resolve_package("NonExistentPkg", None);
    assert!(result.is_err());
}

#[test]
fn resolve_software_package_uses_bioc_subrepo() {
    let mut packages = StrMap::new();
    packages.insert(
        "DESeq2".to_string(),
        BiocEntry {
            entry: make_entry("DESeq2", "1.42.0", "abc123"),
            subrepo: "bioc",
        },
    );
    let registry = BiocRegistry {
        packages,
        bioc_release: "3.20".to_string(),
    };
    let info = registry.resolve_package("DESeq2", None).unwrap();
    assert_eq!(info.source, PackageSource::Bioconductor);
    assert!(info
        .url
        .contains("/3.20/bioc/src/contrib/DESeq2_1.42.0.tar.gz"));
    assert_eq!(info.checksum, Some("md5:abc123".to_string()));
}

#[test]
fn resolve_annotation_package_uses_data_annotation_subrepo() {
    let mut packages = StrMap::new();
    packages.insert(
        "GenomeInfoDbData".to_string(),
        BiocEntry {
            entry: make_entry("GenomeInfoDbData", "1.2.13", ""),
            subrepo: "data/annotation",
        },
    );
    let registry = BiocRegistry {
        packages,
        bioc_release: "3.21".to_string(),
    };
    let info = registry.resolve_package("GenomeInfoDbData", None).unwrap();
    assert!(info
        .url
        .contains("/3.21/data/annotation/src/contrib/GenomeInfoDbData_1.2.13.tar.gz"));
    assert_eq!(info.checksum, None);
}

#[test]
fn resolve_package_constraint_mismatch() {
    let mut packages = StrMap::new();
    packages.insert(
        "SummarizedExperiment".to_string(),
        BiocEntry {
            entry: make_entry("SummarizedExperiment", "1.30.0", ""),
            subrepo: "bioc",
        },
    );
    let registry = BiocRegistry {
        packages,
        bioc_release: "3.18".to_string(),
    };
    let result = registry.resolve_package("SummarizedExperiment", Some(">=2.0.0"));
    assert!(result.is_err());
}

#[test]
fn release_returns_bioc_version() {
    let registry = BiocRegistry {
        packages: StrMap::new(),
        bioc_release: "3.20".to_string(),
    };
    assert_eq!(registry.release(), "3.20");
}

#[test]
fn offline_resolution_maps_r_to_bioc() {
    // The no-config path (offline, empty cache). R 4.6 must map to its own
    // Bioc release (3.23), not the 4.5 fallback — pulling 3.21 here ships
    // R-4.5-API package sources that fail to compile against R 4.6 headers
    // (the S4Vectors PRENV/Rf_findVar bug).
    assert_eq!(resolve_release(None, "4.6.0"), "3.23");
    assert_eq!(resolve_release(None, "4.5.1"), "3.21");
    assert_eq!(resolve_release(None, "4.4.0"), "3.20");
    assert_eq!(resolve_release(None, "4.3"), "3.18");
    // Unparseable / partial versions fall through to the newest known
    // release (the minor fallback is deliberately outside the table).
    assert_eq!(resolve_release(None, "garbage"), "3.23");
    assert_eq!(resolve_release(None, "4"), "3.23");
    assert_eq!(resolve_release(None, "9.9.9"), "3.23");
}

#[test]
fn contains_reports_membership() {
    // Empty registry contains nothing; non-empty path is exercised live.
    let registry = BiocRegistry {
        packages: StrMap::new(),
        bioc_release: "3.20".to_string(),
    };
    assert!(!registry.contains("DESeq2"));
}
