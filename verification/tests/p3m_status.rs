use uvr::registry::p3m_status::{codename_for, is_known, portable_codename, posit_arch, Distro};

/// Verbatim shape of six entries from the live endpoint (2026-07-31),
/// chosen for the cases the lookups have to get right: an x86_64-only
/// distro repo, one with arm64, a `binaries: false` entry, and the
/// portable repo sharing `centos`/`8` with a real distro entry.
const SAMPLE: &str = r#"{"distros":[
        {"name":"rhel8","os":"linux","distribution":"redhat","release":"8",
         "binaryURL":"centos8","sysReqs":true,"binaries":true,"hidden":false,
         "arch":["x86_64"]},
        {"name":"rhel9","os":"linux","distribution":"rockylinux","release":"9",
         "binaryURL":"rhel9","sysReqs":true,"binaries":true,"hidden":false,
         "arch":["x86_64","arm64"]},
        {"name":"jammy","os":"linux","distribution":"ubuntu","release":"22.04",
         "binaryURL":"jammy","sysReqs":true,"binaries":true,"hidden":false,
         "arch":["x86_64"]},
        {"name":"buster","os":"linux","distribution":"debian","release":"10",
         "binaryURL":"buster","sysReqs":true,"binaries":false,"hidden":true,
         "arch":["x86_64"]},
        {"name":"manylinux_2_28","os":"linux","distribution":"centos","release":"8",
         "binaryURL":"manylinux_2_28","sysReqs":false,"binaries":true,
         "hidden":false,"arch":["x86_64","arm64"]},
        {"name":"centos8","os":"linux","distribution":"centos","release":"8",
         "binaryURL":"centos8","sysReqs":true,"binaries":true,"hidden":true,
         "arch":["x86_64"]}
    ]}"#;

fn sample() -> Vec<Distro> {
    let status: serde_json::Value = serde_json::from_str(SAMPLE).unwrap();
    let text = |d: &serde_json::Value, key: &str| d[key].as_str().unwrap().to_string();
    status["distros"]
        .as_array()
        .unwrap()
        .iter()
        .map(|d| Distro {
            name: text(d, "name"),
            os: text(d, "os"),
            distribution: text(d, "distribution"),
            release: text(d, "release"),
            binary_url: text(d, "binaryURL"),
            binaries: d["binaries"].as_bool().unwrap(),
            sys_reqs: d["sysReqs"].as_bool().unwrap(),
            arch: d["arch"]
                .as_array()
                .unwrap()
                .iter()
                .map(|a| a.as_str().unwrap().to_string())
                .collect(),
        })
        .collect()
}

#[test]
fn resolves_a_distro_repo_for_its_architecture() {
    let d = sample();
    assert_eq!(codename_for(&d, "redhat", "8", "x86_64"), Some("centos8"));
    assert_eq!(codename_for(&d, "rockylinux", "9", "x86_64"), Some("rhel9"));
    assert_eq!(codename_for(&d, "ubuntu", "22.04", "x86_64"), Some("jammy"));
}

#[test]
fn declines_a_repo_that_has_no_build_for_this_architecture() {
    // The arm64 gap this module exists for: jammy is x86_64-only, so an
    // arm64 host must be told "no" here and sent to the portable repo,
    // which does have arm64 builds. The old slug table answered "jammy"
    // on both architectures and left arm64 users compiling everything.
    let d = sample();
    assert_eq!(codename_for(&d, "ubuntu", "22.04", "arm64"), None);
    assert_eq!(codename_for(&d, "rockylinux", "9", "arm64"), Some("rhel9"));
    assert_eq!(portable_codename(&d, "arm64"), Some("manylinux_2_28"));
}

#[test]
fn declines_a_distro_that_has_no_binaries_at_all() {
    // Debian 10 is in the catalog for sysreqs but `binaries: false`.
    let d = sample();
    assert_eq!(codename_for(&d, "debian", "10", "x86_64"), None);
}

#[test]
fn the_portable_repo_never_answers_a_distro_lookup() {
    // manylinux_2_28 is published as distribution `centos` release `8` —
    // the same key real CentOS 8 has. The sample lists it *before* the
    // centos8 entry on purpose: a plain scan would return whichever comes
    // first, so this passing on the live catalog today is luck, not
    // design. On arm64 it is not even luck: centos8 has no arm64 build,
    // so the portable entry is the only match and would be returned
    // without ever going through the glibc floor check that guards it.
    let d = sample();
    assert_eq!(codename_for(&d, "centos", "8", "x86_64"), Some("centos8"));
    assert_eq!(codename_for(&d, "centos", "8", "arm64"), None);
    // Reachable only through the front door, where the floor is checked.
    assert_eq!(portable_codename(&d, "arm64"), Some("manylinux_2_28"));
}

#[test]
fn is_known_ignores_the_portable_repo() {
    let d = sample();
    assert!(is_known(&d, "centos", "8"), "the real centos8 entry");
    assert!(is_known(&d, "ubuntu", "22.04"));
    assert!(is_known(&d, "rockylinux", "9"));
    // Catalogued for sysreqs with binaries: false. Known — the catalog
    // has an opinion about it — so the static table does not get to
    // resurrect a repo Posit is declining.
    assert!(is_known(&d, "debian", "10"));
    assert_eq!(codename_for(&d, "debian", "10", "x86_64"), None);
    // Never catalogued at all: the table may still know an alias.
    assert!(!is_known(&d, "ol", "8.10"));
}

#[test]
fn unknown_distros_resolve_to_nothing() {
    let d = sample();
    assert_eq!(codename_for(&d, "ol", "8.10", "x86_64"), None);
    assert_eq!(codename_for(&d, "arch", "", "x86_64"), None);
}

#[test]
fn posit_spells_aarch64_as_arm64() {
    assert_eq!(posit_arch("aarch64"), "arm64");
    assert_eq!(posit_arch("x86_64"), "x86_64");
}
