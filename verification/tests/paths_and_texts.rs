use std::collections::BTreeMap;

use uvr::commands::activate::{
    activation_hint, emit_script, fish_quote, ps_quote, sh_quote, shims, write_script,
    ActivateShell,
};
use uvr::error::{describe_network_error, UvrError};
use uvr::installer::tar_compat::LinkSizeFix;
use uvr::os_release::OsRelease;
use uvr::r_env::{bin_dir_of, lib_dir_of, Platform, REnv};
use uvr::registry::github::is_valid_git_ref;
use uvr::registry::p3m_status::{
    after_cache, after_fetch, cache_file, CatalogCache, CatalogStep, Distro,
};
use uvr::strmap::StrMap;
use uvr::subdirectory::{encode_segments, validate};

fn env(r_binary: &str, platform: Platform) -> REnv {
    REnv {
        r_binary: r_binary.to_string(),
        library: "/lib".to_string(),
        with_library: None,
        extra_libs: Some(" /x ".to_string()),
        platform,
    }
}

#[test]
fn directories_of_odd_paths() {
    for (path, bin, lib) in [
        ("/usr/bin/R", "/usr/bin", "/usr/lib"),
        ("/bin/R", "/bin", "/lib"),
        ("/R", "/", ""),
        ("/", "", ""),
        ("", "", ""),
        ("R", "", ""),
        ("bin/R", "bin", "lib"),
        ("./R", ".", "lib"),
        (".", "", ""),
        ("..", "", ""),
        ("a/b/../R", "a/b/..", "a/b/lib"),
        ("a//b//R/", "a//b", "a/lib"),
        ("a/./b/./R/.", "a/./b", "a/lib"),
        ("//R", "/", ""),
        ("./a/./R", "./a", "./lib"),
    ] {
        let e = env(path, Platform::Unix);
        let p = std::path::Path::new(path);
        let parent = p.parent().map(|d| d.to_str().unwrap()).unwrap_or("");
        assert_eq!(e.r_bin_dir(), bin, "{path}");
        assert_eq!(e.r_bin_dir(), parent, "{path}");
        assert_eq!(e.r_lib_dir(), lib, "{path}");
    }
}

#[test]
fn other_systems_read_paths_by_their_own_rules() {
    let e = env("/opt/R/bin/R", Platform::Windows);
    assert_eq!(e.r_bin_dir(), "/opt/R/bin");
    assert!(e.r_lib_dir().ends_with("lib"));
    assert_eq!(e.r_libs_user(), "/lib;/x");
    assert_eq!(env("/R", Platform::Unix).r_libs_user(), "/lib:/x");
    // What holds on every system holds whichever this is.
    for path in ["", "R", "/R", "C:/R/bin/R.exe", "a\\b/c", "//h/s/R", "\\\\?\\C:\\R\\bin\\R"] {
        let e = env(path, Platform::Windows);
        let bin = e.r_bin_dir();
        assert!(path.starts_with(&bin), "{path}");
        assert!(path.is_empty() || bin.len() < path.len(), "{path}");
        let lib = e.r_lib_dir();
        assert!(lib.is_empty() || lib.ends_with("lib"), "{path}");
    }
    let e = env("C:/R-4.4/bin/R.exe", Platform::Windows);
    assert_eq!(e.r_bin_dir(), "C:/R-4.4/bin");
    assert!(e.r_lib_dir().starts_with("C:/R-4.4"));
    assert_eq!(e.clone(), e);
}

#[test]
fn directories_are_made_of_what_the_system_reads() {
    let some = |s: &str| Some(s.to_string());
    assert_eq!(bin_dir_of(some("C:\\R\\bin")), "C:\\R\\bin");
    assert_eq!(bin_dir_of(None), "");
    let joined = "C:\\R\\lib".to_string();
    assert_eq!(
        lib_dir_of(&some("C:\\R\\bin"), &some("C:\\R"), joined.clone()),
        joined
    );
    assert_eq!(lib_dir_of(&some("bin"), &None, joined.clone()), "");
    assert_eq!(lib_dir_of(&None, &some("C:\\R"), joined), "");
    let vars = env("R", Platform::Windows).vars_with("C:\\R\\lib");
    assert_eq!(vars[0], ("R_LIBS_USER", "/lib;/x".to_string()));
    assert_eq!(vars[3], ("DYLD_LIBRARY_PATH", "C:\\R\\lib".to_string()));
    assert_eq!(vars[4], ("LD_LIBRARY_PATH", "C:\\R\\lib".to_string()));
}

#[test]
fn scripts_share_what_they_manage_on_every_system() {
    let e = env("R", Platform::Windows);
    let script = |shell| write_script(shell, "p", &e, "C:\\R\\bin", "C:\\it's");
    let posix = script(ActivateShell::Sh);
    assert_eq!(posix, script(ActivateShell::Bash));
    assert_eq!(posix, script(ActivateShell::Zsh));
    assert!(posix.contains("PATH='C:\\R\\bin'\";${PATH-}\"; export PATH\n"));
    assert!(posix.contains("LD_LIBRARY_PATH='C:\\it'\\''s'; export LD_LIBRARY_PATH\n"));
    assert!(script(ActivateShell::Fish).contains("set -gx LD_LIBRARY_PATH 'C:\\\\it\\'s'\n"));
    assert!(script(ActivateShell::Powershell).contains("$env:LD_LIBRARY_PATH = 'C:\\it''s'\n"));
}

#[test]
fn scripts_in_full() {
    let e = REnv {
        extra_libs: None,
        ..env("/R/bin/R", Platform::Unix)
    };
    let posix = emit_script(ActivateShell::Zsh, "p", &e);
    let lines: Vec<&str> = posix.lines().collect();
    assert_eq!(
        lines[0],
        "# uvr activation for project p — generated by `uvr activate --emit sh`."
    );
    assert_eq!(
        lines[2],
        "UVR_OLD_PATH=\"${PATH-}\"; UVR_OLD_PATH_SET=\"${PATH+1}\"; export UVR_OLD_PATH UVR_OLD_PATH_SET"
    );
    assert_eq!(lines[11], "PATH='/R/bin'\":${PATH-}\"; export PATH");
    assert_eq!(lines[12], "R_LIBS_USER='/lib'; export R_LIBS_USER");
    assert_eq!(lines[19], "UVR_PROJECT='p'; export UVR_PROJECT");
    assert_eq!(lines[20], "deactivate() {");
    assert_eq!(
        lines[21],
        "    if [ -n \"${UVR_OLD_PATH_SET-}\" ]; then PATH=\"${UVR_OLD_PATH-}\"; export PATH; else unset PATH; fi"
    );
    assert_eq!(lines[29], "    unset UVR_PROJECT");
    assert!(lines[30].starts_with("    unset UVR_OLD_PATH UVR_OLD_PATH_SET UVR_OLD_R_LIBS_USER"));
    assert_eq!(lines[31..], ["    unset -f deactivate", "}"]);
    assert_eq!(posix, emit_script(ActivateShell::Sh, "p", &e));
    assert_eq!(posix, emit_script(ActivateShell::Bash, "p", &e));
    let fish = emit_script(ActivateShell::Fish, "p", &e);
    assert!(fish.contains(
        "if set -q R_LIBS\n    set -g UVR_OLD_R_LIBS $R_LIBS\n    set -g UVR_OLD_R_LIBS_SET 1\nelse\n    set -g UVR_OLD_R_LIBS_SET ''\nend\n"
    ));
    assert!(fish.contains(
        "    if test -n \"$UVR_OLD_R_LIBS_SET\"\n        set -gx R_LIBS $UVR_OLD_R_LIBS\n    else\n        set -e R_LIBS\n    end\n"
    ));
    assert!(fish.contains("\n    end\n    set -e UVR_PROJECT\n    set -e UVR_OLD_PATH "));
    assert!(fish.ends_with("UVR_OLD_UVR_PROJECT_SET\n    functions -e deactivate\nend\n"));
    let ps = emit_script(ActivateShell::Powershell, "p", &e);
    assert!(ps.contains(
        "if (Test-Path Env:\\R_LIBS) { $env:UVR_OLD_R_LIBS = $env:R_LIBS; $env:UVR_OLD_R_LIBS_SET = '1' } else { $env:UVR_OLD_R_LIBS_SET = '' }\n"
    ));
    assert!(ps.contains(
        "    if ($env:UVR_OLD_R_LIBS_SET) { $env:R_LIBS = $env:UVR_OLD_R_LIBS } else { Remove-Item Env:\\R_LIBS -ErrorAction SilentlyContinue }\n"
    ));
    assert!(ps.contains(
        "    Remove-Item Env:\\UVR_OLD_R_LIBS -ErrorAction SilentlyContinue\n    Remove-Item Env:\\UVR_OLD_R_LIBS_SET -ErrorAction SilentlyContinue\n"
    ));
    assert!(ps.contains(
        "}\n    Remove-Item Env:\\UVR_PROJECT -ErrorAction SilentlyContinue\n    Remove-Item Env:\\UVR_OLD_PATH "
    ));
    assert!(ps.ends_with("    Remove-Item Function:\\deactivate -ErrorAction SilentlyContinue\n}\n"));
}

/// What a POSIX shell does on the lines of a script that it meets outside of the
/// function which the script defines.
fn apply(script: &str, vars: &mut BTreeMap<String, String>) {
    for line in script.lines().skip(2) {
        if line == "deactivate() {" {
            return;
        }
        let (name, rest) = line.split_once('=').unwrap();
        if let Some(saved) = name.strip_prefix("UVR_OLD_") {
            let value = vars.get(saved).cloned();
            let mark = if value.is_some() { "1" } else { "" };
            vars.insert(format!("UVR_OLD_{saved}_SET"), mark.to_string());
            vars.insert(name.to_string(), value.unwrap_or_default());
        } else {
            let value = rest.split('\'').nth(1).unwrap();
            let kept = if name == "PATH" {
                format!(":{}", vars.get("PATH").cloned().unwrap_or_default())
            } else {
                String::new()
            };
            vars.insert(name.to_string(), format!("{value}{kept}"));
        }
    }
}

/// What a POSIX shell does on the lines of the function that a script defines.
fn undo(script: &str, vars: &mut BTreeMap<String, String>) {
    for line in script.lines().skip_while(|l| *l != "deactivate() {").skip(1) {
        if line.starts_with("    if [") {
            let name = line.split("then ").nth(1).unwrap().split('=').next().unwrap();
            if vars[&format!("UVR_OLD_{name}_SET")].is_empty() {
                vars.remove(name);
            } else {
                let value = vars[&format!("UVR_OLD_{name}")].clone();
                vars.insert(name.to_string(), value);
            }
        } else if let Some(names) = line.strip_prefix("    unset UVR") {
            for name in format!("UVR{names}").split(' ') {
                vars.remove(name);
            }
        }
    }
}

#[test]
fn deactivating_leaves_the_shell_as_it_was_found() {
    let script = emit_script(ActivateShell::Sh, "p", &env("/R/bin/R", Platform::Unix));
    let mut vars: BTreeMap<String, String> = BTreeMap::new();
    vars.insert("PATH".to_string(), "/usr/bin".to_string());
    vars.insert("R_LIBS".to_string(), String::new());
    vars.insert("OTHER".to_string(), "x".to_string());
    let found = vars.clone();
    apply(&script, &mut vars);
    assert_eq!(vars["PATH"], "/R/bin:/usr/bin");
    assert_eq!(vars["R_LIBS_USER"], "/lib:/x");
    assert_eq!(vars["LD_LIBRARY_PATH"], "/R/lib");
    assert_eq!(vars["UVR_PROJECT"], "p");
    undo(&script, &mut vars);
    assert_eq!(vars, found);
}

#[test]
fn deactivating_unsets_the_project_whatever_it_was() {
    let script = emit_script(ActivateShell::Sh, "p", &env("/R/bin/R", Platform::Unix));
    let mut vars: BTreeMap<String, String> = BTreeMap::new();
    vars.insert("UVR_PROJECT".to_string(), "other".to_string());
    vars.insert("PATH".to_string(), "/usr/bin".to_string());
    apply(&script, &mut vars);
    assert_eq!(vars["UVR_PROJECT"], "p");
    undo(&script, &mut vars);
    assert!(!vars.contains_key("UVR_PROJECT"));
    assert_eq!(vars["PATH"], "/usr/bin");
    assert_eq!(vars.len(), 1);
}

#[test]
fn activating_again_does_not_stack() {
    let first = emit_script(ActivateShell::Sh, "p", &env("/R/bin/R", Platform::Unix));
    let second = emit_script(ActivateShell::Sh, "q", &env("/S/bin/R", Platform::Unix));
    let mut found: BTreeMap<String, String> = BTreeMap::new();
    found.insert("PATH".to_string(), "/usr/bin".to_string());
    let mut alone = found.clone();
    apply(&second, &mut alone);
    let mut vars = found;
    apply(&first, &mut vars);
    for _ in 0..2 {
        // The guard of the second script runs the function of the one before.
        let previous = if vars["UVR_PROJECT"] == "p" { &first } else { &second };
        undo(previous, &mut vars);
        apply(&second, &mut vars);
        assert_eq!(vars, alone);
    }
    assert_eq!(vars["PATH"], "/S/bin:/usr/bin");
}

#[test]
fn quotes_of_every_shell() {
    assert_eq!(sh_quote("a'b c"), "'a'\\''b c'");
    assert_eq!(sh_quote(""), "''");
    assert_eq!(fish_quote("a\\'b"), "'a\\\\\\'b'");
    assert_eq!(ps_quote("''"), "''''''");
}

#[test]
fn there_is_a_script_for_every_shell() {
    let all = shims();
    let names: Vec<&str> = all.iter().map(|(n, _)| *n).collect();
    assert_eq!(names, vec!["activate", "activate.fish", "activate.ps1"]);
    for ((_, body), ask) in all.iter().zip(["sh", "fish", "powershell"]) {
        assert!(body.contains(&format!("uvr activate --emit {ask}")));
    }
    assert_eq!(
        activation_hint(),
        "Activate this project with:\n\n    source .uvr/activate\n\nThen run `deactivate` to restore your shell."
    );
}

#[test]
fn every_cause_of_a_network_error_is_told_once() {
    let causes = |v: &[&str]| v.iter().map(|s| s.to_string()).collect::<Vec<String>>();
    assert_eq!(
        describe_network_error(&causes(&["send failed: refused", "refused", "os error"])),
        "send failed: refused: os error"
    );
    assert_eq!(
        UvrError::Network(causes(&["a", "b"])).message(),
        "Network error: a: b"
    );
    assert_eq!(describe_network_error(&vec![]), "");
}

#[test]
fn messages_of_errors() {
    let s = |t: &str| t.to_string();
    for (e, m) in [
        (
            UvrError::ManifestNotFound,
            "Project manifest not found (no uvr.toml in current directory or any parent)",
        ),
        (UvrError::ManifestParse(s("x")), "Manifest parse error: x"),
        (
            UvrError::PackageNotFound(s("x")),
            "Package not found: x. If this package was recently archived from CRAN, try installing from the CRAN GitHub mirror: uvr add cran/x@master",
        ),
        (
            UvrError::VersionConflict {
                package: s("p"),
                required: s("r"),
                conflicting: s("c"),
            },
            "Version conflict for package 'p': required r, but c is already selected",
        ),
        (
            UvrError::ChecksumMismatch {
                package: s("p"),
                expected: s("e"),
                actual: s("a"),
            },
            "Checksum mismatch for p: expected e, got a",
        ),
        (
            UvrError::RNotFound,
            "R not found on PATH. Install R or use `uvr r install <version>`",
        ),
        (
            UvrError::RVersionUnsatisfied {
                constraint: s("c"),
                installed: s("i"),
            },
            "R version constraint 'c' not satisfied by any installed R (i)",
        ),
        (UvrError::Io(s("x")), "I/O error: x"),
        (UvrError::Other(s("x")), "x"),
        (UvrError::LockfileParse(s("x")), "Lockfile parse error: x"),
        (UvrError::TomlSer(s("x")), "TOML serialization error: x"),
        (UvrError::TomlDe(s("x")), "TOML deserialization error: x"),
        (UvrError::Semver(s("x")), "Semver parse error: x"),
        (UvrError::UnsupportedPlatform(s("x")), "Unsupported platform: x"),
        (
            UvrError::InstallFailed {
                package: s("p"),
                code: -12,
            },
            "R CMD INSTALL failed for p (exit code -12)",
        ),
        (
            UvrError::CircularDependency(s("p")),
            "Circular dependency detected involving: p",
        ),
        (
            UvrError::NoMatchingVersion {
                package: s("p"),
                constraint: s("c"),
            },
            "No version of 'p' satisfies constraint 'c'",
        ),
    ] {
        assert_eq!(e.message(), m);
    }
}

#[test]
fn refs_that_can_be_asked_for() {
    let ok = |r: &str| is_valid_git_ref(&r.chars().collect::<Vec<char>>());
    for good in ["main", "v1.2.3", "feature/x", "a-b_c"] {
        assert!(ok(good), "{good}");
    }
    for bad in ["", "a b", "a\tb", "a~1", "a^", "a:b", "a?b", "a*", "a[b", "a\\b", "a%2F"] {
        assert!(!ok(bad), "{bad}");
    }
}

#[test]
fn encoding_keeps_segments_apart() {
    assert_eq!(encode_segments("a b/\u{e9}/c?d#e&f"), "a%20b/%C3%A9/c%3Fd%23e%26f");
    assert_eq!(encode_segments("-_.~"), "-_.~");
    assert_eq!(encode_segments(""), "");
    assert_eq!(
        validate("../x").unwrap_err().message(),
        "Invalid subdirectory '../x'. Expected a repository-relative path such as 'pkg' or 'r/pkg': no leading '/', no '\\', no ':', no '.' or '..' segments, and no empty segments."
    );
}

#[test]
fn os_release_lines() {
    let os = OsRelease::parse("ID=a\r\nVARIANT_ID=x\nVERSION_ID=\"1\"\nID=\"\u{c4}B\"\n");
    assert_eq!(os.id, "\u{e4}b");
    assert_eq!(os.version_id, "1");
    assert_eq!(OsRelease::parse("X=1").id, OsRelease::default().id);
}

#[test]
fn the_catalog_is_put_by_only_with_platforms() {
    let distro = Distro {
        name: "jammy".to_string(),
        os: "linux".to_string(),
        distribution: "ubuntu".to_string(),
        release: "22.04".to_string(),
        binary_url: "jammy".to_string(),
        binaries: true,
        sys_reqs: true,
        arch: vec!["x86_64".to_string()],
    };
    assert_eq!(after_fetch(None), None);
    assert_eq!(after_fetch(Some(vec![])), None);
    assert_eq!(
        after_fetch(Some(vec![distro.clone()])),
        Some(vec![distro.clone()])
    );
    assert_eq!(
        after_cache(CatalogCache::Corrupt),
        CatalogStep::Fetch { remove_cache: true }
    );
    assert_eq!(
        after_cache(CatalogCache::Missing),
        CatalogStep::Fetch {
            remove_cache: false
        }
    );
    assert_eq!(
        after_cache(CatalogCache::Read(vec![])),
        CatalogStep::Use(vec![])
    );
    assert_eq!(cache_file("2026-07-31"), "p3m-status-2026-07-31.json");
}

#[test]
fn maps_are_in_the_order_of_bytes() {
    let mut m: StrMap<u8> = StrMap::new();
    for (i, k) in ["b", "a", "\u{e9}", "A", "ab"].iter().enumerate() {
        assert_eq!(m.insert(k.to_string(), i as u8), None);
    }
    assert_eq!(m.insert("a".to_string(), 9), Some(1));
    let keys: Vec<&str> = m.entries().iter().map(|(k, _)| k.as_str()).collect();
    assert_eq!(keys, vec!["A", "a", "ab", "b", "\u{e9}"]);
    assert_eq!(m.get("a"), Some(&9));
    let copy = m.clone();
    assert_eq!(m.remove("a"), Some(9));
    assert_eq!(m.remove("a"), None);
    assert!(copy.contains_key("a") && !m.contains_key("a"));
    assert_eq!(m.into_entries().len(), 4);
}

#[test]
fn sizes_in_headers() {
    assert_eq!(LinkSizeFix::parse_octal_size(b"00000000017\0"), Some(15));
    assert_eq!(LinkSizeFix::parse_octal_size(b"+17 junk"), Some(15));
    assert_eq!(LinkSizeFix::parse_octal_size(b" 17"), Some(0));
    assert_eq!(LinkSizeFix::parse_octal_size(b"\0"), Some(0));
    assert_eq!(LinkSizeFix::parse_octal_size(b"19"), None);
    assert_eq!(LinkSizeFix::parse_octal_size(b"\x80\0"), None);
    assert_eq!(LinkSizeFix::parse_octal_size(b"1\xff"), None);
    assert_eq!(LinkSizeFix::parse_octal_size(b""), Some(0));
}

#[test]
fn fixing_a_header_twice_is_fixing_it_once() {
    let mut h = vec![0u8; 512];
    h[0] = b'a';
    h[124..135].copy_from_slice(b"00000001000");
    h[156] = b'2';
    let (once, skip) = LinkSizeFix::normalize_header(&h);
    assert_eq!(skip, 0);
    assert_eq!(&once[124..136], b"00000000000\0");
    // The sum of the bytes, the checksum's own being spaces.
    let sum: u64 = once
        .iter()
        .enumerate()
        .map(|(i, b)| if (148..156).contains(&i) { 32 } else { *b as u64 })
        .sum();
    assert_eq!(&once[148..156], format!("{sum:06o}\0 ").as_bytes());
    assert_eq!(LinkSizeFix::normalize_header(&once), (once.clone(), 0));
    // A file has its data, in whole blocks.
    h[156] = b'0';
    assert_eq!(LinkSizeFix::normalize_header(&h), (h.clone(), 512));
}
