use uvr::r_env::{path_sep, Platform, REnv};

fn renv() -> REnv {
    REnv {
        r_binary: "/opt/R/4.4.2/bin/R".to_string(),
        library: "/proj/.uvr/library".to_string(),
        with_library: None,
        extra_libs: None,
        platform: Platform::Unix,
    }
}

#[test]
fn libs_user_is_the_library_when_nothing_else_is_set() {
    assert_eq!(renv().r_libs_user(), "/proj/.uvr/library");
}

#[test]
fn with_library_takes_precedence_over_the_project_library() {
    let sep = path_sep(Platform::Unix);
    let env = REnv {
        with_library: Some("/cache/with-envs/abc/.uvr/library".to_string()),
        ..renv()
    };
    assert_eq!(
        env.r_libs_user(),
        format!("/cache/with-envs/abc/.uvr/library{sep}/proj/.uvr/library")
    );
}

#[test]
fn extra_libs_are_appended_last() {
    let sep = path_sep(Platform::Unix);
    let env = REnv {
        with_library: Some("/with".to_string()),
        extra_libs: Some("/site/lib".to_string()),
        ..renv()
    };
    assert_eq!(
        env.r_libs_user(),
        format!("/with{sep}/proj/.uvr/library{sep}/site/lib")
    );
}

#[test]
fn whitespace_only_extra_libs_is_ignored() {
    // A shell exporting `UVR_EXTRA_LIBS=` must not produce a trailing
    // separator, which R would read as an empty (cwd) library entry.
    let env = REnv {
        extra_libs: Some("   ".to_string()),
        ..renv()
    };
    assert_eq!(env.r_libs_user(), "/proj/.uvr/library");
}

#[test]
fn bin_and_lib_dirs_are_derived_from_the_binary() {
    let env = renv();
    assert_eq!(env.r_bin_dir(), "/opt/R/4.4.2/bin");
    assert_eq!(env.r_lib_dir(), "/opt/R/4.4.2/lib");
}

#[test]
fn vars_isolate_the_project_from_system_libraries() {
    let vars = renv().vars();
    let get = |k: &str| {
        vars.iter()
            .find(|(name, _)| *name == k)
            .map(|(_, v)| v.clone())
            .unwrap_or_else(|| panic!("{k} not exported"))
    };
    assert_eq!(get("R_LIBS_USER"), "/proj/.uvr/library");
    // Blank, not absent: these actively shadow system-wide libraries.
    assert_eq!(get("R_LIBS_SITE"), "");
    assert_eq!(get("R_LIBS"), "");
    assert_eq!(get("R_ENVIRON"), "");
    // R_ENVIRON alone covers only the *site* Renviron. Without this, a
    // user whose ~/.Renviron sets R_LIBS_USER silently gets their own
    // library instead of the project's — verified against real R.
    assert_eq!(get("R_ENVIRON_USER"), "");
    assert_eq!(get("DYLD_LIBRARY_PATH"), "/opt/R/4.4.2/lib");
    assert_eq!(get("LD_LIBRARY_PATH"), "/opt/R/4.4.2/lib");
}

#[test]
fn a_binary_without_parents_does_not_panic() {
    let env = REnv {
        r_binary: "R".to_string(),
        ..renv()
    };
    assert_eq!(env.r_bin_dir(), "");
    assert_eq!(env.r_lib_dir(), "");
}
