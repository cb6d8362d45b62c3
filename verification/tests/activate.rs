use uvr::commands::activate::{
    emit_fish, emit_posix, emit_powershell, fish_quote, managed_vars, ps_quote, sh_quote,
    SHIM_SH_BODY,
};
use uvr::r_env::{path_sep, Platform, REnv};

fn env() -> REnv {
    REnv {
        r_binary: "/opt/R/4.4.2/bin/R".to_string(),
        library: "/proj/.uvr/library".to_string(),
        with_library: None,
        extra_libs: None,
        platform: Platform::Unix,
    }
}

#[test]
fn posix_prepends_the_project_r_to_path() {
    let sep = path_sep(Platform::Unix);
    let out = emit_posix("demo", &env());
    assert!(
        out.contains(&format!("PATH='/opt/R/4.4.2/bin'\"{sep}${{PATH-}}\"")),
        "PATH not prepended:\n{out}"
    );
}

#[test]
fn posix_exports_every_variable_the_run_command_sets() {
    // Anti-drift: activation must export exactly what `uvr run` applies.
    // If someone adds a variable to REnv::vars, this fails until the
    // emitter carries it too.
    let env = env();
    let out = emit_posix("demo", &env);
    for (name, value) in env.vars() {
        assert!(
            out.contains(&format!("{name}={}; export {name}", sh_quote(&value))),
            "{name} missing from emitted script:\n{out}"
        );
    }
}

#[test]
fn posix_defines_a_deactivate_that_removes_itself() {
    let out = emit_posix("demo", &env());
    assert!(out.contains("deactivate() {"));
    assert!(out.contains("unset -f deactivate"));
    // Restores rather than blindly unsetting.
    assert!(out.contains(r#"if [ -n "${UVR_OLD_PATH_SET-}" ]; then PATH="${UVR_OLD_PATH-}""#));
}

#[test]
fn posix_unwinds_a_previous_activation_before_applying() {
    // Without this, re-activating stacks a second R bin dir onto PATH.
    let out = emit_posix("demo", &env());
    let deactivate_guard = out
        .find("if command -v deactivate")
        .expect("no unwind guard");
    let path_apply = out.find("PATH='/opt/R").expect("no PATH assignment");
    assert!(
        deactivate_guard < path_apply,
        "unwind must come before applying:\n{out}"
    );
}

#[test]
fn posix_exports_the_project_name() {
    assert!(emit_posix("my-proj", &env()).contains("UVR_PROJECT='my-proj'; export UVR_PROJECT"));
}

#[test]
fn posix_quotes_paths_containing_spaces_and_quotes() {
    let env = REnv {
        library: "/pro j/it's/.uvr/library".to_string(),
        ..env()
    };
    let out = emit_posix("demo", &env);
    assert!(
        out.contains(r"'/pro j/it'\''s/.uvr/library'"),
        "path not safely quoted:\n{out}"
    );
}

#[test]
fn shim_delegates_instead_of_baking_in_paths() {
    // The staleness guarantee: no absolute path may appear in the shim.
    assert!(SHIM_SH_BODY.contains("uvr activate --emit sh"));
    assert!(!SHIM_SH_BODY.contains("R_LIBS_USER"));
    assert!(!SHIM_SH_BODY.contains("/bin/R"));
}

#[test]
fn shim_only_evals_when_resolution_succeeds() {
    // A failed resolve must leave the shell untouched, not half-applied.
    assert!(SHIM_SH_BODY.contains(r#"" && eval "#));
}

#[test]
fn fish_prepends_to_the_path_list_and_exports_every_var() {
    let env = env();
    let out = emit_fish("demo", &env);
    // fish PATH is a real list — prepend as a list element, not by
    // splicing a separator into a string.
    assert!(out.contains("set -gx PATH '/opt/R/4.4.2/bin' $PATH"), "{out}");
    for (name, value) in env.vars() {
        assert!(
            out.contains(&format!("set -gx {name} {}", fish_quote(&value))),
            "{name} missing:\n{out}"
        );
    }
    assert!(out.contains("function deactivate"));
    assert!(out.contains("functions -e deactivate"));
    assert!(out.contains("if functions -q deactivate"));
}

#[test]
fn powershell_prepends_to_path_and_exports_every_var() {
    let sep = path_sep(Platform::Unix);
    let env = env();
    let out = emit_powershell("demo", &env);
    assert!(
        out.contains(&format!("$env:PATH = '/opt/R/4.4.2/bin' + '{sep}' + $env:PATH")),
        "{out}"
    );
    for (name, value) in env.vars() {
        assert!(
            out.contains(&format!("$env:{name} = {}", ps_quote(&value))),
            "{name} missing:\n{out}"
        );
    }
    assert!(out.contains("function global:deactivate {"));
    assert!(out.contains("Remove-Item Function:\\deactivate"));
    assert!(out.contains("if (Test-Path Function:\\deactivate) { deactivate }"));
}

#[test]
fn every_shell_manages_the_same_variables() {
    // The shells must not drift apart: whatever one takes over, the
    // others must take over (and therefore restore) too.
    let env = env();
    let scripts = [
        emit_posix("demo", &env),
        emit_fish("demo", &env),
        emit_powershell("demo", &env),
    ];
    for name in managed_vars(&env) {
        for script in &scripts {
            assert!(
                script.contains(&format!("UVR_OLD_{name}")),
                "{name} not saved in:\n{script}"
            );
        }
    }
}

#[test]
fn shell_specific_quoting_escapes_embedded_quotes() {
    // fish escapes with a backslash; PowerShell doubles the quote.
    assert_eq!(fish_quote("it's"), r"'it\'s'");
    assert_eq!(ps_quote("it's"), "'it''s'");
    // A Windows path's backslashes must survive fish quoting.
    assert_eq!(fish_quote(r"C:\R\bin"), r"'C:\\R\\bin'");
}
