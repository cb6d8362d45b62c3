use uvr::dcf::parse_dcf_fields;
use uvr::registry::gitlab::{
    parse_gitlab_parts, parse_gitlab_remotes, parse_gitlab_spec, pick_token, token_variables,
};


#[test]
fn parse_spec_happy() {
    let (host, project_path, git_ref) =
        parse_gitlab_spec("gitlab::gitlab.com/my-group/mypkg@v0.1.0").unwrap();
    assert_eq!(host, "gitlab.com");
    assert_eq!(project_path, "my-group/mypkg");
    assert_eq!(git_ref, "v0.1.0");
}

#[test]
fn parse_spec_nested_subgroups() {
    let (host, project_path, git_ref) =
        parse_gitlab_spec("gitlab::gitlab.com/group/subgroup/mypkg@main").unwrap();
    assert_eq!(host, "gitlab.com");
    assert_eq!(project_path, "group/subgroup/mypkg");
    assert_eq!(git_ref, "main");

    let parsed = parse_gitlab_parts("gitlab::gitlab.com/group/subgroup/mypkg@main").unwrap();
    assert_eq!(parsed.project_name(), "mypkg");
}

#[test]
fn parse_spec_default_ref() {
    let (_h, _p, git_ref) = parse_gitlab_spec("gitlab::gitlab.com/my-group/mypkg").unwrap();
    assert_eq!(git_ref, "HEAD");
}

#[test]
fn parse_spec_with_port() {
    let (host, _, _) = parse_gitlab_spec("gitlab::git.local:3000/g/r").unwrap();
    assert_eq!(host, "git.local:3000");
}

#[test]
fn parse_spec_accepts_unprefixed() {
    // Callers (lock.rs BFS) may strip the prefix before calling us.
    let parsed = parse_gitlab_spec("gitlab.com/my-group/mypkg@main").unwrap();
    assert_eq!(parsed.0, "gitlab.com");
    assert_eq!(parsed.2, "main");
}

#[test]
fn parse_spec_rejects_scheme_in_host() {
    assert!(parse_gitlab_spec("gitlab::https://gitlab.com/g/r").is_none());
}

#[test]
fn parse_spec_rejects_too_few_segments() {
    assert!(parse_gitlab_spec("gitlab::gitlab.com/onlyone").is_none());
    assert!(parse_gitlab_spec("gitlab::onlyhost").is_none());
}

#[test]
fn parse_spec_rejects_empty_segments() {
    assert!(parse_gitlab_parts("gitlab:://g/r").is_none());
    assert!(parse_gitlab_parts("gitlab::gitlab.com//r").is_none());
    assert!(parse_gitlab_parts("gitlab::gitlab.com/g/").is_none());
    assert!(parse_gitlab_parts("gitlab::gitlab.com/g//r").is_none());
}

#[test]
fn parts_ref_is_none_when_absent_head_when_via_spec() {
    // The shared core keeps "no ref" as None; the spec wrapper defaults it
    // to HEAD for the resolver. This is the distinction add/manifest rely on.
    let p = parse_gitlab_parts("gitlab::gitlab.com/my-group/mypkg").unwrap();
    assert_eq!(p.git_ref, None);
    assert_eq!(p.project_path, "my-group/mypkg");
    assert_eq!(
        parse_gitlab_spec("gitlab::gitlab.com/my-group/mypkg")
            .unwrap()
            .2,
        "HEAD"
    );

    let p = parse_gitlab_parts("gitlab::gitlab.com/my-group/mypkg@v1.0").unwrap();
    assert_eq!(p.git_ref.as_deref(), Some("v1.0"));
}

#[test]
fn parts_validates_ref_chars() {
    // A ref with `&` would inject a second query parameter; `#`, `?`,
    // and whitespace break the URL too.
    assert!(parse_gitlab_parts("gitlab::gitlab.com/g/r@feat&x").is_none());
    assert!(parse_gitlab_parts("gitlab::gitlab.com/g/r@v1#frag").is_none());
    assert!(parse_gitlab_parts("gitlab::gitlab.com/g/r@a b").is_none());
    assert!(parse_gitlab_parts("gitlab::gitlab.com/g/r@x?y").is_none());
    // Legitimate ref shapes still pass, including slashed branches.
    assert_eq!(
        parse_gitlab_parts("gitlab::gitlab.com/g/r@main")
            .unwrap()
            .git_ref
            .as_deref(),
        Some("main")
    );
    assert_eq!(
        parse_gitlab_parts("gitlab::gitlab.com/g/r@v1.2.3")
            .unwrap()
            .git_ref
            .as_deref(),
        Some("v1.2.3")
    );
    assert_eq!(
        parse_gitlab_parts("gitlab::gitlab.com/g/r@feature/x")
            .unwrap()
            .git_ref
            .as_deref(),
        Some("feature/x")
    );
}

#[test]
fn parts_validates_path_segment_chars() {
    // A segment with shell metacharacters is rejected.
    assert!(parse_gitlab_parts("gitlab::gitlab.com/my-group/my;rm -rf").is_none());
    assert!(parse_gitlab_parts("gitlab::gitlab.com/own$er/mypkg").is_none());
    // Underscores, dots, hyphens stay valid, in any segment.
    assert!(parse_gitlab_parts("gitlab::gitlab.com/my-group/my_pkg.v2").is_some());
    assert!(parse_gitlab_parts("gitlab::gitlab.com/a.b-c/sub_d/my_pkg.v2").is_some());
}

/// What a host's token is when the variables have these values.
fn token(host: &str, vars: &[(&str, &str)]) -> Option<String> {
    let (per_host, for_all) = token_variables(host);
    let get = |name: &str| vars.iter().find(|(k, _)| *k == name).map(|(_, v)| *v);
    pick_token(get(&per_host), get(&for_all))
}

#[test]
fn token_lookup() {
    // The variable for the host takes precedence over the one for all hosts.
    let host = "lookup-test-host.example";
    let per_host = ("UVR_GITLAB_TOKEN_LOOKUP_TEST_HOST_EXAMPLE", "host-specific");
    let global = ("UVR_GITLAB_TOKEN", "global");
    assert_eq!(
        token(host, &[per_host, global]).as_deref(),
        Some("host-specific")
    );
    assert_eq!(token(host, &[global]).as_deref(), Some("global"));
    assert_eq!(token(host, &[]), None);

    // The port is stripped.
    assert_eq!(
        token("git.local:3000", &[("UVR_GITLAB_TOKEN_GIT_LOCAL", "t")]).as_deref(),
        Some("t")
    );

    // White space counts as unset.
    assert_eq!(
        token("any.host", &[("UVR_GITLAB_TOKEN", "   ")]).as_deref(),
        None
    );
}

#[test]
fn parse_gitlab_remotes_keeps_all_git_bearing_entries() {
    // A gitlab package's DESCRIPTION may declare git-bearing Remotes
    // pointing at any registry. We pass them all through; the
    // lock-time BFS dispatches per-prefix via classify_git.
    let desc = "\
Package: x
Version: 0.1.0
Remotes: gitlab::gitlab.com/my-group/mypkg@v0.1.0,
    github::user/other,
    forgejo::codefloe.com/pat-s/skipme
";
    let fields = parse_dcf_fields(desc);
    let remotes = parse_gitlab_remotes(&fields);
    let pairs: Vec<(&str, &str)> = remotes
        .iter()
        .map(|(n, g, _)| (n.as_str(), g.as_str()))
        .collect();
    assert_eq!(
        pairs,
        vec![
            ("mypkg", "gitlab::gitlab.com/my-group/mypkg"),
            ("other", "user/other"),
            ("skipme", "forgejo::codefloe.com/pat-s/skipme"),
        ]
    );
    // The gitlab entry still carries its ref.
    assert_eq!(remotes[0].2.as_deref(), Some("v0.1.0"));
}
