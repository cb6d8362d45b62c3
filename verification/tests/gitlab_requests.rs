use uvr::error::UvrError;
use uvr::http::Reply;
use uvr::lockfile::PackageSource;
use uvr::registry::forgejo::parse_forgejo_parts;
use uvr::registry::gitlab::{
    parse_gitlab_parts, GitlabQuery, GitlabResolution, ResolveAction, ResolveEvent, ResolveState,
};

fn query(token: Option<&str>) -> GitlabQuery {
    GitlabQuery {
        host: "gitlab.com".to_string(),
        project_path: "group/sub/pkg".to_string(),
        git_ref: "feature/x".to_string(),
        token: token.map(str::to_string),
    }
}

fn reply(status: u16, status_text: &str, body: &str) -> Reply {
    Reply {
        status,
        status_text: status_text.to_string(),
        body: body.to_string(),
    }
}

#[test]
fn the_commit_is_asked_for_by_encoded_path_and_ref() {
    let r = query(Some("t")).commit_request();
    assert_eq!(
        r.url,
        "https://gitlab.com/api/v4/projects/group%2Fsub%2Fpkg/repository/commits/feature%2Fx"
    );
    let headers: Vec<(&str, &str)> = r
        .headers
        .iter()
        .map(|(k, v)| (k.as_str(), v.as_str()))
        .collect();
    assert_eq!(
        headers,
        vec![
            ("User-Agent", "uvr/0.1.0"),
            ("Accept", "application/json"),
            ("Authorization", "Bearer t"),
        ]
    );
}

#[test]
fn the_description_is_asked_for_at_the_commit() {
    let r = query(None).description_request("abc123");
    assert_eq!(
        r.url,
        "https://gitlab.com/api/v4/projects/group%2Fsub%2Fpkg/repository/files/DESCRIPTION/raw?ref=abc123"
    );
    assert_eq!(
        r.headers,
        vec![("User-Agent".to_string(), "uvr/0.1.0".to_string())]
    );
}

#[test]
fn refusals_are_told_by_their_status() {
    let q = query(None);
    assert!(q.check_commit_reply(&reply(200, "200 OK", "")).is_ok());
    assert_eq!(
        q.check_commit_reply(&reply(401, "401 Unauthorized", "")).unwrap_err(),
        UvrError::Other(
            "GitLab returned 401 Unauthorized for gitlab.com/group/sub/pkg; set UVR_GITLAB_TOKEN_<HOST> if the project is private."
                .to_string()
        )
    );
    assert_eq!(
        q.check_commit_reply(&reply(403, "403 Forbidden", "")).unwrap_err().message(),
        "GitLab returned 403 Forbidden for gitlab.com/group/sub/pkg; set UVR_GITLAB_TOKEN_<HOST> if the project is private."
    );
    assert_eq!(
        q.check_commit_reply(&reply(404, "404 Not Found", "")).unwrap_err().message(),
        "GitLab project not found: gitlab.com/group/sub/pkg@feature/x. Check the spec and that the project exists."
    );
    assert_eq!(
        q.read_description_reply("abc", &reply(500, "500 Internal Server Error", ""))
            .unwrap_err()
            .message(),
        "GitLab error for gitlab.com/group/sub/pkg@abc: HTTP 500 Internal Server Error"
    );
}

#[test]
fn a_commit_that_cannot_be_read_is_told_with_the_start_of_the_body() {
    let q = query(None);
    assert_eq!(q.commit_sha("{}", Ok("abc".to_string())).unwrap(), "abc");
    let body = "x".repeat(300);
    assert_eq!(
        q.commit_sha(&body, Err("bad".to_string())).unwrap_err().message(),
        format!(
            "GitLab gitlab.com/group/sub/pkg@feature/x: could not parse commit JSON (bad). Body: {}",
            "x".repeat(200)
        )
    );
    assert!(q
        .commit_sha("short", Err("bad".to_string()))
        .unwrap_err()
        .message()
        .ends_with("Body: short"));
}

#[test]
fn the_package_comes_from_the_description() {
    let body = "Package: mypkg\nVersion: 1.2-3\nImports: rlang (>= 1.0.0), stats\nDepends: R (>= 4.0), cli\nRemotes: user/rlang@main\n";
    let (info, remotes) = query(None)
        .read_description_reply("abc123", &reply(200, "200 OK", body))
        .unwrap();
    assert_eq!(info.name, "mypkg");
    assert_eq!(info.version.text(), "1.2.3");
    assert_eq!(
        info.source,
        PackageSource::Gitlab {
            host: "gitlab.com".to_string()
        }
    );
    assert_eq!(info.checksum.as_deref(), Some("git:abc123"));
    assert_eq!(
        info.url,
        "https://gitlab.com/api/v4/projects/group%2Fsub%2Fpkg/repository/archive.tar.gz?sha=abc123"
    );
    let needs: Vec<(&str, Option<&str>)> = info
        .requires
        .iter()
        .map(|d| (d.name.as_str(), d.constraint.as_deref()))
        .collect();
    assert_eq!(needs, vec![("rlang", Some(">=1.0.0")), ("cli", None)]);
    assert_eq!(
        remotes,
        vec![(
            "rlang".to_string(),
            "user/rlang".to_string(),
            Some("main".to_string())
        )]
    );
    // Without a description there are defaults.
    let (info, remotes) = query(None).package_of_description("abc", "");
    assert_eq!(info.name, "pkg");
    assert_eq!(info.version.text(), "0.0.0");
    assert!(info.requires.is_empty() && remotes.is_empty());
}

#[test]
fn written_specs_are_read_back() {
    let p = parse_gitlab_parts("gitlab::git.local:3000/g/sub/r_1@v1.0").unwrap();
    assert_eq!(p.host, "git.local:3000");
    assert_eq!(p.project_path, "g/sub/r_1");
    assert_eq!(p.git_ref.as_deref(), Some("v1.0"));
    // A ref goes from the last `@`, and an empty one is none.
    assert!(parse_gitlab_parts("h/g/r@a@b").is_none());
    assert_eq!(parse_gitlab_parts("h/g/r@").unwrap().git_ref, None);
    let f = parse_forgejo_parts("forgejo::codefloe.com/pat-s/mypkg@v0.1.0").unwrap();
    assert_eq!(
        (f.host.as_str(), f.owner.as_str(), f.repo.as_str()),
        ("codefloe.com", "pat-s", "mypkg")
    );
    assert_eq!(f.git_ref.as_deref(), Some("v0.1.0"));
    assert!(parse_forgejo_parts("codefloe.com/a/b/c").is_none());
    assert!(parse_forgejo_parts("codefloe.com/a").is_none());
}

#[test]
fn resolving_goes_from_the_ref_to_the_package() {
    let mut r = GitlabResolution::new(query(None));
    assert_eq!(
        r.step(ResolveEvent::Begin),
        ResolveAction::Get(query(None).commit_request())
    );
    let body = "{\"id\": \"abc123\"}";
    assert_eq!(
        r.step(ResolveEvent::Replied(reply(200, "200 OK", body))),
        ResolveAction::ReadCommit(body.to_string())
    );
    assert_eq!(
        r.step(ResolveEvent::CommitRead(Ok("abc123".to_string()))),
        ResolveAction::Get(query(None).description_request("abc123"))
    );
    let description = "Package: p\nVersion: 2.0\n";
    match r.step(ResolveEvent::Replied(reply(200, "200 OK", description))) {
        ResolveAction::Done(Ok((info, _))) => {
            assert_eq!(info.checksum.as_deref(), Some("git:abc123"));
            assert!(info.url.ends_with("archive.tar.gz?sha=abc123"));
        }
        other => panic!("{other:?}"),
    }
    assert_eq!(r.state, ResolveState::Finished);
}

#[test]
fn resolving_stops_at_the_first_failure() {
    let mut r = GitlabResolution::new(query(None));
    r.step(ResolveEvent::Begin);
    assert!(matches!(
        r.step(ResolveEvent::Replied(reply(404, "404 Not Found", ""))),
        ResolveAction::Done(Err(UvrError::Other(m))) if m.starts_with("GitLab project not found")
    ));
    let mut r = GitlabResolution::new(query(None));
    r.step(ResolveEvent::Begin);
    assert_eq!(
        r.step(ResolveEvent::Failed(vec!["offline".to_string()])),
        ResolveAction::Done(Err(UvrError::Network(vec!["offline".to_string()])))
    );
    let mut r = GitlabResolution::new(query(None));
    r.step(ResolveEvent::Begin);
    r.step(ResolveEvent::Replied(reply(200, "200 OK", "<html>")));
    assert!(matches!(
        r.step(ResolveEvent::CommitRead(Err("bad".to_string()))),
        ResolveAction::Done(Err(UvrError::Other(m))) if m.ends_with("(bad). Body: <html>")
    ));
}
