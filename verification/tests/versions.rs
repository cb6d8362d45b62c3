use uvr::commands::r_cmd::list::{
    self, available_rows, installation_tag, rolling_hint, ListQuery, Listing,
};
use uvr::commands::r_cmd::pin::{check_pin, pin_warning, refuse_conflict, run, Pin, PinSource};
use uvr::error::UvrError;
use uvr::r_version::detector::{
    is_plausible_r_version, pin_conflicts_with_constraint, version_matches_prefix, RInstallation,
};
use uvr::r_version::manager::{
    after_removal, binary_for_version, check_removable, choose_installation, installed_version,
    Removal, Uninstall, UninstallAction, UninstallEvent,
};
use uvr::resolver::{
    is_base_package, normalize_version, parse_package_version, parse_version_req,
    version_matches_req, Version,
};

fn installed(versions: &[&str]) -> Vec<RInstallation> {
    versions
        .iter()
        .map(|v| RInstallation {
            version: v.to_string(),
            binary: format!("/opt/R/{v}/bin/R"),
            managed: true,
        })
        .collect()
}

#[test]
fn package_versions_are_three_numbers() {
    assert_eq!(normalize_version("1.2-3"), "1.2.3");
    assert_eq!(normalize_version("1.0"), "1.0.0");
    assert_eq!(normalize_version("2021.01.05.7"), "2021.1.5");
    assert_eq!(normalize_version("x"), "0.0.0");
    assert_eq!(parse_package_version("1.2-3"), Version::new(1, 2, 3));
}

#[test]
fn requirements_are_shown_and_checked() {
    let req = parse_version_req(">= 1.2").unwrap();
    assert_eq!(req.text, ">= 1.2");
    assert_eq!(req.shown, ">=1.2");
    assert!(version_matches_req(&Version::new(1, 2, 0), &req));
    assert!(!version_matches_req(&Version::new(1, 1, 9), &req));
    assert!(matches!(
        parse_version_req("nonsense"),
        Err(UvrError::Semver(m)) if !m.is_empty()
    ));
}

#[test]
fn versions_in_writing() {
    let mut v = Version::new(1, 2, 3);
    assert_eq!(v.text(), "1.2.3");
    v.pre = "rc.1".to_string();
    v.build = "b5".to_string();
    assert_eq!(v.text(), "1.2.3-rc.1+b5");
}

#[test]
fn base_packages() {
    assert!(is_base_package("R") && is_base_package("stats4") && is_base_package("grDevices"));
    assert!(!is_base_package("stats5") && !is_base_package("r") && !is_base_package(""));
}

#[test]
fn plausible_versions_of_r() {
    for ok in ["4.5", "4.5.1", "10.0.12"] {
        assert!(is_plausible_r_version(ok), "{ok}");
    }
    for bad in ["", "4", "--", "4-5-2", "4.5.", "4.5.1.2", "4.x", "v4.5"] {
        assert!(!is_plausible_r_version(bad), "{bad}");
    }
    assert!(version_matches_prefix("4.5", "4.5.2"));
    assert!(!version_matches_prefix("4.5", "4.51.0"));
    assert!(!version_matches_prefix("4.5", "4.5"));
}

#[test]
fn a_pin_that_cannot_be_is_refused() {
    assert_eq!(
        check_pin("4-5").unwrap_err().message(),
        "`4-5` is not a valid R version to pin. Expected `X.Y.Z` (e.g. 4.5.1) or a partial `X.Y` (e.g. 4.5)."
    );
    assert_eq!(
        pin_warning("4.4", &installed(&["4.5.1"])).as_deref(),
        Some("R 4.4 is not installed yet — run `uvr r install 4.4` to use this pin.")
    );
    assert_eq!(pin_warning("4.5", &installed(&["4.5.1"])), None);
    assert_eq!(pin_warning("4.5.1", &installed(&["4.5.1"])), None);
}

#[test]
fn conflicts_with_the_constraint() {
    assert!(pin_conflicts_with_constraint("3.6.3", "^4.5"));
    assert!(!pin_conflicts_with_constraint("4.5.1", "^4.5"));
    assert!(!pin_conflicts_with_constraint("garbage", "^4.5"));
    assert!(refuse_conflict("3.6.3", "^4.5", false).is_ok());
    assert_eq!(
        refuse_conflict("3.6.3", "^4.5", true).unwrap_err().message(),
        "The active R is 3.6.3, which does not satisfy the [project] r_version constraint `^4.5` in uvr.toml. Pin a matching version with `uvr r pin <version>`, or update the constraint."
    );
}

#[test]
fn what_is_pinned() {
    assert_eq!(
        run(PinSource::Named {
            version: "4.5".to_string(),
            installed: installed(&["4.5.1"])
        }),
        Ok(Pin {
            version: "4.5".to_string(),
            warning: None
        })
    );
    assert!(run(PinSource::Named {
        version: "4".to_string(),
        installed: vec![]
    })
    .is_err());
    let active = |c: Option<&str>| {
        run(PinSource::Active {
            resolved: "3.6.3".to_string(),
            constraint: c.map(str::to_string),
        })
    };
    assert_eq!(active(None).unwrap().version, "3.6.3");
    assert_eq!(active(Some("x")).unwrap().version, "3.6.3");
    assert!(active(Some("^4.5")).is_err());
}

#[test]
fn what_may_be_removed() {
    assert!(check_removable("4.5.1").is_ok());
    for bad in ["", "a/b", "a\\b", "4..5", ".hidden"] {
        assert_eq!(
            check_removable(bad).unwrap_err().message(),
            format!("Invalid R version: {bad:?}")
        );
    }
}

#[test]
fn which_installation_is_meant() {
    let names = |v: &[&str]| v.iter().map(|s| s.to_string()).collect::<Vec<String>>();
    let pick = |v: &[&str]| choose_installation("4.5", "/r/4.5", &names(v));
    assert_eq!(pick(&["4.4.9", "4.5.2", "4.51.0"]).unwrap(), "4.5.2");
    assert_eq!(
        pick(&["4.4.9"]).unwrap_err().message(),
        "R 4.5 is not installed at /r/4.5"
    );
    assert_eq!(
        pick(&["4.5.3", "4.5.1", "4.4.0", "4.5.2"]).unwrap_err().message(),
        "R 4.5 is ambiguous: 4.5.1, 4.5.2, 4.5.3 are installed. Specify the full version to uninstall."
    );
}

#[test]
fn what_is_gone_is_removed() {
    assert!(after_removal("/r/4.5.1", Removal::Removed).is_ok());
    assert!(after_removal("/r/4.5.1", Removal::Gone).is_ok());
    assert_eq!(
        after_removal("/r/4.5.1", Removal::Failed("denied".to_string()))
            .unwrap_err()
            .message(),
        "Failed to remove /r/4.5.1: denied"
    );
}

#[test]
fn the_binary_of_a_version() {
    let all = installed(&["4.5.1", "4.4.0"]);
    assert_eq!(
        binary_for_version(&all, "4.4.0").unwrap(),
        "/opt/R/4.4.0/bin/R"
    );
    assert_eq!(
        binary_for_version(&all, "4.4").unwrap_err().message(),
        "R 4.4 is not installed"
    );
    assert_eq!(installed_version(Some("4.5.3".to_string()), "4.5"), "4.5.3");
    assert_eq!(installed_version(None, "4.5"), "4.5");
}

#[test]
fn channels_stand_above_releases() {
    let names = |v: &[&str]| v.iter().map(|s| s.to_string()).collect::<Vec<String>>();
    let rows = available_rows(
        &names(&["devel", "next"]),
        &names(&["4.4.0", "4.5.1"]),
        &installed(&["4.5.1", "next"]),
    );
    let shown: Vec<(&str, bool, bool)> = rows
        .iter()
        .map(|r| (r.version.as_str(), r.installed, r.unstable))
        .collect();
    assert_eq!(
        shown,
        vec![
            ("devel", false, true),
            ("next", true, true),
            ("4.5.1", true, false),
            ("4.4.0", false, false),
        ]
    );
    assert_eq!(rolling_hint(&vec![]), None);
    assert_eq!(
        rolling_hint(&names(&["devel", "next"])).as_deref(),
        Some("`devel` and `next` are rebuilt continuously — installing one pins a moving target, not a release.")
    );
    let mut i = installed(&["4.5.1"]).remove(0);
    assert_eq!(installation_tag(&i), "[uvr-managed]");
    i.managed = false;
    assert_eq!(installation_tag(&i), "[system: /opt/R/4.5.1/bin/R]");
}

#[test]
fn what_is_listed() {
    assert_eq!(
        list::run(ListQuery::Installed(vec![])),
        Listing::Nothing {
            warning: "No R installations found.".to_string(),
            advice: "Install R with: uvr r install <version>".to_string(),
        }
    );
    assert_eq!(
        list::run(ListQuery::Installed(installed(&["4.5.1"]))),
        Listing::Installed {
            title: "Installed R versions".to_string(),
            tagged: vec![("4.5.1".to_string(), "[uvr-managed]".to_string())],
        }
    );
    match list::run(ListQuery::Available {
        rolling: vec![],
        stable: vec!["4.5.1".to_string()],
        installed: vec![],
    }) {
        Listing::Available { title, rows, hint } => {
            assert_eq!(title, "Available R versions");
            assert_eq!(rows.len(), 1);
            assert_eq!(hint, None);
        }
        other => panic!("{other:?}"),
    }
}

#[test]
fn the_only_match_is_removed() {
    let mut u = Uninstall::new("4.5");
    assert_eq!(u.step(UninstallEvent::Begin), UninstallAction::FindBase);
    assert_eq!(
        u.step(UninstallEvent::Base(true)),
        UninstallAction::LookUp("4.5".to_string())
    );
    assert_eq!(
        u.step(UninstallEvent::Looked {
            exists: false,
            dir: "/r/4.5".to_string()
        }),
        UninstallAction::List
    );
    assert_eq!(
        u.step(UninstallEvent::Names(vec![
            "4.4.1".to_string(),
            "4.5.2".to_string()
        ])),
        UninstallAction::Remove("4.5.2".to_string())
    );
    assert_eq!(
        u.step(UninstallEvent::Removed {
            dir: "/r/4.5.2".to_string(),
            removal: Removal::Gone
        }),
        UninstallAction::Done(Ok("4.5.2".to_string()))
    );
}

#[test]
fn removing_stops_where_there_is_no_telling() {
    let fails = |action: UninstallAction| match action {
        UninstallAction::Done(Err(e)) => e.message(),
        other => panic!("{other:?}"),
    };
    assert_eq!(
        fails(Uninstall::new("../x").step(UninstallEvent::Begin)),
        "Invalid R version: \"../x\""
    );
    let mut u = Uninstall::new("4.5");
    u.step(UninstallEvent::Begin);
    assert_eq!(
        fails(u.step(UninstallEvent::Base(false))),
        "Cannot determine r-versions directory"
    );
    let mut u = Uninstall::new("4.5");
    u.step(UninstallEvent::Begin);
    u.step(UninstallEvent::Base(true));
    u.step(UninstallEvent::Looked {
        exists: false,
        dir: "/r/4.5".to_string(),
    });
    assert_eq!(
        fails(u.step(UninstallEvent::Names(vec![]))),
        "R 4.5 is not installed at /r/4.5"
    );
    let mut u = Uninstall::new("4.5.1");
    u.step(UninstallEvent::Begin);
    u.step(UninstallEvent::Base(true));
    assert_eq!(
        u.step(UninstallEvent::Looked {
            exists: true,
            dir: "/r/4.5.1".to_string()
        }),
        UninstallAction::Remove("4.5.1".to_string())
    );
    assert_eq!(
        fails(u.step(UninstallEvent::Removed {
            dir: "/r/4.5.1".to_string(),
            removal: Removal::Failed("denied".to_string())
        })),
        "Failed to remove /r/4.5.1: denied"
    );
}
