use uvr::commands::r_cmd::pin::ensure_pin_satisfies_constraint;

#[test]
fn implicit_pin_refuses_constraint_violation() {
    // #137: a no-arg pin must not persist a version the manifest forbids.
    let err = ensure_pin_satisfies_constraint("3.6.3", Some("^4.5")).unwrap_err();
    assert!(err.message().contains("^4.5"), "{err:?}");
    assert!(err.message().contains("3.6.3"), "{err:?}");
}

#[test]
fn implicit_pin_allows_satisfying_version() {
    ensure_pin_satisfies_constraint("4.5.1", Some("^4.5")).unwrap();
    ensure_pin_satisfies_constraint("4.5.1", Some(">=4.4")).unwrap();
}

#[test]
fn implicit_pin_allows_unconstrained_projects() {
    ensure_pin_satisfies_constraint("3.6.3", None).unwrap();
}

#[test]
fn implicit_pin_ignores_unparseable_constraints() {
    // Mirrors find_r_binary's drift warning: constraints the resolver
    // itself couldn't act on must not block the pin here.
    ensure_pin_satisfies_constraint("4.5.1", Some("not-a-constraint")).unwrap();
}
