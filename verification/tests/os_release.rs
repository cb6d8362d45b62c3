use uvr::os_release::OsRelease;

#[test]
fn parses_id_and_version() {
    let os = OsRelease::parse("NAME=\"Ubuntu\"\nID=ubuntu\nVERSION_ID=\"22.04\"\n");
    assert_eq!(os.id, "ubuntu");
    assert_eq!(os.version_id, "22.04");
}

#[test]
fn lowercases_the_id() {
    // os-release says IDs are lowercase, but not every distro complies;
    // both consumers used to normalize differently.
    assert_eq!(OsRelease::parse("ID=Debian\n").id, "debian");
}

#[test]
fn rolling_release_has_no_version() {
    // Arch / CachyOS: the case that broke both consumers, differently.
    let os = OsRelease::parse("NAME=\"Arch Linux\"\nID=arch\n");
    assert_eq!(os.id, "arch");
    assert_eq!(os.version_id, "");
    assert!(!os.is_empty(), "an id with no version still identifies it");
}

#[test]
fn id_like_is_not_mistaken_for_id() {
    // `ID_LIKE=arch` must not be read as `ID`, or a derivative would be
    // matched against rules meant for its parent.
    let os = OsRelease::parse("ID=cachyos\nID_LIKE=arch\n");
    assert_eq!(os.id, "cachyos");
}

#[test]
fn empty_content_identifies_nothing() {
    assert!(OsRelease::parse("").is_empty());
}
