use uvr::package_name::is_valid;

#[test]
fn accepts_r_package_names() {
    for ok in ["dplyr", "data.table", "my-pkg_1", "R6", "A", "ggplot2"] {
        assert!(is_valid(ok), "should accept {ok:?}");
    }
}

#[test]
fn rejects_empty_space_plus_and_path_like_names() {
    for bad in [
        "",
        ".",
        "..",
        "my pkg",
        " pkg",
        "pkg ",
        "a+b",
        "a/b",
        "pkgs/my pkg",
        "../../outside",
        "/abs",
        "a\\b",
        "a:b",
        "a\nb",
        "pkg\0",
    ] {
        assert!(!is_valid(bad), "should reject {bad:?}");
    }
}
