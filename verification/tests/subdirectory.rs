use uvr::subdirectory::{encode_segments, is_valid, validate};

#[test]
fn accepts_portable_relative_paths() {
    for ok in ["pkg", "r/pkg", "a/b/c", "my-pkg_1.0", "pkg dir"] {
        assert!(is_valid(ok), "should accept {ok:?}");
        assert!(validate(ok).is_ok());
    }
}

#[test]
fn rejects_unsafe_or_non_portable_paths() {
    for bad in [
        "",
        "/abs",
        "a\\b",
        "C:/pkg",
        "https://example.com/pkg",
        "a//b",
        ".",
        "..",
        "a/../b",
        "./a",
        "a/.",
        "a/",
        "a\nb",
        "a\tb",
    ] {
        assert!(!is_valid(bad), "should reject {bad:?}");
        assert!(validate(bad).is_err(), "should error on {bad:?}");
    }
}

#[test]
fn encode_segments_preserves_separators() {
    assert_eq!(encode_segments("r/pkg"), "r/pkg");
    assert_eq!(encode_segments("my pkg/sub"), "my%20pkg/sub");
    assert_eq!(encode_segments("a+b/c"), "a%2Bb/c");
}
