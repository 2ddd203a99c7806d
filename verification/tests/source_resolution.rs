//! Source parsing: every raw `src` string resolves, with `git://` and
//! `git+` prefixes marking version-control references.

use cook::source::{resolve, Source};

#[test]
fn git_url_with_branch() {
    let src = resolve("git://example.com/repo.git#branch=dev");
    assert_eq!(
        src,
        Source::VersionControl {
            url: "git://example.com/repo.git".to_string(),
            branch: Some("dev".to_string()),
        }
    );
}

#[test]
fn git_plus_url_without_branch() {
    let src = resolve("git+https://example.com/repo.git");
    assert_eq!(
        src,
        Source::VersionControl {
            url: "https://example.com/repo.git".to_string(),
            branch: None,
        }
    );
}

#[test]
fn git_plus_url_with_branch() {
    let src = resolve("git+https://example.com/repo.git#branch=main");
    assert_eq!(
        src,
        Source::VersionControl {
            url: "https://example.com/repo.git".to_string(),
            branch: Some("main".to_string()),
        }
    );
}

#[test]
fn https_url_is_archive() {
    let src = resolve("https://example.com/x.tar.gz");
    assert_eq!(
        src,
        Source::Archive { url: "https://example.com/x.tar.gz".to_string() }
    );
}

#[test]
fn parsing_is_total() {
    // Anything not recognized as a version-control reference is an archive
    // URL; there is no invalid source.
    let src = resolve("not a url at all");
    assert_eq!(src, Source::Archive { url: "not a url at all".to_string() });
    let src = resolve("");
    assert_eq!(src, Source::Archive { url: "".to_string() });
}

#[test]
fn branch_marker_splits_only_once() {
    let src = resolve("git://h/r.git#branch=a#branch=b");
    assert_eq!(
        src,
        Source::VersionControl {
            url: "git://h/r.git".to_string(),
            branch: Some("a#branch=b".to_string()),
        }
    );
}
