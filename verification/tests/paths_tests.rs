use puizcloud::paths::{is_absolute_path, join_path, join_under_root, resolve, ResolveError};

#[test]
fn traversal_outside_root_is_forbidden() {
    assert_eq!(resolve("data", "../../etc/passwd"), Err(ResolveError::Forbidden));
    assert_eq!(resolve("data", ".."), Err(ResolveError::Forbidden));
    assert_eq!(resolve("data", "a/../../b"), Err(ResolveError::Forbidden));
    assert_eq!(resolve("data", "../x"), Err(ResolveError::Forbidden));
}

#[test]
fn absolute_path_is_forbidden() {
    assert_eq!(resolve("data", "/etc/passwd"), Err(ResolveError::Forbidden));
    assert_eq!(resolve("data", "/"), Err(ResolveError::Forbidden));
    assert_eq!(resolve("/srv/data", "/srv/data/inside"), Err(ResolveError::Forbidden));
}

#[test]
fn contained_paths_resolve_under_root() {
    assert_eq!(resolve("/srv/data", "a/b").unwrap(), "/srv/data/a/b");
    assert_eq!(resolve("data/", "x").unwrap(), "data/x");
    assert_eq!(resolve("data", "").unwrap(), "data");
    assert_eq!(resolve("data", "a/../b").unwrap(), "data/a/../b");
    assert_eq!(resolve("data", "./x").unwrap(), "data/./x");
}

#[test]
fn absolute_detection() {
    assert!(is_absolute_path("/etc"));
    assert!(!is_absolute_path("etc"));
    assert!(!is_absolute_path(""));
}

#[test]
fn relative_join_inserts_separator_only_when_needed() {
    assert_eq!(join_path("", "a"), "a");
    assert_eq!(join_path("a", "b"), "a/b");
    assert_eq!(join_path("a/b", "c"), "a/b/c");
}

#[test]
fn root_join_respects_trailing_slash() {
    assert_eq!(join_under_root("data/", "x"), "data/x");
    assert_eq!(join_under_root("data", "x"), "data/x");
    assert_eq!(join_under_root("data", ""), "data");
}
