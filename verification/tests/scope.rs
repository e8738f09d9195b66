use actraild::scope::{
    absolute_path, absolute_scope, normalized_absolute_path, normalized_scope, PathScope,
};

fn shown(result: Result<PathScope, String>) -> Result<String, String> {
    result.map(|scope| scope.display_path())
}

#[test]
fn normalization_resolves_dots_and_collapses_separators() {
    assert_eq!(
        normalized_absolute_path("/usr//lib/./x/../y/"),
        Ok("/usr/lib/y".to_string())
    );
    assert_eq!(normalized_absolute_path("/"), Ok("/".to_string()));
    assert_eq!(normalized_absolute_path("/../.."), Ok("/".to_string()));
    assert_eq!(normalized_absolute_path("/a/b/../../c"), Ok("/c".to_string()));
    assert_eq!(normalized_absolute_path("/文件/./名"), Ok("/文件/名".to_string()));
}

#[test]
fn relative_paths_are_refused() {
    assert_eq!(
        normalized_absolute_path("relative/path"),
        Err("path relative/path must be absolute".to_string())
    );
    assert_eq!(
        absolute_path("./x"),
        Err("path ./x must be absolute".to_string())
    );
    assert_eq!(absolute_path(""), Err("path  must be absolute".to_string()));
    assert_eq!(absolute_path("/a//b/"), Ok("/a//b/".to_string()));
}

#[test]
fn scopes_parse_exact_and_recursive_forms() {
    assert_eq!(shown(normalized_scope("/a/./b/../c/**")), Ok("/a/c/**".to_string()));
    assert_eq!(shown(normalized_scope("/etc/passwd")), Ok("/etc/passwd".to_string()));
    assert_eq!(
        shown(normalized_scope("**")),
        Err("path ** must be absolute".to_string())
    );
    assert_eq!(
        shown(normalized_scope("relative/**")),
        Err("path relative must be absolute".to_string())
    );
    assert_eq!(shown(absolute_scope("/a//b/**")), Ok("/a//b/**".to_string()));
    let recursive = absolute_scope("/a//b/**").unwrap();
    assert!(recursive.is_recursive());
    assert_eq!(recursive.display_base(), "/a//b");
}

#[test]
fn empty_recursive_base_is_refused() {
    assert_eq!(
        shown(normalized_scope("/**")),
        Err("recursive path scope base must not be empty".to_string())
    );
    assert_eq!(
        shown(absolute_scope("/**")),
        Err("recursive path scope base must not be empty".to_string())
    );
}

#[test]
fn exact_scopes_match_by_components() {
    let scope = PathScope::Exact("/a/b".to_string());
    assert!(scope.matches_path("/a/b"));
    assert!(scope.matches_path("/a//b/"));
    assert!(scope.matches_path("/a/./b"));
    assert!(!scope.matches_path("/a/bc"));
    assert!(!scope.matches_path("/a"));
    assert!(!scope.is_recursive());
}

#[test]
fn recursive_scopes_match_whole_components_below_base() {
    let scope = PathScope::Recursive("/a".to_string());
    assert!(scope.matches_path("/a"));
    assert!(scope.matches_path("/a/b/c"));
    assert!(!scope.matches_path("/ab"));
    assert!(!scope.matches_path("/b/a"));
    assert_eq!(scope.display_path(), "/a/**");
}

#[test]
fn scope_containment() {
    let root = PathScope::Recursive("/a".to_string());
    assert!(root.contains_scope(&PathScope::Exact("/a/x".to_string())));
    assert!(root.contains_scope(&PathScope::Recursive("/a/x".to_string())));
    assert!(root.contains_scope(&root.clone()));
    assert!(!root.contains_scope(&PathScope::Exact("/b".to_string())));
    let exact = PathScope::Exact("/a".to_string());
    assert!(exact.contains_scope(&PathScope::Exact("/a/".to_string())));
    assert!(!exact.contains_scope(&PathScope::Recursive("/a".to_string())));
    assert!(!exact.contains_scope(&PathScope::Exact("/a/x".to_string())));
}

#[test]
fn normalizing_twice_changes_nothing() {
    for path in ["/a/./b/../c", "//x///y/", "/..", "/", "/a/b/../../..", "/.hidden/./x"] {
        let once = normalized_absolute_path(path).unwrap();
        assert_eq!(normalized_absolute_path(&once), Ok(once.clone()));
    }
}

#[test]
fn displayed_scopes_parse_back() {
    for path in ["/a/./b/../c/**", "/etc/passwd", "/x//y/", "/", "/a/b/**/c"] {
        let scope = normalized_scope(path).unwrap();
        let again = normalized_scope(&scope.display_path()).unwrap();
        assert_eq!(again.is_recursive(), scope.is_recursive());
        assert_eq!(again.display_base(), scope.display_base());
    }
}
