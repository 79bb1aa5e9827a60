use statiker::paths::{
    confine_resolved, parent_path, path_extension, path_join, resolve_path_within_root,
    starts_with_path, ResolveError,
};
use std::path::PathBuf;

#[test]
fn test_resolve_path_within_root_valid() {
    let root = PathBuf::from("/tmp/test");

    // Valid relative path
    let result = resolve_path_within_root("/tmp/test", "index.html");
    assert!(result.is_ok());
    let resolved = PathBuf::from(result.unwrap());
    assert!(resolved.ends_with("index.html"));
    assert!(resolved.to_string_lossy().contains("test"));
    assert!(resolved.starts_with(&root));
}

#[test]
fn test_resolve_path_within_root_empty() {
    let root = PathBuf::from("/tmp/test");

    // Empty path should return root
    let result = resolve_path_within_root("/tmp/test", "");
    assert!(result.is_ok());
    assert_eq!(PathBuf::from(result.unwrap()), root);
}

#[test]
fn test_resolve_path_within_root_nested() {
    // Nested path
    let result = resolve_path_within_root("/tmp/test", "app/index.html");
    assert!(result.is_ok());
    let resolved = PathBuf::from(result.unwrap());
    assert!(resolved.to_string_lossy().contains("app"));
    assert!(resolved.to_string_lossy().contains("index.html"));
}

#[test]
fn test_resolve_path_within_root_rejects_traversal() {
    // Path traversal should be rejected
    assert!(resolve_path_within_root("/tmp/test", "../etc/passwd").is_err());
    assert!(resolve_path_within_root("/tmp/test", "..").is_err());
    assert!(resolve_path_within_root("/tmp/test", "app/../../etc/passwd").is_err());
    assert!(resolve_path_within_root("/tmp/test", "../../etc/passwd").is_err());
}

#[test]
fn test_resolve_path_within_root_with_current_dir() {
    // Current directory component should be allowed
    let result = resolve_path_within_root("/tmp/test", "./index.html");
    assert!(result.is_ok());
    let resolved = PathBuf::from(result.unwrap());
    assert!(resolved.ends_with("index.html"));
}

#[test]
fn resolve_gives_the_exact_joined_path() {
    assert_eq!(resolve_path_within_root("/tmp/test", "app/index.html"), Ok("/tmp/test/app/index.html".to_string()));
    assert_eq!(resolve_path_within_root("/tmp/test/", "a"), Ok("/tmp/test/a".to_string()));
    assert_eq!(resolve_path_within_root("", "a/b"), Ok("a/b".to_string()));
    assert_eq!(resolve_path_within_root(".", "a//b/./c/"), Ok("./a/b/c".to_string()));
    assert_eq!(resolve_path_within_root("/srv", "."), Ok("/srv".to_string()));
    assert_eq!(resolve_path_within_root("/srv", "..."), Ok("/srv/...".to_string()));
}

#[test]
fn resolve_names_each_refusal() {
    assert_eq!(resolve_path_within_root("/srv", "a/../b"), Err(ResolveError::Traversal));
    assert_eq!(resolve_path_within_root("/srv", "/etc/passwd"), Err(ResolveError::InvalidComponent));
    assert_eq!(resolve_path_within_root("/srv", "/../etc"), Err(ResolveError::Traversal));
    assert_eq!(ResolveError::Traversal.message(), "Path traversal detected in fallback path");
    assert_eq!(ResolveError::InvalidComponent.message(), "Invalid path component in fallback");
    assert_eq!(ResolveError::EscapesRoot.message(), "Resolved path escapes root directory");
}

#[test]
fn confinement_follows_real_locations() {
    let p = "/srv/www/link".to_string();
    assert_eq!(confine_resolved(p.clone(), Some("/srv/www"), Some("/srv/www/file")), Ok(p.clone()));
    assert_eq!(confine_resolved(p.clone(), Some("/srv/www"), Some("/etc/passwd")), Err(ResolveError::EscapesRoot));
    assert_eq!(confine_resolved(p.clone(), Some("/srv/www"), Some("/srv/wwwroot/x")), Err(ResolveError::EscapesRoot));
    assert_eq!(confine_resolved(p.clone(), None, Some("/etc/passwd")), Ok(p.clone()));
    assert_eq!(confine_resolved(p.clone(), Some("/srv/www"), None), Ok(p.clone()));
    assert_eq!(confine_resolved(p.clone(), Some("/srv/www"), Some("/srv/www")), Ok(p));
}

#[test]
fn path_prefix_is_by_whole_components() {
    assert!(starts_with_path("/a/b/c", "/a/b"));
    assert!(starts_with_path("/a/b/c", "/a//b/"));
    assert!(!starts_with_path("/a/bc", "/a/b"));
    assert!(!starts_with_path("a/b", "/a"));
    assert!(starts_with_path("a/b", ""));
    assert!(starts_with_path("./a", "."));
    assert!(!starts_with_path("a", "."));
}

#[test]
fn parent_is_the_directory_of_the_last_piece() {
    assert_eq!(parent_path("a/b"), "a");
    assert_eq!(parent_path("a"), "");
    assert_eq!(parent_path(""), "");
    assert_eq!(parent_path("a/b/"), "a");
    assert_eq!(parent_path("a//b/c"), "a//b");
    assert_eq!(parent_path("a/./b/."), "a");
    assert_eq!(parent_path("./a"), ".");
    assert_eq!(parent_path("."), "");
    assert_eq!(parent_path("/a"), "/");
    assert_eq!(parent_path("/"), "");
    assert_eq!(parent_path("a/.."), "a");
    for p in ["a/b", "a", "", "a/b/", "a//b/c", "a/./b/.", "./a", ".", "/a", "/", "a/..", "x/y/z.txt"] {
        let expected = std::path::Path::new(p)
            .parent()
            .map(|q| q.to_string_lossy().to_string())
            .unwrap_or_default();
        assert_eq!(parent_path(p), expected, "parent of {:?}", p);
    }
}

#[test]
fn join_puts_a_path_below_another() {
    assert_eq!(path_join("/srv/www", "index.html"), "/srv/www/index.html");
    assert_eq!(path_join("/srv/www/", "index.html"), "/srv/www/index.html");
    assert_eq!(path_join("", "index.html"), "index.html");
    assert_eq!(path_join("/srv/www", "/etc/passwd"), "/etc/passwd");
    for (a, b) in [("/srv/www", "index.html"), ("/srv/www/", "x"), ("", "x"), ("/srv", "/etc"), (".", "a/b")] {
        let expected = PathBuf::from(a).join(b).to_string_lossy().to_string();
        assert_eq!(path_join(a, b), expected);
    }
}

#[test]
fn extension_is_what_follows_the_last_dot_of_the_file_name() {
    assert_eq!(path_extension("/srv/www/style.css"), "css");
    assert_eq!(path_extension("/srv/www/app.min.js"), "js");
    assert_eq!(path_extension("/srv/www/README"), "");
    assert_eq!(path_extension("/srv/www/.bashrc"), "");
    assert_eq!(path_extension("/srv/www/.config.yaml"), "yaml");
    assert_eq!(path_extension("/srv/w.d/file"), "");
    assert_eq!(path_extension("/srv/www/a."), "");
    assert_eq!(path_extension("/srv/www/a.txt/"), "txt");
    assert_eq!(path_extension("/srv/www/.."), "");
    assert_eq!(path_extension(""), "");
    for p in ["/srv/www/style.css", "a.tar.gz", "README", ".bashrc", ".config.yaml", "w.d/file", "a.", "a.txt/", "..", "", "a/b/."] {
        let expected = std::path::Path::new(p)
            .extension()
            .map(|q| q.to_string_lossy().to_string())
            .unwrap_or_default();
        assert_eq!(path_extension(p), expected, "extension of {:?}", p);
    }
}

#[test]
fn resolve_agrees_with_pushing_path_components() {
    for (root, rel) in [("/tmp/test", "a/b"), ("/tmp/test/", "a"), (".", "x//y/./z/"), ("", "q"), ("/r", "./s")] {
        let mut expected = PathBuf::from(root);
        for c in std::path::Path::new(rel).components() {
            if let std::path::Component::Normal(s) = c {
                expected.push(s);
            }
        }
        assert_eq!(
            resolve_path_within_root(root, rel),
            Ok(expected.to_string_lossy().to_string())
        );
    }
}
