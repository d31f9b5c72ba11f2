use homedisk::errors::PathError;
use homedisk::path::{resolve, user_root};

#[test]
fn resolve_rejects_parent_traversal() {
    assert_eq!(resolve("/storage", "user", "../secret"), Err(PathError::InvalidPath));
}

#[test]
fn resolve_rejects_traversal_below_root() {
    assert_eq!(resolve("/storage", "user", "a/../../b"), Err(PathError::InvalidPath));
}

#[test]
fn resolve_rejects_absolute_path() {
    assert_eq!(resolve("/storage", "user", "/etc/passwd"), Err(PathError::InvalidPath));
}

#[test]
fn resolve_accepts_nested_relative_path() {
    assert_eq!(resolve("/storage", "user", "a/b/c"), Ok(String::from("/storage/user/a/b/c")));
}

#[test]
fn resolve_rejects_for_any_root_and_user() {
    for (root, user) in [("/srv/files", "alice"), ("", ""), ("/x", "y")] {
        assert!(resolve(root, user, "../secret").is_err());
        assert!(resolve(root, user, "a/../../b").is_err());
        assert!(resolve(root, user, "/etc/passwd").is_err());
        assert!(resolve(root, user, "a/b/c").is_ok());
    }
}

#[test]
fn resolve_normalizes_inner_traversal_and_dot_segments() {
    // "a/../b" stays inside the root and normalizes to "b"
    assert_eq!(resolve("/storage", "user", "a/../b"), Ok(String::from("/storage/user/b")));
    assert_eq!(resolve("/storage", "user", "./a//b/"), Ok(String::from("/storage/user/a/b")));
}

#[test]
fn resolve_rejects_path_naming_the_root_itself() {
    // every accepted path lies strictly below the user root
    assert_eq!(resolve("/storage", "user", ""), Err(PathError::InvalidPath));
    assert_eq!(resolve("/storage", "user", "."), Err(PathError::InvalidPath));
    assert_eq!(resolve("/storage", "user", "a/.."), Err(PathError::InvalidPath));
}

#[test]
fn user_root_joins_storage_and_username() {
    assert_eq!(user_root("/storage", "medzik"), "/storage/medzik");
}
