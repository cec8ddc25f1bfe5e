use mrow::paths::{path_components, split_on};
use mrow::{collapse_path, join_path, parent_dir, resolve_path};

fn home() -> Option<String> {
    Some("/home/u".to_string())
}

#[test]
fn resolve_home_relative() {
    assert_eq!(resolve_path("~/foo", "/any/base", &home()), "/home/u/foo");
    assert_eq!(resolve_path("~/foo", "relative", &home()), "/home/u/foo");
}

#[test]
fn resolve_home_relative_without_home_keeps_text() {
    assert_eq!(resolve_path("~/foo", "/base", &None), "~/foo");
}

#[test]
fn resolve_relative_joins_base() {
    assert_eq!(resolve_path("bar", "/base", &home()), "/base/bar");
    assert_eq!(resolve_path("bar", "/base/", &home()), "/base/bar");
    assert_eq!(resolve_path("bar", "", &home()), "bar");
}

#[test]
fn resolve_absolute_unchanged() {
    assert_eq!(resolve_path("/x/bar", "/base", &home()), "/x/bar");
}

#[test]
fn join_replaces_with_absolute() {
    assert_eq!(join_path("/a", "/b"), "/b");
    assert_eq!(join_path("/a", "b/c"), "/a/b/c");
}

#[test]
fn split_keeps_empty_pieces() {
    assert_eq!(split_on("a//b/", '/'), vec!["a", "", "b", ""]);
    assert_eq!(split_on("", '/'), vec![""]);
}

#[test]
fn components_drop_empty_and_dot() {
    assert_eq!(path_components("/a//./b/"), vec!["/", "a", "b"]);
    assert_eq!(path_components("a/../b"), vec!["a", "..", "b"]);
}

#[test]
fn collapse_relative_to_root() {
    assert_eq!(collapse_path("/cfg", "/cfg/mrow.toml"), Some("mrow.toml".to_string()));
    assert_eq!(collapse_path("/cfg", "/cfg/a/b/m.toml"), Some("a/b/m.toml".to_string()));
}

#[test]
fn collapse_passes_over_parent_references() {
    assert_eq!(collapse_path("/cfg", "/cfg/a/../b/m.toml"), Some("b/m.toml".to_string()));
}

#[test]
fn collapse_follows_the_physical_chain() {
    let resolved = resolve_path("../../c/x.toml", "/r/a/b", &home());
    assert_eq!(resolved, "/r/a/b/../../c/x.toml");
    assert_eq!(collapse_path("/r", &resolved), Some("c/x.toml".to_string()));
    assert_eq!(collapse_path("/r", "/r/a/../../r/x.toml"), Some("x.toml".to_string()));
    assert_eq!(collapse_path("/r", "/r/a/../../x.toml"), None);
    assert_eq!(collapse_path("/r", "/r/../../../r/x.toml"), Some("x.toml".to_string()));
}

#[test]
fn collapse_outside_root_is_none() {
    assert_eq!(collapse_path("/cfg", "/other/m.toml"), None);
    assert_eq!(collapse_path("/cfg", "/cfg/.."), None);
}

#[test]
fn collapse_of_resolved_follows_directory_chain() {
    let resolved = resolve_path("x/y/f.toml", "/cfg/d1/d2", &home());
    assert_eq!(collapse_path("/cfg", &resolved), Some("d1/d2/x/y/f.toml".to_string()));
}

#[test]
fn parent_of_paths() {
    assert_eq!(parent_dir("/cfg/a/m.toml"), Some("/cfg/a".to_string()));
    assert_eq!(parent_dir("/m.toml"), Some("/".to_string()));
    assert_eq!(parent_dir("m.toml"), Some("".to_string()));
    assert_eq!(parent_dir("/"), None);
}
