use intra_codex::paths::{
    display_path, is_markdown, project_name, relative_path, resolve_configured_dir, should_skip,
};

#[test]
fn configured_dir_absolute_is_kept() {
    assert_eq!(resolve_configured_dir("/app", "/srv/skills"), "/srv/skills");
}

#[test]
fn configured_dir_relative_is_joined_to_root() {
    assert_eq!(resolve_configured_dir("/app", "skills"), "/app/skills");
    assert_eq!(resolve_configured_dir("/app/", "a/b"), "/app/a/b");
}

#[test]
fn relative_path_inside_root() {
    assert_eq!(relative_path("/p", "/p/src/main.rs"), "src/main.rs");
    assert_eq!(relative_path("/p", "/p"), "");
}

#[test]
fn relative_path_outside_root_is_whole_path() {
    assert_eq!(relative_path("/p", "/other/file.txt"), "/other/file.txt");
    assert_eq!(relative_path("/p", "/pp/file.txt"), "/pp/file.txt");
}

#[test]
fn display_uses_forward_slashes() {
    assert_eq!(display_path("a\\b\\c"), "a/b/c");
}

#[test]
fn skipped_directory_names() {
    for name in [".git", "node_modules", "target", "dist", "release", ".run", ".next", ".cache"] {
        assert!(should_skip(name), "{name}");
    }
    for name in ["src", ".github", "targets", "Dist", ""] {
        assert!(!should_skip(name), "{name}");
    }
}

#[test]
fn project_names() {
    assert_eq!(project_name("/home/me/work/demo"), "demo");
    assert_eq!(project_name("/"), "");
}

#[test]
fn markdown_files() {
    assert!(is_markdown("/skills/explore.md"));
    assert!(!is_markdown("/skills/explore.MD"));
    assert!(!is_markdown("/skills/readme"));
    assert!(!is_markdown("/skills/notes.md.txt"));
}
