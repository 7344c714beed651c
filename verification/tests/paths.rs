use crate_rename::path::{resolve_manifest_path, source_dir};

#[test]
fn directory_gets_the_manifest_name() {
    assert_eq!(resolve_manifest_path("my/pkg"), "my/pkg/Cargo.toml");
    assert_eq!(resolve_manifest_path("."), "./Cargo.toml");
    assert_eq!(resolve_manifest_path("/abs/dir"), "/abs/dir/Cargo.toml");
}

#[test]
fn directory_with_trailing_slash_gets_no_second_slash() {
    assert_eq!(resolve_manifest_path("my/pkg/"), "my/pkg/Cargo.toml");
    assert_eq!(resolve_manifest_path("/"), "/Cargo.toml");
}

#[test]
fn empty_path_is_the_manifest_in_the_current_directory() {
    assert_eq!(resolve_manifest_path(""), "Cargo.toml");
}

#[test]
fn manifest_path_is_used_unchanged() {
    assert_eq!(resolve_manifest_path("my/pkg/Cargo.toml"), "my/pkg/Cargo.toml");
    assert_eq!(resolve_manifest_path("Cargo.toml"), "Cargo.toml");
    assert_eq!(resolve_manifest_path("/Cargo.toml"), "/Cargo.toml");
}

#[test]
fn only_a_whole_file_name_counts() {
    assert_eq!(resolve_manifest_path("myCargo.toml"), "myCargo.toml/Cargo.toml");
    assert_eq!(resolve_manifest_path("a/Cargo.toml.bak"), "a/Cargo.toml.bak/Cargo.toml");
    assert_eq!(resolve_manifest_path("a/Cargo.toml/"), "a/Cargo.toml/Cargo.toml");
}

#[test]
fn resolving_twice_changes_nothing() {
    for path in ["", "x", "x/", "x/Cargo.toml", "Cargo.toml", "a/b/c"] {
        let once = resolve_manifest_path(path);
        assert_eq!(resolve_manifest_path(&once), once);
    }
}

#[test]
fn source_directory_stands_beside_the_manifest() {
    assert_eq!(source_dir("my/pkg/Cargo.toml"), "my/pkg/src");
    assert_eq!(source_dir("Cargo.toml"), "src");
    assert_eq!(source_dir("/Cargo.toml"), "/src");
    assert_eq!(source_dir("./Cargo.toml"), "./src");
}

#[test]
fn paths_may_hold_any_characters() {
    assert_eq!(resolve_manifest_path("größe/päckchen"), "größe/päckchen/Cargo.toml");
    assert_eq!(source_dir("größe/päckchen/Cargo.toml"), "größe/päckchen/src");
}
