use crate_rename::script::{preamble, rename_block, RenamePair};

fn pair(alias: &str, real_name: &str) -> RenamePair {
    RenamePair { alias: alias.to_string(), real_name: real_name.to_string() }
}

#[test]
fn preamble_enables_strict_execution() {
    assert_eq!(preamble(), "set -xeu");
}

#[test]
fn block_for_foo_renamed_from_bar() {
    let block = rename_block(&pair("foo", "bar"), "pkg/Cargo.toml", "pkg/src");
    let expected = vec![
        "sed -i \"s~^foo[ ]*=[ ]*~bar = ~\" pkg/Cargo.toml",
        "sed -i \"s~package[ ]*=[ ]*\\\"bar\\\"[,]*[ ]*~~\" pkg/Cargo.toml",
        "sed -i \"s~\\\"foo/std\\\"~\\\"bar/std\\\"~\" pkg/Cargo.toml",
        "sed -i \"s~\\\"foo\\\",~\\\"bar\\\",~\" pkg/Cargo.toml",
        "find pkg/src -name \"*.rs\" | xargs sed -i \"s~foo::~bar::~g\"",
        "find pkg/src -name \"*.rs\" | xargs sed -i \"s~use foo~use bar~g\"",
    ];
    assert_eq!(block, expected);
}

#[test]
fn block_has_four_manifest_lines_then_two_source_lines() {
    let block = rename_block(&pair("foo", "bar"), "M", "S");
    assert_eq!(block.len(), 6);
    for line in &block[..4] {
        assert!(line.starts_with("sed -i "));
        assert!(line.ends_with(" M"));
    }
    for line in &block[4..] {
        assert!(line.starts_with("find S -name \"*.rs\" | xargs sed -i "));
    }
}

#[test]
fn hyphens_stay_in_the_manifest_and_go_in_the_sources() {
    let block = rename_block(&pair("my-crate", "real-crate"), "Cargo.toml", "src");
    let expected = vec![
        "sed -i \"s~^my-crate[ ]*=[ ]*~real-crate = ~\" Cargo.toml",
        "sed -i \"s~package[ ]*=[ ]*\\\"real-crate\\\"[,]*[ ]*~~\" Cargo.toml",
        "sed -i \"s~\\\"my-crate/std\\\"~\\\"real-crate/std\\\"~\" Cargo.toml",
        "sed -i \"s~\\\"my-crate\\\",~\\\"real-crate\\\",~\" Cargo.toml",
        "find src -name \"*.rs\" | xargs sed -i \"s~my_crate::~real_crate::~g\"",
        "find src -name \"*.rs\" | xargs sed -i \"s~use my_crate~use real_crate~g\"",
    ];
    assert_eq!(block, expected);
    for line in &block[..4] {
        assert!(!line.contains("my_crate") && !line.contains("real_crate"));
    }
    for line in &block[4..] {
        assert!(!line.contains("my-crate") && !line.contains("real-crate"));
    }
}

#[test]
fn names_are_not_escaped() {
    let block = rename_block(&pair("a b", "c\"d"), "dir with space/Cargo.toml", "dir with space/src");
    assert_eq!(block[0], "sed -i \"s~^a b[ ]*=[ ]*~c\"d = ~\" dir with space/Cargo.toml");
    assert_eq!(block[4], "find dir with space/src -name \"*.rs\" | xargs sed -i \"s~a b::~c\"d::~g\"");
}
