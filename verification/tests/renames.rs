use crate_rename::rename::{detect_renames, parse_and_rename_deps, rename_commands};
use crate_rename::manifest::DependencySchemaError;
use crate_rename::script::{rename_block, RenamePair};
use crate_rename::table::{DependencyEntry, DependencyTable};

fn pair(alias: &str, real_name: &str) -> RenamePair {
    RenamePair { alias: alias.to_string(), real_name: real_name.to_string() }
}

fn dependencies(text: &str) -> toml::Value {
    toml::from_str::<toml::Value>(text).unwrap().get("dependencies").unwrap().clone()
}

#[test]
fn only_entries_with_a_package_are_renames() {
    let mut table = DependencyTable::new();
    table.insert("plain".to_string(), DependencyEntry::Simple("1".to_string()));
    table.insert("bare".to_string(), DependencyEntry::Detailed { package: None });
    table.insert(
        "foo".to_string(),
        DependencyEntry::Detailed { package: Some("bar".to_string()) },
    );
    assert_eq!(detect_renames(&table), vec![pair("foo", "bar")]);
}

#[test]
fn table_without_packages_has_no_renames() {
    let mut table = DependencyTable::new();
    table.insert("a".to_string(), DependencyEntry::Simple("1".to_string()));
    table.insert("b".to_string(), DependencyEntry::Detailed { package: None });
    assert!(detect_renames(&table).is_empty());
    assert!(detect_renames(&DependencyTable::new()).is_empty());
}

#[test]
fn empty_package_is_no_rename() {
    let mut table = DependencyTable::new();
    table.insert("foo".to_string(), DependencyEntry::Detailed { package: Some(String::new()) });
    assert!(detect_renames(&table).is_empty());
}

#[test]
fn package_equal_to_the_alias_still_counts() {
    let mut table = DependencyTable::new();
    table.insert(
        "foo".to_string(),
        DependencyEntry::Detailed { package: Some("foo".to_string()) },
    );
    assert_eq!(detect_renames(&table), vec![pair("foo", "foo")]);
}

#[test]
fn renames_follow_the_order_of_the_aliases() {
    let mut table = DependencyTable::new();
    table.insert("zeta".to_string(), DependencyEntry::Detailed { package: Some("z".to_string()) });
    table.insert("mid".to_string(), DependencyEntry::Simple("1".to_string()));
    table.insert("alpha".to_string(), DependencyEntry::Detailed { package: Some("a".to_string()) });
    assert_eq!(detect_renames(&table), vec![pair("alpha", "a"), pair("zeta", "z")]);
}

#[test]
fn commands_are_the_blocks_one_after_another() {
    let renames = vec![pair("alpha", "a"), pair("my-zeta", "z-z")];
    let lines = rename_commands(&renames, "p/Cargo.toml", "p/src");
    let mut expected = rename_block(&renames[0], "p/Cargo.toml", "p/src");
    expected.extend(rename_block(&renames[1], "p/Cargo.toml", "p/src"));
    assert_eq!(lines.len(), 12);
    assert_eq!(lines, expected);
    assert!(rename_commands(&Vec::new(), "p/Cargo.toml", "p/src").is_empty());
}

#[test]
fn table_commands_use_the_source_directory_beside_the_manifest() {
    let value = dependencies("[dependencies]\nfoo = { version = \"1.0\", package = \"bar\" }\nbaz = \"2.0\"\n");
    let lines = parse_and_rename_deps("some/dir/Cargo.toml", &value).unwrap();
    assert_eq!(lines, rename_block(&pair("foo", "bar"), "some/dir/Cargo.toml", "some/dir/src"));
    assert_eq!(lines[4], "find some/dir/src -name \"*.rs\" | xargs sed -i \"s~foo::~bar::~g\"");
}

#[test]
fn malformed_table_gives_the_error_and_no_command() {
    let value = dependencies("[dependencies]\nalpha = { package = \"a\" }\nfoo = [\"bar\"]\n");
    assert_eq!(
        parse_and_rename_deps("Cargo.toml", &value),
        Err(DependencySchemaError::Entry { alias: "foo".to_string() })
    );
}
