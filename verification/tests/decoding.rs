use crate_rename::manifest::{decode_dependencies, DependencySchemaError};
use crate_rename::table::{Dependency, DependencyEntry};

fn parsed(text: &str) -> toml::Value {
    toml::from_str::<toml::Value>(text).unwrap()
}

fn dependencies(text: &str) -> toml::Value {
    parsed(text).get("dependencies").unwrap().clone()
}

fn line(alias: &str, entry: DependencyEntry) -> Dependency {
    Dependency { alias: alias.to_string(), entry }
}

#[test]
fn version_string_is_a_simple_entry() {
    let table = decode_dependencies(&dependencies("[dependencies]\nbaz = \"2.0\"\n")).unwrap();
    assert_eq!(table.lines(), &vec![line("baz", DependencyEntry::Simple("2.0".to_string()))]);
}

#[test]
fn table_with_package_is_a_detailed_entry() {
    let value = dependencies("[dependencies]\nfoo = { version = \"1.0\", package = \"bar\" }\n");
    let table = decode_dependencies(&value).unwrap();
    assert_eq!(
        table.lines(),
        &vec![line("foo", DependencyEntry::Detailed { package: Some("bar".to_string()) })]
    );
}

#[test]
fn table_without_package_is_a_detailed_entry() {
    let value = dependencies("[dependencies]\nfoo = { version = \"1.0\", features = [\"x\"] }\n");
    let table = decode_dependencies(&value).unwrap();
    assert_eq!(table.lines(), &vec![line("foo", DependencyEntry::Detailed { package: None })]);
}

#[test]
fn other_fields_are_ignored() {
    let value = dependencies(
        "[dependencies.foo]\nversion = \"1\"\noptional = true\nfeatures = [\"a\"]\npackage = \"bar\"\ndefault-features = false\n",
    );
    let table = decode_dependencies(&value).unwrap();
    assert_eq!(
        table.lines(),
        &vec![line("foo", DependencyEntry::Detailed { package: Some("bar".to_string()) })]
    );
}

#[test]
fn entries_come_out_ordered_by_alias() {
    let value = dependencies(
        "[dependencies]\nzeta = \"1\"\nalpha = { package = \"a\" }\nmid = \"3\"\nBig = \"4\"\n",
    );
    let table = decode_dependencies(&value).unwrap();
    let aliases: Vec<&str> = table.lines().iter().map(|l| l.alias.as_str()).collect();
    assert_eq!(aliases, vec!["Big", "alpha", "mid", "zeta"]);
}

#[test]
fn empty_table_decodes_to_an_empty_table() {
    let table = decode_dependencies(&dependencies("[dependencies]\n")).unwrap();
    assert!(table.lines().is_empty());
}

#[test]
fn list_entry_is_a_schema_error() {
    let value = dependencies("[dependencies]\nfoo = [\"bar\"]\n");
    assert_eq!(
        decode_dependencies(&value),
        Err(DependencySchemaError::Entry { alias: "foo".to_string() })
    );
}

#[test]
fn number_boolean_and_date_entries_are_schema_errors() {
    for entry in ["1", "1.5", "true", "1979-05-27T07:32:00Z"] {
        let value = dependencies(&format!("[dependencies]\nfoo = {}\n", entry));
        assert_eq!(
            decode_dependencies(&value),
            Err(DependencySchemaError::Entry { alias: "foo".to_string() })
        );
    }
}

#[test]
fn package_that_is_no_string_is_a_schema_error() {
    for package in ["1", "true", "[\"bar\"]", "{ name = \"bar\" }"] {
        let value = dependencies(&format!("[dependencies]\nfoo = {{ package = {} }}\n", package));
        assert_eq!(
            decode_dependencies(&value),
            Err(DependencySchemaError::Entry { alias: "foo".to_string() })
        );
    }
}

#[test]
fn first_malformed_entry_is_reported() {
    let value = dependencies("[dependencies]\nzz = 1\nok = \"1\"\nbad = []\nworse = 2\n");
    assert_eq!(
        decode_dependencies(&value),
        Err(DependencySchemaError::Entry { alias: "bad".to_string() })
    );
}

#[test]
fn value_that_is_no_table_is_a_schema_error() {
    for text in ["dependencies = \"1.0\"\n", "dependencies = [1, 2]\n", "dependencies = 3\n"] {
        assert_eq!(decode_dependencies(&dependencies(text)), Err(DependencySchemaError::NotATable));
    }
}
