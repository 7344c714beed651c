use crate_rename::table::{Dependency, DependencyEntry, DependencyTable};

fn simple(version: &str) -> DependencyEntry {
    DependencyEntry::Simple(version.to_string())
}

fn detailed(package: Option<&str>) -> DependencyEntry {
    DependencyEntry::Detailed { package: package.map(|p| p.to_string()) }
}

fn aliases(table: &DependencyTable) -> Vec<String> {
    table.lines().iter().map(|line| line.alias.clone()).collect()
}

#[test]
fn new_table_is_empty() {
    assert!(DependencyTable::new().lines().is_empty());
}

#[test]
fn lines_are_kept_in_the_order_of_the_aliases() {
    let mut table = DependencyTable::new();
    table.insert("zeta".to_string(), simple("1"));
    table.insert("alpha".to_string(), simple("2"));
    table.insert("mid".to_string(), detailed(Some("real")));
    table.insert("beta".to_string(), detailed(None));
    assert_eq!(aliases(&table), vec!["alpha", "beta", "mid", "zeta"]);
    assert_eq!(
        table.lines()[2],
        Dependency { alias: "mid".to_string(), entry: detailed(Some("real")) }
    );
}

#[test]
fn second_entry_for_an_alias_takes_the_place_of_the_first() {
    let mut table = DependencyTable::new();
    table.insert("foo".to_string(), simple("1"));
    table.insert("bar".to_string(), simple("2"));
    table.insert("foo".to_string(), detailed(Some("other")));
    assert_eq!(aliases(&table), vec!["bar", "foo"]);
    assert_eq!(table.lines()[1].entry, detailed(Some("other")));
    assert_eq!(table.lines()[0].entry, simple("2"));
}

#[test]
fn insertion_order_does_not_matter() {
    let names = ["d", "a", "c", "b", "e"];
    let mut forward = DependencyTable::new();
    for name in names {
        forward.insert(name.to_string(), simple(name));
    }
    let mut backward = DependencyTable::new();
    for name in names.iter().rev() {
        backward.insert(name.to_string(), simple(name));
    }
    assert_eq!(forward, backward);
    assert_eq!(aliases(&forward), vec!["a", "b", "c", "d", "e"]);
}
