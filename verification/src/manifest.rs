//! From a parsed manifest to its dependency tables.
//!
//! An entry of a dependency table is either a string, the version
//! requirement, or a table that may name the real package in a string field
//! `package`.  Anything else is a schema error, and so is a dependency table
//! that is no table.

use vstd::prelude::*;
use crate::document::{
    entries_of, field, node_of, table_entries, table_get, value_table, value_text, Node,
};
use crate::table::{
    ascending, entry_for, inserted, lemma_inserted_ascending, lemma_inserted_entry_for,
    DependencyEntry, DependencyTable, EntryModel,
};

verus! {

/// Why a manifest could not be loaded.
#[derive(Debug)]
pub enum ManifestError {
    /// The text is not well-formed TOML.  Holds the parser's own account.
    Parse(toml::de::Error),
    /// The text is well-formed, but its root is not a table.
    Schema,
}

/// Why a value is no dependency table.
#[derive(Debug, PartialEq, Eq)]
pub enum DependencySchemaError {
    /// The value is not a table of entries.
    NotATable,
    /// The entry under this alias is neither a version string nor a table
    /// whose `package`, if it has one, is a string.
    Entry { alias: String },
}

/// A schema error as plain text.
pub enum SchemaErrorModel {
    /// The value is not a table of entries.
    NotATable,
    /// The alias of the malformed entry.
    Entry(Seq<char>),
}

impl DependencySchemaError {
    /// The error as plain text.
    pub open spec fn view(&self) -> SchemaErrorModel {
        match self {
            DependencySchemaError::NotATable => SchemaErrorModel::NotATable,
            DependencySchemaError::Entry { alias } => SchemaErrorModel::Entry(alias@),
        }
    }
}

/// The dependency entry that a value stands for, if it stands for one.
pub open spec fn entry_of(node: Node) -> Option<EntryModel> {
    match node {
        Node::Text(version) => Some(EntryModel::Simple(version)),
        Node::Table(fields) => match field(fields, "package"@) {
            None => Some(EntryModel::Detailed(None)),
            Some(Node::Text(name)) => Some(EntryModel::Detailed(Some(name))),
            Some(_) => None,
        },
        Node::Other => None,
    }
}

/// The dependency table that a table's entries stand for: every alias with
/// its entry, ordered by alias.  Where an entry is malformed, the alias of
/// the first such entry, in the order in which the table lists them.
pub open spec fn table_of(entries: Seq<(Seq<char>, Node)>) -> Result<
    Seq<(Seq<char>, EntryModel)>,
    SchemaErrorModel,
>
    decreases entries.len(),
{
    if entries.len() == 0 {
        Ok(Seq::empty())
    } else {
        match table_of(entries.drop_last()) {
            Err(e) => Err(e),
            Ok(table) => match entry_of(entries.last().1) {
                None => Err(SchemaErrorModel::Entry(entries.last().0)),
                Some(entry) => Ok(inserted(table, entries.last().0, entry)),
            },
        }
    }
}

/// The dependency table that a value stands for.
pub open spec fn dependencies_of(node: Node) -> Result<
    Seq<(Seq<char>, EntryModel)>,
    SchemaErrorModel,
> {
    match node {
        Node::Table(entries) => table_of(entries),
        _ => Err(SchemaErrorModel::NotATable),
    }
}

/// A decoded table is ordered by alias.
pub proof fn lemma_table_of_ascending(entries: Seq<(Seq<char>, Node)>)
    ensures
        table_of(entries) matches Ok(table) ==> ascending(table),
    decreases entries.len(),
{
    if entries.len() > 0 {
        lemma_table_of_ascending(entries.drop_last());
        if let Ok(table) = table_of(entries.drop_last()) {
            if let Some(entry) = entry_of(entries.last().1) {
                lemma_inserted_ascending(table, entries.last().0, entry);
            }
        }
    }
}

/// A list of entries decodes unless one of them is malformed, and the error
/// names the first malformed entry of the list.
pub proof fn lemma_table_of_fails_on_first_malformed(entries: Seq<(Seq<char>, Node)>)
    ensures
        table_of(entries) is Ok <==> forall|i: int|
            0 <= i < entries.len() ==> entry_of(#[trigger] entries[i].1) is Some,
        table_of(entries) matches Err(e) ==> exists|i: int|
            0 <= i < entries.len() && e == SchemaErrorModel::Entry(entries[i].0) && entry_of(
                #[trigger] entries[i].1,
            ) is None && forall|k: int| 0 <= k < i ==> entry_of(#[trigger] entries[k].1) is Some,
    decreases entries.len(),
{
    if entries.len() > 0 {
        let front = entries.drop_last();
        let last = entries.len() - 1;
        lemma_table_of_fails_on_first_malformed(front);
        assert forall|i: int| 0 <= i < front.len() implies front[i] == entries[i] by {}
        match table_of(front) {
            Err(e) => {
                let i = choose|i: int|
                    0 <= i < front.len() && e == SchemaErrorModel::Entry(front[i].0) && entry_of(
                        #[trigger] front[i].1,
                    ) is None && forall|k: int|
                        0 <= k < i ==> entry_of(#[trigger] front[k].1) is Some;
                assert(front[i] == entries[i]);
                assert forall|k: int| 0 <= k < i implies entry_of(
                    #[trigger] entries[k].1,
                ) is Some by {
                    assert(front[k] == entries[k]);
                }
                assert(entry_of(entries[i].1) is None);
            },
            Ok(_) => {
                assert forall|k: int| 0 <= k < last implies entry_of(
                    #[trigger] entries[k].1,
                ) is Some by {
                    assert(front[k] == entries[k]);
                }
                if entry_of(entries.last().1) is None {
                    assert(entry_of(entries[last].1) is None);
                } else {
                    assert forall|i: int| 0 <= i < entries.len() implies entry_of(
                        #[trigger] entries[i].1,
                    ) is Some by {
                        if i < last {
                            assert(front[i] == entries[i]);
                        }
                    }
                }
            },
        }
    }
}

/// A dependency table that decodes is ordered by alias, whatever the order
/// in which the manifest lists its entries.
pub proof fn lemma_dependencies_of_ascending(node: Node)
    ensures
        dependencies_of(node) matches Ok(table) ==> ascending(table),
{
    if let Node::Table(entries) = node {
        lemma_table_of_ascending(entries);
    }
}

/// Whether no key occurs twice in a list of entries, as in every table that
/// the parser hands over.
pub open spec fn distinct_keys(entries: Seq<(Seq<char>, Node)>) -> bool {
    forall|i: int, j: int| 0 <= i < j < entries.len() ==> entries[i].0 != entries[j].0
}

/// Whether a dependency table holds for the key of each entry what that
/// entry stands for, and for no other alias anything.
pub open spec fn holds_the_entries(
    table: Seq<(Seq<char>, EntryModel)>,
    entries: Seq<(Seq<char>, Node)>,
) -> bool {
    &&& forall|i: int|
        0 <= i < entries.len() ==> entry_for(table, (#[trigger] entries[i]).0) == entry_of(
            entries[i].1,
        )
    &&& forall|alias: Seq<char>| #[trigger]
        entry_for(table, alias) is Some ==> exists|i: int|
            0 <= i < entries.len() && (#[trigger] entries[i]).0 == alias
}

/// A table decoded from entries with distinct keys holds for the key of
/// each entry what that entry stands for, and holds nothing for any other
/// alias.
pub proof fn lemma_table_of_holds_the_entries(entries: Seq<(Seq<char>, Node)>)
    requires
        distinct_keys(entries),
        table_of(entries) is Ok,
    ensures
        ascending(table_of(entries)->Ok_0),
        holds_the_entries(table_of(entries)->Ok_0, entries),
    decreases entries.len(),
{
    lemma_table_of_ascending(entries);
    let whole = table_of(entries)->Ok_0;
    if entries.len() > 0 {
        let front = entries.drop_last();
        let last = entries.len() - 1;
        let table = table_of(front)->Ok_0;
        let entry = entry_of(entries.last().1)->Some_0;
        assert forall|i: int, j: int| 0 <= i < j < front.len() implies front[i].0
            != front[j].0 by {
            assert(front[i] == entries[i] && front[j] == entries[j]);
        }
        lemma_table_of_holds_the_entries(front);
        assert(entries[last] == entries.last());
        assert forall|i: int| 0 <= i < entries.len() implies entry_for(
            whole,
            (#[trigger] entries[i]).0,
        ) == entry_of(entries[i].1) by {
            lemma_inserted_entry_for(table, entries.last().0, entry, entries[i].0);
            if i < last {
                assert(front[i] == entries[i]);
                assert(entries[i].0 != entries[last].0);
            }
        }
        assert forall|alias: Seq<char>| #[trigger] entry_for(whole, alias) is Some implies exists|
            i: int,
        |
            0 <= i < entries.len() && (#[trigger] entries[i]).0 == alias by {
            lemma_inserted_entry_for(table, entries.last().0, entry, alias);
            if alias == entries.last().0 {
                assert(entries[last].0 == alias);
            } else {
                let i = choose|i: int| 0 <= i < front.len() && (#[trigger] front[i]).0 == alias;
                assert(front[i] == entries[i]);
            }
        }
    } else {
        assert forall|alias: Seq<char>| #[trigger] entry_for(whole, alias) is Some implies exists|
            i: int,
        |
            0 <= i < entries.len() && (#[trigger] entries[i]).0 == alias by {
        }
    }
}

/// Decodes one entry of a dependency table.
fn decode_entry(value: &toml::Value) -> (r: Option<DependencyEntry>)
    ensures
        match r {
            Some(entry) => entry_of(node_of(*value)) == Some(entry@),
            None => entry_of(node_of(*value)) is None,
        },
{
    match value_text(value) {
        Some(version) => Some(DependencyEntry::Simple(version.to_owned())),
        None => match value_table(value) {
            None => None,
            Some(fields) => match table_get(fields, "package") {
                None => Some(DependencyEntry::Detailed { package: None }),
                Some(named) => match value_text(named) {
                    Some(name) => Some(DependencyEntry::Detailed { package: Some(name.to_owned()) }),
                    None => None,
                },
            },
        },
    }
}

/// Decodes a dependency table from the value that a manifest holds under
/// `dependencies` or `dev-dependencies`.
pub fn decode_dependencies(value: &toml::Value) -> (r: Result<
    DependencyTable,
    DependencySchemaError,
>)
    ensures
        match r {
            Ok(table) => dependencies_of(node_of(*value)) == Ok::<_, SchemaErrorModel>(table@)
                && ascending(table@),
            Err(e) => dependencies_of(node_of(*value)) == Err::<
                Seq<(Seq<char>, EntryModel)>,
                _,
            >(e@),
        },
        r matches Ok(table) ==> node_of(*value) matches Node::Table(entries) && holds_the_entries(
            table@,
            entries,
        ),
{
    let listed = match value_table(value) {
        None => {
            return Err(DependencySchemaError::NotATable);
        },
        Some(t) => t,
    };
    let ghost entries = entries_of(*listed);
    let items = table_entries(listed);
    assert(distinct_keys(entries)) by {
        assert forall|i: int, j: int| 0 <= i < j < entries.len() implies entries[i].0
            != entries[j].0 by {
            assert(items@[i].0@ == entries[i].0 && items@[j].0@ == entries[j].0);
        }
    }
    let mut table = DependencyTable::new();
    let n: usize = items.len();
    let mut i: usize = 0;
    while i < n
        invariant
            n == items@.len(),
            n == entries.len(),
            i <= n,
            node_of(*value) == Node::Table(entries),
            forall|k: int|
                0 <= k < n ==> (#[trigger] items@[k]).0@ == entries[k].0 && node_of(*items@[k].1)
                    == entries[k].1,
            table_of(entries.take(i as int)) == Ok::<_, SchemaErrorModel>(table@),
            ascending(table@),
        decreases n - i,
    {
        let item = &items[i];
        let ghost upto = entries.take(i + 1);
        assert(upto.drop_last() =~= entries.take(i as int));
        assert(upto.last() == entries[i as int]);
        match decode_entry(item.1) {
            None => {
                let alias = item.0.clone();
                proof {
                    assert(table_of(upto) is Err);
                    lemma_table_of_error_stays(entries, i + 1);
                }
                return Err(DependencySchemaError::Entry { alias });
            },
            Some(entry) => {
                table.insert(item.0.clone(), entry);
            },
        }
        i = i + 1;
    }
    assert(entries.take(n as int) =~= entries);
    proof {
        lemma_table_of_holds_the_entries(entries);
    }
    Ok(table)
}

/// Once the first `n` entries hold a malformed one, so does the whole list,
/// and the error is the same.
pub proof fn lemma_table_of_error_stays(entries: Seq<(Seq<char>, Node)>, n: int)
    requires
        0 <= n <= entries.len(),
        table_of(entries.take(n)) is Err,
    ensures
        table_of(entries) == table_of(entries.take(n)),
    decreases entries.len(),
{
    if n == entries.len() {
        assert(entries.take(n) =~= entries);
    } else {
        assert(entries.drop_last().take(n) =~= entries.take(n));
        lemma_table_of_error_stays(entries.drop_last(), n);
    }
}

} // verus!
