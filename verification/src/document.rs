//! The parsed manifest, as the `toml` crate hands it over.
//!
//! A parsed value is opaque to the verifier.  What the library reads from
//! one is modelled by [`Node`]; the functions here are the only places that
//! touch the parser or a parsed value, and their contracts are trusted, not
//! proved.

use vstd::prelude::*;

verus! {

/// What the library reads from a parsed value.
pub enum Node {
    /// A string and its text.
    Text(Seq<char>),
    /// A table: its keys, each with what its value holds, in the order in
    /// which the table lists them.
    Table(Seq<(Seq<char>, Node)>),
    /// Anything else: a number, a boolean, a date or an array.
    Other,
}

/// The value that a table's entries give to a key: that of the first entry
/// with that key.  A table holds no key twice, so it is the only one.
pub open spec fn field(entries: Seq<(Seq<char>, Node)>, key: Seq<char>) -> Option<Node>
    decreases entries.len(),
{
    if entries.len() == 0 {
        None
    } else if entries[0].0 == key {
        Some(entries[0].1)
    } else {
        field(entries.skip(1), key)
    }
}

/// Declares `toml::Value`, a parsed TOML value, as an opaque type.
#[verifier::external_type_specification]
#[verifier::external_body]
pub struct ExValue(toml::Value);

/// Declares `toml::de::Error`, the parser's account of a text that is not
/// well-formed, as an opaque type.
#[verifier::external_type_specification]
#[verifier::external_body]
pub struct ExParseError(toml::de::Error);

/// Declares `toml::map::Map`, the map from keys to values behind a TOML
/// table, as an opaque type.
#[verifier::external_type_specification]
#[verifier::external_body]
#[verifier::reject_recursive_types(K)]
#[verifier::reject_recursive_types(V)]
pub struct ExTable<K, V>(toml::map::Map<K, V>);

/// What a parsed value holds.
pub uninterp spec fn node_of(value: toml::Value) -> Node;

/// What a table holds: each key with what its value holds, in the order in
/// which the table lists its entries.
pub uninterp spec fn entries_of(table: toml::map::Map<String, toml::Value>) -> Seq<
    (Seq<char>, Node),
>;

/// What parsing a text as a TOML document gives: the root of the document,
/// or nothing where the text is not well-formed.
pub uninterp spec fn document_of(text: Seq<char>) -> Option<Node>;

/// Calls `toml::from_str` for a `toml::Value`.  The contract names the
/// outcome: the parser's answer depends on the text alone.
#[verifier::external_body]
pub(crate) fn parse_document(text: &str) -> (r: Result<toml::Value, toml::de::Error>)
    ensures
        match r {
            Ok(root) => document_of(text@) == Some(node_of(root)),
            Err(_) => document_of(text@) is None,
        },
{
    toml::from_str::<toml::Value>(text)
}

/// Calls `toml::Value::as_str`, which gives the text of a string value and
/// nothing for a value of any other kind.
#[verifier::external_body]
pub(crate) fn value_text(value: &toml::Value) -> (r: Option<&str>)
    ensures
        match r {
            Some(text) => node_of(*value) == Node::Text(text@),
            None => !(node_of(*value) is Text),
        },
{
    value.as_str()
}

/// Calls `toml::Value::as_table`, which gives the table of a table value and
/// nothing for a value of any other kind.
#[verifier::external_body]
pub(crate) fn value_table(value: &toml::Value) -> (r: Option<
    &toml::map::Map<String, toml::Value>,
>)
    ensures
        match r {
            Some(table) => node_of(*value) == Node::Table(entries_of(*table)),
            None => !(node_of(*value) is Table),
        },
{
    value.as_table()
}

/// Calls `toml::map::Map::get`, which gives the value that the table holds
/// for a key and nothing where the table does not hold the key.
#[verifier::external_body]
pub(crate) fn table_get<'a>(table: &'a toml::map::Map<String, toml::Value>, key: &str) -> (r:
    Option<&'a toml::Value>)
    ensures
        match r {
            Some(value) => field(entries_of(*table), key@) == Some(node_of(*value)),
            None => field(entries_of(*table), key@) is None,
        },
{
    table.get(key)
}

/// Calls `toml::map::Map::iter` and collects what it yields: every entry of
/// the table once, key and value, in the table's order.  The table is a
/// map, so no two of the entries have the same key.
#[verifier::external_body]
pub(crate) fn table_entries(table: &toml::map::Map<String, toml::Value>) -> (r: Vec<
    (&String, &toml::Value),
>)
    ensures
        r@.len() == entries_of(*table).len(),
        forall|i: int|
            0 <= i < r@.len() ==> (#[trigger] r@[i]).0@ == entries_of(*table)[i].0 && node_of(
                *r@[i].1,
            ) == entries_of(*table)[i].1,
        forall|i: int, j: int| 0 <= i < j < r@.len() ==> r@[i].0@ != r@[j].0@,
{
    table.iter().collect()
}

} // verus!
