//! The whole run: from the manifest's path and text to the script.
//!
//! The script opens with the preamble, once, whatever follows.  Then come
//! the commands for `dependencies` and after them those for
//! `dev-dependencies`.  The two tables are handled apart: one that is
//! missing adds nothing, and one that is malformed adds nothing and is
//! reported, while the other is still written out.  A manifest that cannot
//! be parsed, or whose root is no table, gives no script at all.

use vstd::prelude::*;
use crate::document::{
    document_of, entries_of, field, node_of, parse_document, table_get, value_table, Node,
};
use crate::manifest::{dependencies_of, DependencySchemaError, ManifestError, SchemaErrorModel};
use crate::path::source_dir_of;
use crate::rename::{
    blocks, lemma_blocks_layout, lemma_no_package_no_commands, parse_and_rename_deps, renames_of,
    table_commands,
};
use crate::script::{block_lines, preamble, preamble_line, texts};
use crate::table::EntryModel;

verus! {

/// What a run hands back: the script, and for each of the two tables the
/// reason why it was left out, where it was.
#[derive(Debug, PartialEq, Eq)]
pub struct Report {
    /// The lines of the script, in order.
    pub lines: Vec<String>,
    /// Why `dependencies` was left out.
    pub dependencies: Option<DependencySchemaError>,
    /// Why `dev-dependencies` was left out.
    pub dev_dependencies: Option<DependencySchemaError>,
}

/// A report as plain text.
pub struct ReportModel {
    /// The lines of the script, in order.
    pub lines: Seq<Seq<char>>,
    /// Why `dependencies` was left out.
    pub dependencies: Option<SchemaErrorModel>,
    /// Why `dev-dependencies` was left out.
    pub dev_dependencies: Option<SchemaErrorModel>,
}

/// A schema error, if any, as plain text.
pub open spec fn failure(e: Option<DependencySchemaError>) -> Option<SchemaErrorModel> {
    match e {
        Some(e) => Some(e@),
        None => None,
    }
}

impl Report {
    /// The report as plain text.
    pub open spec fn view(&self) -> ReportModel {
        ReportModel {
            lines: texts(self.lines@),
            dependencies: failure(self.dependencies),
            dev_dependencies: failure(self.dev_dependencies),
        }
    }

    /// Whether a table was left out, so that the run counts as failed.
    pub fn failed(&self) -> (r: bool)
        ensures
            r == (self@.dependencies is Some || self@.dev_dependencies is Some),
    {
        self.dependencies.is_some() || self.dev_dependencies.is_some()
    }
}

/// What the table under `key` adds to the script of the manifest at
/// `manifest`, and why it adds nothing, where it is malformed.
pub open spec fn section_of(root: Seq<(Seq<char>, Node)>, key: Seq<char>, manifest: Seq<char>) -> (
    Seq<Seq<char>>,
    Option<SchemaErrorModel>,
) {
    match field(root, key) {
        None => (Seq::empty(), None),
        Some(node) => match dependencies_of(node) {
            Ok(table) => (table_commands(table, manifest), None),
            Err(e) => (Seq::empty(), Some(e)),
        },
    }
}

/// The report for a manifest whose root table holds `root`.
pub open spec fn report_of(root: Seq<(Seq<char>, Node)>, manifest: Seq<char>) -> ReportModel {
    let normal = section_of(root, "dependencies"@, manifest);
    let dev = section_of(root, "dev-dependencies"@, manifest);
    ReportModel {
        lines: seq![preamble_line()] + normal.0 + dev.0,
        dependencies: normal.1,
        dev_dependencies: dev.1,
    }
}

/// The report for a parsed manifest, where its root is a table.
pub open spec fn plan_of(root: Node, manifest: Seq<char>) -> Option<ReportModel> {
    match root {
        Node::Table(entries) => Some(report_of(entries, manifest)),
        _ => None,
    }
}

/// Whether `r` is what a run on the manifest at `manifest` with the text
/// `text` hands back.
pub open spec fn is_outcome(r: Result<Report, ManifestError>, manifest: Seq<char>, text: Seq<char>)
    -> bool {
    match document_of(text) {
        None => r matches Err(ManifestError::Parse(_)),
        Some(root) => match plan_of(root, manifest) {
            Some(report) => r is Ok && r->Ok_0@ == report,
            None => r matches Err(ManifestError::Schema),
        },
    }
}

/// Whether the table under `key`, where the manifest has one that decodes,
/// holds no entry that names a package.
pub open spec fn names_no_package(root: Seq<(Seq<char>, Node)>, key: Seq<char>) -> bool {
    match field(root, key) {
        Some(node) => match dependencies_of(node) {
            Ok(table) => forall|i: int|
                0 <= i < table.len() ==> !((#[trigger] table[i]).1 matches EntryModel::Detailed(
                    Some(_),
                )),
            Err(_) => true,
        },
        None => true,
    }
}

/// For a manifest in which no dependency names a package, the script is the
/// preamble and nothing else.
pub proof fn lemma_no_package_only_preamble(root: Seq<(Seq<char>, Node)>, manifest: Seq<char>)
    requires
        names_no_package(root, "dependencies"@),
        names_no_package(root, "dev-dependencies"@),
    ensures
        report_of(root, manifest).lines == seq![preamble_line()],
{
    lemma_section_without_package(root, "dependencies"@, manifest);
    lemma_section_without_package(root, "dev-dependencies"@, manifest);
    assert(report_of(root, manifest).lines =~= seq![preamble_line()]);
}

/// A table in which no entry names a package adds nothing to the script.
pub proof fn lemma_section_without_package(
    root: Seq<(Seq<char>, Node)>,
    key: Seq<char>,
    manifest: Seq<char>,
)
    requires
        names_no_package(root, key),
    ensures
        section_of(root, key, manifest).0 == Seq::<Seq<char>>::empty(),
{
    if let Some(node) = field(root, key) {
        if let Ok(table) = dependencies_of(node) {
            lemma_no_package_no_commands(table, manifest);
        }
    }
}

/// A table that is malformed adds no line to the script and is reported.
pub proof fn lemma_malformed_section_is_empty(
    root: Seq<(Seq<char>, Node)>,
    key: Seq<char>,
    manifest: Seq<char>,
)
    requires
        field(root, key) matches Some(node) && dependencies_of(node) is Err,
    ensures
        section_of(root, key, manifest).0 == Seq::<Seq<char>>::empty(),
        section_of(root, key, manifest).1 is Some,
{
}

/// For a manifest whose `dependencies` hold exactly one rename, of `alias`
/// to `name`, and whose `dev-dependencies` add nothing, the script is the
/// preamble and the six lines of that rename: seven lines in all.
pub proof fn lemma_single_rename_script(
    root: Seq<(Seq<char>, Node)>,
    manifest: Seq<char>,
    alias: Seq<char>,
    name: Seq<char>,
)
    requires
        field(root, "dependencies"@) matches Some(node) && dependencies_of(node) matches Ok(table)
            && renames_of(table) == seq![(alias, name)],
        section_of(root, "dev-dependencies"@, manifest).0 == Seq::<Seq<char>>::empty(),
    ensures
        report_of(root, manifest).lines == seq![preamble_line()] + block_lines(
            alias,
            name,
            manifest,
            source_dir_of(manifest),
        ),
        report_of(root, manifest).lines.len() == 7,
{
    let renames = seq![(alias, name)];
    let src_dir = source_dir_of(manifest);
    assert(renames.drop_last() =~= Seq::empty());
    assert(blocks(renames.drop_last(), manifest, src_dir) =~= Seq::empty());
    assert(blocks(renames, manifest, src_dir) =~= block_lines(alias, name, manifest, src_dir));
    assert(report_of(root, manifest).lines =~= seq![preamble_line()] + block_lines(
        alias,
        name,
        manifest,
        src_dir,
    ));
}

/// A table adds six lines for each of its renames, and a table that is
/// missing or malformed adds none.
pub proof fn lemma_section_len(root: Seq<(Seq<char>, Node)>, key: Seq<char>, manifest: Seq<char>)
    ensures
        section_of(root, key, manifest).0.len() == match field(root, key) {
            Some(node) => match dependencies_of(node) {
                Ok(table) => 6 * renames_of(table).len(),
                Err(_) => 0,
            },
            None => 0,
        },
{
    if let Some(node) = field(root, key) {
        if let Ok(table) = dependencies_of(node) {
            lemma_blocks_layout(renames_of(table), manifest, source_dir_of(manifest));
        }
    }
}

/// The script is the preamble, then what `dependencies` adds, then what
/// `dev-dependencies` adds: the preamble stands once, in the first line.
pub proof fn lemma_script_layout(root: Seq<(Seq<char>, Node)>, manifest: Seq<char>)
    ensures
        report_of(root, manifest).lines.len() == 1 + section_of(
            root,
            "dependencies"@,
            manifest,
        ).0.len() + section_of(root, "dev-dependencies"@, manifest).0.len(),
        report_of(root, manifest).lines[0] == preamble_line(),
{
}

/// What a run hands back depends on the manifest's path and text alone: two
/// runs on the same path and text give the same script and the same
/// failures, or fail alike.
pub proof fn lemma_same_input_same_outcome(
    a: Result<Report, ManifestError>,
    b: Result<Report, ManifestError>,
    manifest: Seq<char>,
    text: Seq<char>,
)
    requires
        is_outcome(a, manifest, text),
        is_outcome(b, manifest, text),
    ensures
        a is Ok <==> b is Ok,
        a is Ok ==> a->Ok_0@ == b->Ok_0@,
        a is Err ==> (a->Err_0 is Parse <==> b->Err_0 is Parse),
{
}

/// Parses the text of a manifest.
pub fn parse_manifest(text: &str) -> (r: Result<toml::Value, ManifestError>)
    ensures
        match r {
            Ok(root) => document_of(text@) == Some(node_of(root)),
            Err(e) => document_of(text@) is None && e is Parse,
        },
{
    match parse_document(text) {
        Ok(root) => Ok(root),
        Err(e) => Err(ManifestError::Parse(e)),
    }
}

/// Writes the commands of the table under `key` behind `lines`.
fn add_section(
    cargo_path: &str,
    root: &toml::map::Map<String, toml::Value>,
    key: &str,
    lines: &mut Vec<String>,
) -> (e: Option<DependencySchemaError>)
    ensures
        texts(final(lines)@) == texts(old(lines)@) + section_of(
            entries_of(*root),
            key@,
            cargo_path@,
        ).0,
        failure(e) == section_of(entries_of(*root), key@, cargo_path@).1,
{
    let ghost before = lines@;
    match table_get(root, key) {
        None => {
            assert(texts(lines@) =~= texts(before) + Seq::<Seq<char>>::empty());
            None
        },
        Some(val) => match parse_and_rename_deps(cargo_path, val) {
            Ok(mut commands) => {
                let ghost added = commands@;
                lines.append(&mut commands);
                assert(texts(lines@) =~= texts(before) + texts(added));
                None
            },
            Err(e) => {
                assert(texts(lines@) =~= texts(before) + Seq::<Seq<char>>::empty());
                Some(e)
            },
        },
    }
}

/// Plans the renames of a parsed manifest: writes the script for the
/// manifest at `cargo_path` whose parsed root is `root`.
pub fn plan_renames(cargo_path: &str, root: &toml::Value) -> (r: Result<Report, ManifestError>)
    ensures
        match plan_of(node_of(*root), cargo_path@) {
            Some(report) => r is Ok && r->Ok_0@ == report,
            None => r matches Err(ManifestError::Schema),
        },
{
    let table = match value_table(root) {
        None => {
            return Err(ManifestError::Schema);
        },
        Some(table) => table,
    };
    let mut lines: Vec<String> = Vec::new();
    lines.push(preamble());
    assert(texts(lines@) =~= seq![preamble_line()]);
    let dependencies = add_section(cargo_path, table, "dependencies", &mut lines);
    let dev_dependencies = add_section(cargo_path, table, "dev-dependencies", &mut lines);
    Ok(Report { lines, dependencies, dev_dependencies })
}

/// Runs the tool on the text of the manifest at `cargo_path`.
pub fn rename_script(cargo_path: &str, text: &str) -> (r: Result<Report, ManifestError>)
    ensures
        is_outcome(r, cargo_path@, text@),
{
    match parse_manifest(text) {
        Err(e) => Err(e),
        Ok(root) => plan_renames(cargo_path, &root),
    }
}

} // verus!
