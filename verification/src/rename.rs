//! Which dependencies of a table are renamed, and the commands that undo
//! the renames of one table.
//!
//! A dependency is renamed where its entry is a table whose `package` names
//! a package and the name is not empty.  The alias is not compared with the
//! name: an entry that names its own alias counts as well.

use vstd::prelude::*;
use crate::document::node_of;
use crate::manifest::{decode_dependencies, dependencies_of, DependencySchemaError};
use crate::order::text_before;
use crate::path::{source_dir, source_dir_of};
use crate::script::{block_lines, rename_block, texts, RenamePair};
use crate::table::{ascending, DependencyEntry, DependencyTable, EntryModel};

verus! {

/// The real package name that an entry gives, where it renames.
pub open spec fn renamed_to(entry: EntryModel) -> Option<Seq<char>> {
    match entry {
        EntryModel::Detailed(Some(name)) if name.len() > 0 => Some(name),
        _ => None,
    }
}

/// The renames of a table: for each line that renames, in the table's order,
/// the alias and the real package name.
pub open spec fn renames_of(table: Seq<(Seq<char>, EntryModel)>) -> Seq<(Seq<char>, Seq<char>)>
    decreases table.len(),
{
    if table.len() == 0 {
        Seq::empty()
    } else {
        let earlier = renames_of(table.drop_last());
        match renamed_to(table.last().1) {
            Some(name) => earlier.push((table.last().0, name)),
            None => earlier,
        }
    }
}

/// The pairs held by a sequence of renames, in order.
pub open spec fn pairs(renames: Seq<RenamePair>) -> Seq<(Seq<char>, Seq<char>)> {
    Seq::new(renames.len(), |i: int| renames[i]@)
}

/// The commands for a list of renames: the block of the first, then the
/// block of the second, and so on.
pub open spec fn blocks(
    renames: Seq<(Seq<char>, Seq<char>)>,
    manifest: Seq<char>,
    src_dir: Seq<char>,
) -> Seq<Seq<char>>
    decreases renames.len(),
{
    if renames.len() == 0 {
        Seq::empty()
    } else {
        blocks(renames.drop_last(), manifest, src_dir) + block_lines(
            renames.last().0,
            renames.last().1,
            manifest,
            src_dir,
        )
    }
}

/// The commands for one dependency table of the manifest at `manifest`: the
/// blocks of its renames, written against the manifest and the directory
/// `src` beside it.
pub open spec fn table_commands(table: Seq<(Seq<char>, EntryModel)>, manifest: Seq<char>) -> Seq<
    Seq<char>,
> {
    blocks(renames_of(table), manifest, source_dir_of(manifest))
}

/// Every rename stems from a line of the table that renames, and lines of
/// an earlier place give earlier renames: `origin` gives for each rename the
/// place of its line.
pub open spec fn stems_from(
    renames: Seq<(Seq<char>, Seq<char>)>,
    table: Seq<(Seq<char>, EntryModel)>,
    origin: Seq<int>,
) -> bool {
    &&& origin.len() == renames.len()
    &&& forall|k: int|
        0 <= k < renames.len() ==> 0 <= #[trigger] origin[k] < table.len() && renames[k].0
            == table[origin[k]].0 && renamed_to(table[origin[k]].1) == Some(renames[k].1)
    &&& forall|k: int, l: int| 0 <= k < l < renames.len() ==> origin[k] < origin[l]
    &&& forall|i: int|
        0 <= i < table.len() && renamed_to(#[trigger] table[i].1) is Some ==> origin.contains(i)
}

/// The renames of a table are its renaming lines, each once, in the order
/// of the table.
pub proof fn lemma_renames_are_the_renaming_lines(table: Seq<(Seq<char>, EntryModel)>) -> (origin:
    Seq<int>)
    ensures
        stems_from(renames_of(table), table, origin),
    decreases table.len(),
{
    if table.len() == 0 {
        Seq::empty()
    } else {
        let front = table.drop_last();
        let earlier = lemma_renames_are_the_renaming_lines(front);
        let last = table.len() - 1;
        let origin = if renamed_to(table.last().1) is Some {
            earlier.push(last)
        } else {
            earlier
        };
        let renames = renames_of(table);
        assert forall|k: int| 0 <= k < renames.len() implies 0 <= #[trigger] origin[k]
            < table.len() && renames[k].0 == table[origin[k]].0 && renamed_to(
            table[origin[k]].1,
        ) == Some(renames[k].1) by {
            if k < earlier.len() {
                assert(origin[k] == earlier[k]);
                assert(table[earlier[k]] == front[earlier[k]]);
            }
        }
        assert forall|k: int, l: int| 0 <= k < l < renames.len() implies origin[k] < origin[l] by {
            assert(origin[k] == earlier[k]);
            if l < earlier.len() {
                assert(origin[l] == earlier[l]);
            }
        }
        assert forall|i: int|
            0 <= i < table.len() && renamed_to(#[trigger] table[i].1) is Some implies origin.contains(
            i,
        ) by {
            if i < last {
                assert(table[i] == front[i]);
                assert(earlier.contains(i));
                let k = choose|k: int| 0 <= k < earlier.len() && earlier[k] == i;
                assert(origin[k] == i);
            } else {
                assert(origin[origin.len() - 1] == i);
            }
        }
        origin
    }
}

/// A table in which no entry names a package has no renames, and nothing is
/// written for it.
pub proof fn lemma_no_package_no_commands(table: Seq<(Seq<char>, EntryModel)>, manifest: Seq<char>)
    requires
        forall|i: int|
            0 <= i < table.len() ==> !((#[trigger] table[i]).1 matches EntryModel::Detailed(
                Some(_),
            )),
    ensures
        renames_of(table) == Seq::<(Seq<char>, Seq<char>)>::empty(),
        table_commands(table, manifest) == Seq::<Seq<char>>::empty(),
    decreases table.len(),
{
    if table.len() > 0 {
        let front = table.drop_last();
        assert forall|i: int| 0 <= i < front.len() implies !((#[trigger] front[i]).1 matches EntryModel::Detailed(
            Some(_),
        )) by {
            assert(front[i] == table[i]);
        }
        lemma_no_package_no_commands(front, manifest);
        assert(table.last() == table[table.len() - 1]);
    }
}

/// Each rename is written as six lines, and the line `j` of the rename `i`
/// is the line `6 * i + j` of the commands: the blocks stand in the order of
/// the renames.
pub proof fn lemma_blocks_layout(
    renames: Seq<(Seq<char>, Seq<char>)>,
    manifest: Seq<char>,
    src_dir: Seq<char>,
)
    ensures
        blocks(renames, manifest, src_dir).len() == 6 * renames.len(),
        forall|i: int, j: int|
            0 <= i < renames.len() && 0 <= j < 6 ==> blocks(renames, manifest, src_dir)[6 * i + j]
                == #[trigger] block_lines(renames[i].0, renames[i].1, manifest, src_dir)[j],
    decreases renames.len(),
{
    if renames.len() > 0 {
        let front = renames.drop_last();
        lemma_blocks_layout(front, manifest, src_dir);
        let all = blocks(renames, manifest, src_dir);
        assert forall|i: int, j: int| 0 <= i < renames.len() && 0 <= j < 6 implies all[6 * i + j]
            == #[trigger] block_lines(renames[i].0, renames[i].1, manifest, src_dir)[j] by {
            if i < front.len() {
                assert(renames[i] == front[i]);
                assert(all[6 * i + j] == blocks(front, manifest, src_dir)[6 * i + j]);
            }
        }
    }
}

/// The renames of an ordered table stand in ascending order of their
/// aliases, so the block of an alias that comes before another stands
/// before the other's block.
pub proof fn lemma_renames_ascending(table: Seq<(Seq<char>, EntryModel)>)
    requires
        ascending(table),
    ensures
        forall|k: int, l: int|
            0 <= k < l < renames_of(table).len() ==> text_before(
                #[trigger] renames_of(table)[k].0,
                #[trigger] renames_of(table)[l].0,
            ),
{
    let origin = lemma_renames_are_the_renaming_lines(table);
    let renames = renames_of(table);
    assert forall|k: int, l: int| 0 <= k < l < renames.len() implies text_before(
        #[trigger] renames[k].0,
        #[trigger] renames[l].0,
    ) by {
        assert(origin[k] < origin[l]);
        assert(text_before(table[origin[k]].0, table[origin[l]].0));
    }
}

/// In what is written for an ordered table, the renames stand in ascending
/// order of their aliases and each has its six lines together: of two
/// renames, the one whose alias comes first has its block first.
pub proof fn lemma_blocks_in_alias_order(
    table: Seq<(Seq<char>, EntryModel)>,
    manifest: Seq<char>,
    k: int,
    l: int,
)
    requires
        ascending(table),
        0 <= k < l < renames_of(table).len(),
    ensures
        text_before(renames_of(table)[k].0, renames_of(table)[l].0),
        table_commands(table, manifest).len() == 6 * renames_of(table).len(),
        table_commands(table, manifest).subrange(6 * k, 6 * k + 6) == block_lines(
            renames_of(table)[k].0,
            renames_of(table)[k].1,
            manifest,
            source_dir_of(manifest),
        ),
        table_commands(table, manifest).subrange(6 * l, 6 * l + 6) == block_lines(
            renames_of(table)[l].0,
            renames_of(table)[l].1,
            manifest,
            source_dir_of(manifest),
        ),
{
    let renames = renames_of(table);
    let src_dir = source_dir_of(manifest);
    lemma_renames_ascending(table);
    lemma_blocks_layout(renames, manifest, src_dir);
    let all = table_commands(table, manifest);
    let first = block_lines(renames[k].0, renames[k].1, manifest, src_dir);
    let second = block_lines(renames[l].0, renames[l].1, manifest, src_dir);
    assert forall|j: int| 0 <= j < 6 implies all.subrange(6 * k, 6 * k + 6)[j] == first[j] by {
        assert(all[6 * k + j] == first[j]);
    }
    assert forall|j: int| 0 <= j < 6 implies all.subrange(6 * l, 6 * l + 6)[j] == second[j] by {
        assert(all[6 * l + j] == second[j]);
    }
    assert(all.subrange(6 * k, 6 * k + 6) =~= first);
    assert(all.subrange(6 * l, 6 * l + 6) =~= second);
}

/// Finds the renamed dependencies of a table.
pub fn detect_renames(table: &DependencyTable) -> (r: Vec<RenamePair>)
    ensures
        pairs(r@) == renames_of(table@),
{
    let lines = table.lines();
    let n: usize = lines.len();
    let mut found: Vec<RenamePair> = Vec::new();
    let mut i: usize = 0;
    assert(table@.take(0) =~= Seq::empty());
    assert(pairs(found@) =~= Seq::empty());
    while i < n
        invariant
            n == lines@.len(),
            crate::table::rows(lines@) == table@,
            i <= n,
            pairs(found@) == renames_of(table@.take(i as int)),
        decreases n - i,
    {
        let line = &lines[i];
        let ghost upto = table@.take(i + 1);
        assert(upto.drop_last() =~= table@.take(i as int));
        assert(upto.last() == line@);
        let ghost before = found@;
        match &line.entry {
            DependencyEntry::Detailed { package: Some(name) } => {
                if !name.as_str().is_empty() {
                    let pair = RenamePair { alias: line.alias.clone(), real_name: name.clone() };
                    found.push(pair);
                    assert(pairs(found@) =~= pairs(before).push((line.alias@, name@)));
                }
            },
            _ => {},
        }
        i = i + 1;
    }
    assert(table@.take(n as int) =~= table@);
    found
}

/// Writes the commands for a list of renames.
pub fn rename_commands(renames: &Vec<RenamePair>, manifest_path: &str, src_dir: &str) -> (r: Vec<
    String,
>)
    ensures
        texts(r@) == blocks(pairs(renames@), manifest_path@, src_dir@),
{
    let n: usize = renames.len();
    let mut out: Vec<String> = Vec::new();
    let mut i: usize = 0;
    assert(pairs(renames@).take(0) =~= Seq::empty());
    assert(texts(out@) =~= Seq::empty());
    while i < n
        invariant
            n == renames@.len(),
            i <= n,
            texts(out@) == blocks(pairs(renames@).take(i as int), manifest_path@, src_dir@),
        decreases n - i,
    {
        let ghost upto = pairs(renames@).take(i + 1);
        assert(upto.drop_last() =~= pairs(renames@).take(i as int));
        assert(upto.last() == renames@[i as int]@);
        let ghost before = out@;
        let mut block = rename_block(&renames[i], manifest_path, src_dir);
        let ghost added = block@;
        out.append(&mut block);
        assert(texts(out@) =~= texts(before) + texts(added));
        i = i + 1;
    }
    assert(pairs(renames@).take(n as int) =~= pairs(renames@));
    out
}

/// Decodes the value that a manifest holds under `dependencies` or
/// `dev-dependencies` and writes the commands that undo the renames in it.
/// A value that is no dependency table gives the schema error and no
/// command.
pub fn parse_and_rename_deps(cargo_path: &str, val: &toml::Value) -> (r: Result<
    Vec<String>,
    DependencySchemaError,
>)
    ensures
        match dependencies_of(node_of(*val)) {
            Ok(table) => r is Ok && texts(r->Ok_0@) == table_commands(table, cargo_path@),
            Err(e) => r is Err && r->Err_0@ == e,
        },
{
    match decode_dependencies(val) {
        Err(e) => Err(e),
        Ok(table) => {
            let renames = detect_renames(&table);
            let src_dir = source_dir(cargo_path);
            Ok(rename_commands(&renames, cargo_path, src_dir.as_str()))
        },
    }
}

} // verus!
