//! A table of dependencies: each alias with its entry, kept in the order of
//! the aliases, no alias twice.

use vstd::prelude::*;
use crate::order::{lemma_before_irreflexive, lemma_before_total, lemma_before_transitive, rank, text_before, Rank};

verus! {

/// What a manifest says of one dependency.
#[derive(Debug, PartialEq, Eq)]
pub enum DependencyEntry {
    /// Only a version requirement.  Such an entry cannot rename anything.
    Simple(String),
    /// A table of fields, of which only `package` is kept: the name of the
    /// real package, where the entry gives one.
    Detailed { package: Option<String> },
}

/// A dependency entry as plain text.
pub enum EntryModel {
    /// The version requirement.
    Simple(Seq<char>),
    /// The name of the real package, where the entry gives one.
    Detailed(Option<Seq<char>>),
}

impl DependencyEntry {
    /// The entry as plain text.
    pub open spec fn view(&self) -> EntryModel {
        match self {
            DependencyEntry::Simple(version) => EntryModel::Simple(version@),
            DependencyEntry::Detailed { package: Some(name) } => EntryModel::Detailed(
                Some(name@),
            ),
            DependencyEntry::Detailed { package: None } => EntryModel::Detailed(None),
        }
    }
}

/// One line of a dependency table.
#[derive(Debug, PartialEq, Eq)]
pub struct Dependency {
    /// The name under which the manifest lists the dependency.
    pub alias: String,
    /// What the manifest says of it.
    pub entry: DependencyEntry,
}

impl Dependency {
    /// The line as plain text: alias, then entry.
    pub open spec fn view(&self) -> (Seq<char>, EntryModel) {
        (self.alias@, self.entry@)
    }
}

/// The lines of a table as plain text, in order.
pub open spec fn rows(lines: Seq<Dependency>) -> Seq<(Seq<char>, EntryModel)> {
    Seq::new(lines.len(), |i: int| lines[i]@)
}

/// Whether the aliases of a table stand in strictly ascending order, which
/// also means that none occurs twice.
pub open spec fn ascending(table: Seq<(Seq<char>, EntryModel)>) -> bool {
    forall|i: int, j: int| 0 <= i < j < table.len() ==> text_before(table[i].0, table[j].0)
}

/// The number of leading lines whose alias comes before `alias`: the place
/// where a line for `alias` belongs.
pub open spec fn slot(table: Seq<(Seq<char>, EntryModel)>, alias: Seq<char>) -> int
    decreases table.len(),
{
    if table.len() == 0 || !text_before(table[0].0, alias) {
        0
    } else {
        1 + slot(table.skip(1), alias)
    }
}

/// The table after `alias` has been given `entry`: the line for `alias` is
/// replaced where there is one, and put in its place where there is none.
pub open spec fn inserted(
    table: Seq<(Seq<char>, EntryModel)>,
    alias: Seq<char>,
    entry: EntryModel,
) -> Seq<(Seq<char>, EntryModel)> {
    let at = slot(table, alias);
    if at < table.len() && table[at].0 == alias {
        table.update(at, (alias, entry))
    } else {
        table.insert(at, (alias, entry))
    }
}

/// The entry that a table holds for an alias.
pub open spec fn entry_for(table: Seq<(Seq<char>, EntryModel)>, alias: Seq<char>) -> Option<
    EntryModel,
> {
    if exists|i: int| 0 <= i < table.len() && table[i].0 == alias {
        let i = choose|i: int| 0 <= i < table.len() && table[i].0 == alias;
        Some(table[i].1)
    } else {
        None
    }
}

/// The slot lies within the table, everything before it comes before the
/// alias, and the line at the slot does not.
pub proof fn lemma_slot(table: Seq<(Seq<char>, EntryModel)>, alias: Seq<char>)
    ensures
        0 <= slot(table, alias) <= table.len(),
        forall|i: int| 0 <= i < slot(table, alias) ==> text_before(table[i].0, alias),
        slot(table, alias) < table.len() ==> !text_before(table[slot(table, alias)].0, alias),
    decreases table.len(),
{
    if table.len() > 0 && text_before(table[0].0, alias) {
        let rest = table.skip(1);
        lemma_slot(rest, alias);
        assert forall|i: int| 0 <= i < slot(table, alias) implies text_before(
            table[i].0,
            alias,
        ) by {
            if i > 0 {
                assert(table[i] == rest[i - 1]);
            }
        }
        if slot(table, alias) < table.len() {
            assert(table[slot(table, alias)] == rest[slot(rest, alias)]);
        }
    }
}

/// Giving an alias an entry keeps an ordered table ordered.
pub proof fn lemma_inserted_ascending(
    table: Seq<(Seq<char>, EntryModel)>,
    alias: Seq<char>,
    entry: EntryModel,
)
    requires
        ascending(table),
    ensures
        ascending(inserted(table, alias, entry)),
{
    let at = slot(table, alias);
    let after = inserted(table, alias, entry);
    lemma_slot(table, alias);
    if at < table.len() && table[at].0 == alias {
        assert forall|i: int, j: int| 0 <= i < j < after.len() implies text_before(
            after[i].0,
            after[j].0,
        ) by {
            assert(after[i].0 == table[i].0);
            assert(after[j].0 == table[j].0);
        }
    } else {
        assert forall|i: int, j: int| 0 <= i < j < after.len() implies text_before(
            after[i].0,
            after[j].0,
        ) by {
            if j < at {
                assert(after[i] == table[i] && after[j] == table[j]);
            } else if j == at {
                assert(after[i] == table[i]);
            } else if i == at {
                // the line at the slot is neither before the alias nor the alias
                lemma_before_total(table[at].0, alias);
                assert(after[j] == table[j - 1]);
                if j - 1 > at {
                    lemma_before_transitive(alias, table[at].0, table[j - 1].0);
                }
            } else if i < at {
                assert(after[i] == table[i] && after[j] == table[j - 1]);
            } else {
                assert(after[i] == table[i - 1] && after[j] == table[j - 1]);
            }
        }
    }
}

/// After an alias has been given an entry, the table holds that entry for
/// the alias, and for every other alias what it held before.
pub proof fn lemma_inserted_entry_for(
    table: Seq<(Seq<char>, EntryModel)>,
    alias: Seq<char>,
    entry: EntryModel,
    other: Seq<char>,
)
    requires
        ascending(table),
    ensures
        entry_for(inserted(table, alias, entry), alias) == Some(entry),
        other != alias ==> entry_for(inserted(table, alias, entry), other) == entry_for(
            table,
            other,
        ),
{
    let at = slot(table, alias);
    let after = inserted(table, alias, entry);
    lemma_slot(table, alias);
    lemma_inserted_ascending(table, alias, entry);
    assert(after[at] == (alias, entry));
    lemma_entry_for_unique(after, at);
    if other != alias {
        let replaced = at < table.len() && table[at].0 == alias;
        if exists|i: int| 0 <= i < table.len() && table[i].0 == other {
            let i = choose|i: int| 0 <= i < table.len() && table[i].0 == other;
            lemma_entry_for_unique(table, i);
            let k = if replaced || i < at {
                i
            } else {
                i + 1
            };
            assert(after[k] == table[i]);
            lemma_entry_for_unique(after, k);
        } else {
            if exists|k: int| 0 <= k < after.len() && after[k].0 == other {
                let k = choose|k: int| 0 <= k < after.len() && after[k].0 == other;
                let i = if replaced || k < at {
                    k
                } else {
                    k - 1
                };
                assert(table[i].0 == other);
            }
        }
    }
}

/// In an ordered table the line with a given alias is the only one with it.
pub proof fn lemma_entry_for_unique(table: Seq<(Seq<char>, EntryModel)>, i: int)
    requires
        ascending(table),
        0 <= i < table.len(),
    ensures
        entry_for(table, table[i].0) == Some(table[i].1),
{
    let alias = table[i].0;
    let j = choose|j: int| 0 <= j < table.len() && table[j].0 == alias;
    assert(table[i].0 == alias);
    if j < i {
        assert(text_before(table[j].0, table[i].0));
    } else if i < j {
        assert(text_before(table[i].0, table[j].0));
    }
    lemma_before_irreflexive(alias);
}

/// The dependencies of one manifest table, ordered by alias.
#[derive(Debug, PartialEq, Eq)]
pub struct DependencyTable {
    lines: Vec<Dependency>,
}

impl DependencyTable {
    /// The table as plain text: its lines in order, each an alias with its
    /// entry.
    pub closed spec fn view(&self) -> Seq<(Seq<char>, EntryModel)> {
        rows(self.lines@)
    }

    /// An empty table.
    pub fn new() -> (r: DependencyTable)
        ensures
            r@ == Seq::<(Seq<char>, EntryModel)>::empty(),
            ascending(r@),
    {
        let r = DependencyTable { lines: Vec::new() };
        assert(r@ =~= Seq::<(Seq<char>, EntryModel)>::empty());
        r
    }

    /// The lines of the table, in order.
    pub fn lines(&self) -> (r: &Vec<Dependency>)
        ensures
            rows(r@) == self@,
    {
        &self.lines
    }

    /// Gives `alias` the entry `entry`, in place of what the table held for
    /// it before, if anything.
    pub fn insert(&mut self, alias: String, entry: DependencyEntry)
        ensures
            final(self)@ == inserted(old(self)@, alias@, entry@),
            ascending(old(self)@) ==> ascending(final(self)@),
    {
        let ghost before = self@;
        let n: usize = self.lines.len();
        let mut at: usize = 0;
        let mut found: bool = false;
        assert(before.skip(0) =~= before);
        while at < n
            invariant_except_break
                !found,
                slot(before, alias@) == at + slot(before.skip(at as int), alias@),
            invariant
                n == self.lines@.len(),
                self@ == before,
                at <= n,
            ensures
                at <= n,
                n == self.lines@.len(),
                self@ == before,
                at == slot(before, alias@),
                found == (at < n && before[at as int].0 == alias@),
            decreases n - at,
        {
            let ghost rest = before.skip(at as int);
            assert(rest[0] == before[at as int]);
            assert(before[at as int] == self.lines@[at as int]@);
            proof {
                lemma_before_total(self.lines@[at as int].alias@, alias@);
            }
            match rank(self.lines[at].alias.as_str(), alias.as_str()) {
                Rank::Before => {
                    assert(rest.skip(1) =~= before.skip(at + 1));
                    at = at + 1;
                },
                Rank::Same => {
                    found = true;
                    break ;
                },
                Rank::After => {
                    break ;
                },
            }
        }
        let line = Dependency { alias, entry };
        if found {
            self.lines.set(at, line);
            assert(self@ =~= before.update(at as int, line@));
        } else {
            self.lines.insert(at, line);
            assert(self@ =~= before.insert(at as int, line@));
        }
        proof {
            if ascending(before) {
                lemma_inserted_ascending(before, alias@, entry@);
            }
        }
    }
}

} // verus!
