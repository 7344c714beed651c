//! The shell commands written for one renamed dependency.
//!
//! Every command is a fixed template with named substitution points: the
//! alias and the real package name as the manifest spells them, both names
//! as module names, the manifest's path and the source directory.  Nothing
//! is escaped beyond what the templates themselves show.

use vstd::prelude::*;
use crate::module_name::{module_name, to_module_name};

verus! {

/// A dependency whose manifest key differs from the package it stands for.
#[derive(Debug, PartialEq, Eq)]
pub struct RenamePair {
    /// The key of the dependency in the manifest's table.
    pub alias: String,
    /// The package that the entry names as the real one.
    pub real_name: String,
}

impl RenamePair {
    /// The pair as two texts: alias first, real package name second.
    pub open spec fn view(&self) -> (Seq<char>, Seq<char>) {
        (self.alias@, self.real_name@)
    }
}

/// The texts held by a sequence of strings, in order.
pub open spec fn texts(lines: Seq<String>) -> Seq<Seq<char>> {
    Seq::new(lines.len(), |i: int| lines[i]@)
}

/// The line that makes the shell stop at the first failing command or unset
/// variable and echo each command before it runs.
pub open spec fn preamble_line() -> Seq<char> {
    "set -xeu"@
}

/// Rewrites the line that declares the dependency: `alias = ` becomes
/// `real = `.
pub open spec fn declaration_line(alias: Seq<char>, target: Seq<char>, manifest: Seq<char>) -> Seq<
    char,
> {
    "sed -i \"s~^"@ + alias + "[ ]*=[ ]*~"@ + target + " = ~\" "@ + manifest
}

/// Strips the `package = "real",` fragment from the manifest.
pub open spec fn package_line(target: Seq<char>, manifest: Seq<char>) -> Seq<char> {
    "sed -i \"s~package[ ]*=[ ]*\\\""@ + target + "\\\"[,]*[ ]*~~\" "@ + manifest
}

/// Rewrites the feature string `"alias/std"` to `"real/std"`.
pub open spec fn feature_line(alias: Seq<char>, target: Seq<char>, manifest: Seq<char>) -> Seq<
    char,
> {
    "sed -i \"s~\\\""@ + alias + "/std\\\"~\\\""@ + target + "/std\\\"~\" "@ + manifest
}

/// Rewrites the bare string `"alias",` to `"real",`.
pub open spec fn optional_line(alias: Seq<char>, target: Seq<char>, manifest: Seq<char>) -> Seq<
    char,
> {
    "sed -i \"s~\\\""@ + alias + "\\\",~\\\""@ + target + "\\\",~\" "@ + manifest
}

/// Rewrites the path qualifier `alias::` to `real::` in every `*.rs` file
/// under the source directory.  Both names are module names.
pub open spec fn path_line(alias_mod: Seq<char>, real_mod: Seq<char>, src_dir: Seq<char>) -> Seq<
    char,
> {
    "find "@ + src_dir + " -name \"*.rs\" | xargs sed -i \"s~"@ + alias_mod + "::~"@ + real_mod
        + "::~g\""@
}

/// Rewrites the import `use alias` to `use real` in every `*.rs` file under
/// the source directory.  Both names are module names.
pub open spec fn import_line(alias_mod: Seq<char>, real_mod: Seq<char>, src_dir: Seq<char>) -> Seq<
    char,
> {
    "find "@ + src_dir + " -name \"*.rs\" | xargs sed -i \"s~use "@ + alias_mod + "~use "@
        + real_mod + "~g\""@
}

/// The six commands for one rename, in the order in which they are written:
/// four that edit the manifest, then two that edit the sources.  The first
/// four carry the names as the manifest spells them, the last two carry
/// their module names.
pub open spec fn block_lines(
    alias: Seq<char>,
    target: Seq<char>,
    manifest: Seq<char>,
    src_dir: Seq<char>,
) -> Seq<Seq<char>> {
    seq![
        declaration_line(alias, target, manifest),
        package_line(target, manifest),
        feature_line(alias, target, manifest),
        optional_line(alias, target, manifest),
        path_line(module_name(alias), module_name(target), src_dir),
        import_line(module_name(alias), module_name(target), src_dir),
    ]
}

/// The preamble as a string.
pub fn preamble() -> (r: String)
    ensures
        r@ == preamble_line(),
{
    String::from_str("set -xeu")
}

fn declaration_command(alias: &str, target: &str, manifest: &str) -> (r: String)
    ensures
        r@ == declaration_line(alias@, target@, manifest@),
{
    let mut out = String::from_str("sed -i \"s~^");
    out.append(alias);
    out.append("[ ]*=[ ]*~");
    out.append(target);
    out.append(" = ~\" ");
    out.append(manifest);
    out
}

fn package_command(target: &str, manifest: &str) -> (r: String)
    ensures
        r@ == package_line(target@, manifest@),
{
    let mut out = String::from_str("sed -i \"s~package[ ]*=[ ]*\\\"");
    out.append(target);
    out.append("\\\"[,]*[ ]*~~\" ");
    out.append(manifest);
    out
}

fn feature_command(alias: &str, target: &str, manifest: &str) -> (r: String)
    ensures
        r@ == feature_line(alias@, target@, manifest@),
{
    let mut out = String::from_str("sed -i \"s~\\\"");
    out.append(alias);
    out.append("/std\\\"~\\\"");
    out.append(target);
    out.append("/std\\\"~\" ");
    out.append(manifest);
    out
}

fn optional_command(alias: &str, target: &str, manifest: &str) -> (r: String)
    ensures
        r@ == optional_line(alias@, target@, manifest@),
{
    let mut out = String::from_str("sed -i \"s~\\\"");
    out.append(alias);
    out.append("\\\",~\\\"");
    out.append(target);
    out.append("\\\",~\" ");
    out.append(manifest);
    out
}

fn path_command(alias_mod: &str, real_mod: &str, src_dir: &str) -> (r: String)
    ensures
        r@ == path_line(alias_mod@, real_mod@, src_dir@),
{
    let mut out = String::from_str("find ");
    out.append(src_dir);
    out.append(" -name \"*.rs\" | xargs sed -i \"s~");
    out.append(alias_mod);
    out.append("::~");
    out.append(real_mod);
    out.append("::~g\"");
    out
}

fn import_command(alias_mod: &str, real_mod: &str, src_dir: &str) -> (r: String)
    ensures
        r@ == import_line(alias_mod@, real_mod@, src_dir@),
{
    let mut out = String::from_str("find ");
    out.append(src_dir);
    out.append(" -name \"*.rs\" | xargs sed -i \"s~use ");
    out.append(alias_mod);
    out.append("~use ");
    out.append(real_mod);
    out.append("~g\"");
    out
}

/// Writes the six commands that undo one rename.
pub fn rename_block(pair: &RenamePair, manifest_path: &str, src_dir: &str) -> (r: Vec<String>)
    ensures
        texts(r@) == block_lines(pair.alias@, pair.real_name@, manifest_path@, src_dir@),
{
    let alias = pair.alias.as_str();
    let target = pair.real_name.as_str();
    let alias_mod = to_module_name(alias);
    let real_mod = to_module_name(target);
    let mut out: Vec<String> = Vec::new();
    out.push(declaration_command(alias, target, manifest_path));
    out.push(package_command(target, manifest_path));
    out.push(feature_command(alias, target, manifest_path));
    out.push(optional_command(alias, target, manifest_path));
    out.push(path_command(alias_mod.as_str(), real_mod.as_str(), src_dir));
    out.push(import_command(alias_mod.as_str(), real_mod.as_str(), src_dir));
    assert(texts(out@) =~= block_lines(pair.alias@, pair.real_name@, manifest_path@, src_dir@));
    out
}

} // verus!
