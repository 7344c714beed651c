//! Where the manifest and the sources are, given the path on the command
//! line.
//!
//! A path is read as text in which `/` separates the components.  Its file
//! name is what follows the last `/`, or all of it where there is none.

use vstd::prelude::*;

verus! {

/// The file name of a package manifest.
pub open spec fn manifest_name() -> Seq<char> {
    "Cargo.toml"@
}

/// The length of the directory part of a path: of its longest prefix that
/// ends in `/`, and 0 where the path holds no `/`.
pub open spec fn directory_len(path: Seq<char>) -> nat
    decreases path.len(),
{
    if path.len() == 0 {
        0
    } else if path.last() == '/' {
        path.len()
    } else {
        directory_len(path.drop_last())
    }
}

/// The directory part of a path, up to and with its last `/`.
pub open spec fn directory_part(path: Seq<char>) -> Seq<char> {
    path.take(directory_len(path) as int)
}

/// The file name of a path: what follows its last `/`.
pub open spec fn file_name(path: Seq<char>) -> Seq<char> {
    path.skip(directory_len(path) as int)
}

/// Whether a path points at a file with the manifest's name.
pub open spec fn names_manifest(path: Seq<char>) -> bool {
    file_name(path) == manifest_name()
}

/// The manifest that a path on the command line stands for.  A path that
/// already points at a manifest stands for itself.  Any other path is taken
/// as the package's directory, and the manifest's name is put behind it,
/// after a `/` unless the path is empty or ends in one.
pub open spec fn resolved_path(path: Seq<char>) -> Seq<char> {
    if names_manifest(path) {
        path
    } else if path.len() == 0 || path.last() == '/' {
        path + manifest_name()
    } else {
        path + "/"@ + manifest_name()
    }
}

/// The directory `src` beside a manifest: the manifest's path with its file
/// name replaced by `src`.
pub open spec fn source_dir_of(manifest_path: Seq<char>) -> Seq<char> {
    directory_part(manifest_path) + "src"@
}

/// The directory part is a prefix of the path.
pub proof fn lemma_directory_len_bound(path: Seq<char>)
    ensures
        directory_len(path) <= path.len(),
    decreases path.len(),
{
    if path.len() > 0 && path.last() != '/' {
        lemma_directory_len_bound(path.drop_last());
    }
}

/// The file name holds no `/`, and the directory part is empty or ends in
/// one.
pub proof fn lemma_directory_len_is_last_slash(path: Seq<char>)
    ensures
        directory_len(path) <= path.len(),
        directory_len(path) > 0 ==> path[directory_len(path) - 1] == '/',
        forall|i: int| directory_len(path) <= i < path.len() ==> path[i] != '/',
    decreases path.len(),
{
    if path.len() > 0 && path.last() != '/' {
        let front = path.drop_last();
        lemma_directory_len_is_last_slash(front);
        assert forall|i: int| directory_len(path) <= i < path.len() implies path[i] != '/' by {
            if i < front.len() {
                assert(path[i] == front[i]);
            }
        }
    }
}

/// A position that holds `/` and has no `/` behind it ends the directory
/// part; where no position holds `/`, the directory part is empty.
pub proof fn lemma_directory_len_unique(path: Seq<char>, d: int)
    requires
        0 <= d <= path.len(),
        d > 0 ==> path[d - 1] == '/',
        forall|i: int| d <= i < path.len() ==> path[i] != '/',
    ensures
        directory_len(path) == d,
    decreases path.len(),
{
    if path.len() > 0 && path.last() != '/' {
        lemma_directory_len_unique(path.drop_last(), d);
    }
}

/// A path that ends in `/` followed by the manifest's name has the `/` as
/// the end of its directory part, and the manifest's name as its file name.
pub proof fn lemma_manifest_in_directory(dir: Seq<char>)
    requires
        dir.len() > 0,
        dir.last() == '/',
    ensures
        directory_part(dir + manifest_name()) == dir,
        file_name(dir + manifest_name()) == manifest_name(),
        names_manifest(dir + manifest_name()),
        source_dir_of(dir + manifest_name()) == dir + "src"@,
{
    reveal_strlit("Cargo.toml");
    let path = dir + manifest_name();
    lemma_directory_len_unique(path, dir.len() as int);
    assert(path.take(dir.len() as int) =~= dir);
    assert(path.skip(dir.len() as int) =~= manifest_name());
}

/// The path that a run works on always points at a manifest, so resolving
/// it once more changes nothing.
pub proof fn lemma_resolved_names_manifest(path: Seq<char>)
    ensures
        names_manifest(resolved_path(path)),
        resolved_path(resolved_path(path)) == resolved_path(path),
{
    reveal_strlit("Cargo.toml");
    reveal_strlit("/");
    if names_manifest(path) {
    } else if path.len() == 0 {
        let r = path + manifest_name();
        assert(r =~= manifest_name());
        lemma_directory_len_unique(r, 0);
        assert(r.skip(0) =~= r);
    } else if path.last() == '/' {
        lemma_manifest_in_directory(path);
    } else {
        let dir = path + "/"@;
        assert(dir.last() == '/');
        lemma_manifest_in_directory(dir);
    }
}

/// The length of the directory part of a path.
fn directory_length(path: &str) -> (d: usize)
    ensures
        d == directory_len(path@),
{
    let n: usize = path.unicode_len();
    let mut i: usize = n;
    while i > 0
        invariant
            n == path@.len(),
            i <= n,
            forall|k: int| i <= k < n ==> path@[k] != '/',
        decreases i,
    {
        if path.get_char(i - 1) == '/' {
            proof {
                lemma_directory_len_unique(path@, i as int);
            }
            return i;
        }
        i = i - 1;
    }
    proof {
        lemma_directory_len_unique(path@, 0);
    }
    0
}

/// Whether two texts are the same.
fn same_text(a: &str, b: &str) -> (r: bool)
    ensures
        r == (a@ == b@),
{
    let x: String = a.to_owned();
    let y: String = b.to_owned();
    x == y
}

/// Finds the manifest that the path on the command line stands for.
pub fn resolve_manifest_path(path: &str) -> (r: String)
    ensures
        r@ == resolved_path(path@),
        names_manifest(path@) ==> r@ == path@,
        !names_manifest(path@) && path@.len() > 0 && path@.last() != '/' ==> r@ == path@
            + "/Cargo.toml"@,
{
    let n: usize = path.unicode_len();
    let d: usize = directory_length(path);
    proof {
        lemma_directory_len_bound(path@);
        reveal_strlit("/Cargo.toml");
        reveal_strlit("Cargo.toml");
        reveal_strlit("/");
        assert("/"@ + "Cargo.toml"@ =~= "/Cargo.toml"@);
    }
    let name: &str = path.substring_char(d, n);
    assert(name@ == file_name(path@));
    let mut out: String = path.to_owned();
    if same_text(name, "Cargo.toml") {
        out
    } else if n == 0 || path.get_char(n - 1) == '/' {
        out.append("Cargo.toml");
        out
    } else {
        out.append("/");
        out.append("Cargo.toml");
        assert(out@ =~= path@ + "/Cargo.toml"@);
        out
    }
}

/// Finds the directory `src` beside a manifest.
pub fn source_dir(manifest_path: &str) -> (r: String)
    ensures
        r@ == source_dir_of(manifest_path@),
{
    let d: usize = directory_length(manifest_path);
    proof {
        lemma_directory_len_bound(manifest_path@);
    }
    let dir: &str = manifest_path.substring_char(0, d);
    let mut out: String = dir.to_owned();
    out.append("src");
    out
}

} // verus!
