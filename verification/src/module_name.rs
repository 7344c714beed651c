//! Names of packages as they appear in source code.

use vstd::prelude::*;

verus! {

/// One character of a package name as it is written in a module path:
/// a hyphen becomes an underscore, every other character stays.
pub open spec fn module_char(c: char) -> char {
    if c == '-' {
        '_'
    } else {
        c
    }
}

/// The module name of a package name: the same characters, in the same
/// order, with every hyphen replaced by an underscore.
pub open spec fn module_name(name: Seq<char>) -> Seq<char> {
    Seq::new(name.len(), |i: int| module_char(name[i]))
}

/// A module name is as long as the package name, holds no hyphen, has an
/// underscore wherever the package name has a hyphen, and agrees with the
/// package name everywhere else.
pub proof fn lemma_module_name_replaces_hyphens(name: Seq<char>)
    ensures
        module_name(name).len() == name.len(),
        forall|i: int| 0 <= i < name.len() ==> module_name(name)[i] != '-',
        forall|i: int| 0 <= i < name.len() && name[i] == '-' ==> module_name(name)[i] == '_',
        forall|i: int| 0 <= i < name.len() && name[i] != '-' ==> module_name(name)[i] == name[i],
        module_name(module_name(name)) == module_name(name),
{
    assert(module_name(module_name(name)) =~= module_name(name));
}

/// Calls `String::push`, which appends the character to the end of the
/// string.
#[verifier::external_body]
fn push_char(s: &mut String, c: char)
    ensures
        final(s)@ == old(s)@.push(c),
{
    s.push(c)
}

/// Turns a package name into the name under which source code refers to it.
pub fn to_module_name(s: &str) -> (r: String)
    ensures
        r@ == module_name(s@),
{
    let n: usize = s.unicode_len();
    let mut out = String::new();
    let mut i: usize = 0;
    while i < n
        invariant
            n == s@.len(),
            i <= n,
            out@ == module_name(s@.take(i as int)),
        decreases n - i,
    {
        let c = s.get_char(i);
        let d = if c == '-' { '_' } else { c };
        push_char(&mut out, d);
        i = i + 1;
        assert(out@ =~= module_name(s@.take(i as int)));
    }
    assert(s@.take(n as int) =~= s@);
    out
}

} // verus!
