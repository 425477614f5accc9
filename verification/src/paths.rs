//! Paths as texts: how a directory and a name make a path, and which names
//! are the name of one file.

use crate::text::str_eq;
use vstd::prelude::*;
use vstd::string::*;

verus! {

/// The character that separates the parts of a path.
pub open spec fn separator() -> char {
    '/'
}

/// The path of `part` in the directory `base`. In the empty directory, the
/// one a process works in, it is `part` itself; a directory that ends in a
/// separator gets no second one.
pub open spec fn joined_path(base: Seq<char>, part: Seq<char>) -> Seq<char> {
    if base.len() == 0 {
        part
    } else if base.last() == separator() {
        base + part
    } else {
        base.push(separator()) + part
    }
}

/// Whether `name` names one file in a directory: it is not empty, holds no
/// separator, and is neither `.` nor `..`.
pub open spec fn is_file_name(name: Seq<char>) -> bool {
    &&& name.len() > 0
    &&& !name.contains(separator())
    &&& name != seq!['.']
    &&& name != seq!['.', '.']
}

/// The path of `part` in the directory `base`.
pub fn join_path(base: &str, part: &str) -> (path: String)
    ensures
        path@ == joined_path(base@, part@),
{
    let n: usize = base.unicode_len();
    if n == 0 {
        String::from_str(part)
    } else if base.get_char(n - 1) == '/' {
        String::from_str(base).concat(part)
    } else {
        proof {
            reveal_strlit("/");
            assert("/"@ =~= seq![separator()]);
            assert(base@ + "/"@ =~= base@.push(separator()));
        }
        String::from_str(base).concat("/").concat(part)
    }
}

/// Whether `name` names one file in a directory.
pub fn names_a_file(name: &str) -> (ok: bool)
    ensures
        ok == is_file_name(name@),
{
    let n: usize = name.unicode_len();
    if n == 0 {
        return false;
    }
    let mut i: usize = 0;
    while i < n
        invariant
            i <= n,
            n == name@.len(),
            forall|k: int| 0 <= k < i ==> name@[k] != separator(),
        decreases n - i,
    {
        if name.get_char(i) == '/' {
            assert(name@.contains(separator()));
            return false;
        }
        i += 1;
    }
    proof {
        reveal_strlit(".");
        reveal_strlit("..");
        assert("."@ =~= seq!['.']);
        assert(".."@ =~= seq!['.', '.']);
    }
    !str_eq(name, ".") && !str_eq(name, "..")
}

/// A path made with a file name ends in a separator and that name, so the
/// name can be read off the path.
pub proof fn lemma_joined_path_ends_in_name(base: Seq<char>, name: Seq<char>)
    requires
        base.len() > 0,
        is_file_name(name),
    ensures
        joined_path(base, name).len() > name.len(),
        joined_path(base, name).skip(joined_path(base, name).len() - name.len()) == name,
        joined_path(base, name)[joined_path(base, name).len() - name.len() - 1] == separator(),
{
    let path: Seq<char> = joined_path(base, name);
    assert(path.skip(path.len() - name.len()) =~= name);
}

/// Different file names make different paths in one directory, and the
/// paths differ in their last part.
pub proof fn lemma_joined_paths_distinct(base: Seq<char>, a: Seq<char>, b: Seq<char>)
    requires
        a != b,
    ensures
        joined_path(base, a) != joined_path(base, b),
{
    let pa: Seq<char> = joined_path(base, a);
    let pb: Seq<char> = joined_path(base, b);
    let head: int = pa.len() - a.len();
    assert(pa.skip(head) =~= a);
    assert(pb.skip(head) =~= b);
}

} // verus!
