//! Decisions of the file relocation step, which moves finished downloads
//! from the scratch directory into the media tree: which files to move, and
//! whether a scratch copy may be deleted. Deleting comes only after the
//! copy, and only for a file whose canonical path lies inside the scratch
//! directory.

use vstd::prelude::*;
use crate::text::chars_of;

verus! {

/// Whether `name` begins with `prefix`.
pub open spec fn has_prefix(name: Seq<char>, prefix: Seq<char>) -> bool {
    prefix.len() <= name.len() && name.subrange(0, prefix.len() as int) == prefix
}

/// Whether a scratch entry is to be moved: a regular file whose name
/// begins with the download's filename prefix.
pub fn selects_file(is_file: bool, name: &str, prefix: &str) -> (r: bool)
    ensures
        r == (is_file && has_prefix(name@, prefix@)),
{
    if !is_file {
        return false;
    }
    let n = chars_of(name);
    let p = chars_of(prefix);
    if p.len() > n.len() {
        return false;
    }
    let mut i: usize = 0;
    while i < p.len()
        invariant
            i <= p.len() <= n.len(),
            n@ == name@,
            p@ == prefix@,
            n@.subrange(0, i as int) == p@.subrange(0, i as int),
        decreases p.len() - i,
    {
        if n[i] != p[i] {
            assert(n@.subrange(0, p.len() as int)[i as int] != p@[i as int]);
            return false;
        }
        assert(n@.subrange(0, i + 1) =~= n@.subrange(0, i as int).push(n@[i as int]));
        assert(p@.subrange(0, i + 1) =~= p@.subrange(0, i as int).push(p@[i as int]));
        i = i + 1;
    }
    assert(p@.subrange(0, i as int) =~= p@);
    true
}

/// Whether the path with components `path` lies inside the directory with
/// components `root`: the root's components begin the path's.
pub open spec fn inside(path: Seq<Seq<char>>, root: Seq<Seq<char>>) -> bool {
    root.len() <= path.len() && forall|i: int| 0 <= i < root.len() ==> path[i] == root[i]
}

/// The views of a list of path components.
pub open spec fn components(v: Seq<String>) -> Seq<Seq<char>> {
    v.map_values(|s: String| s@)
}

/// Whether the scratch copy of a file may be deleted: only once the copy
/// to the destination has succeeded, and only when the file's canonical
/// path could be found and lies inside the scratch directory.
pub open spec fn deletion_allowed(copied: bool, canonical: Option<Seq<Seq<char>>>, scratch: Seq<Seq<char>>) -> bool {
    copied && match canonical {
        Some(c) => inside(c, scratch),
        None => false,
    }
}

/// The view of an optional list of path components.
pub open spec fn opt_components(v: Option<Vec<String>>) -> Option<Seq<Seq<char>>> {
    match v {
        Some(c) => Some(components(c@)),
        None => None,
    }
}

/// Decides whether the scratch copy of a file may be deleted (see
/// [`deletion_allowed`]).
pub fn may_delete(copied: bool, canonical: &Option<Vec<String>>, scratch: &Vec<String>) -> (r: bool)
    ensures
        r == deletion_allowed(copied, opt_components(*canonical), components(scratch@)),
{
    if !copied {
        return false;
    }
    match canonical {
        None => false,
        Some(c) => {
            if scratch.len() > c.len() {
                return false;
            }
            let mut i: usize = 0;
            assert(components(c@).len() == c@.len());
            assert(components(scratch@).len() == scratch@.len());
            while i < scratch.len()
                invariant
                    copied,
                    *canonical == Some(*c),
                    i <= scratch.len() <= c.len(),
                    components(c@).len() == c@.len(),
                    components(scratch@).len() == scratch@.len(),
                    forall|k: int| 0 <= k < i ==> components(c@)[k] == components(scratch@)[k],
                decreases scratch.len() - i,
            {
                assert(components(c@)[i as int] == c@[i as int]@);
                assert(components(scratch@)[i as int] == scratch@[i as int]@);
                if !(c[i] == scratch[i]) {
                    assert(components(c@)[i as int] != components(scratch@)[i as int]);
                    assert(!inside(components(c@), components(scratch@)));
                    return false;
                }
                i = i + 1;
            }
            true
        },
    }
}

/// No file is deleted whose canonical path is unknown or lies outside the
/// scratch directory, and none before its copy succeeded.
pub proof fn lemma_deletes_stay_inside(copied: bool, canonical: Option<Seq<Seq<char>>>, scratch: Seq<Seq<char>>)
    ensures
        deletion_allowed(copied, canonical, scratch) ==> copied && canonical is Some && inside(
            canonical->0,
            scratch,
        ),
        !inside(canonical->0, scratch) ==> !deletion_allowed(copied, canonical, scratch),
{
}

} // verus!
