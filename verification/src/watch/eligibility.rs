//! Whether a raw filesystem event path is even worth tracking as a
//! candidate, before any stability waiting or live re-validation.
//! Path shape only; nothing here looks at the filesystem.
use vstd::prelude::*;
use crate::path::{path_strip_prefix, paths_equal, same_path, strip_prefix, Comp, comps_view};
use crate::text::{ends_with, lower_seq, str_ends_with, to_lower};

verus! {

/// Names of in-progress downloads: never tracked under that name (the
/// final rename is a separate, fresh event).
pub open spec fn transient_spec(name: Seq<char>) -> bool {
    let l = lower_seq(name);
    ends_with(l, ".crdownload"@) || ends_with(l, ".part"@) || ends_with(l, ".download"@)
        || ends_with(l, ".tmp"@)
}

pub fn is_transient_filename(name: &str) -> (r: bool)
    ensures
        r == transient_spec(name@),
{
    let lower = to_lower(name);
    str_ends_with(lower.as_str(), ".crdownload") || str_ends_with(lower.as_str(), ".part")
        || str_ends_with(lower.as_str(), ".download") || str_ends_with(lower.as_str(), ".tmp")
}

/// How many plain names a component sequence holds.
pub open spec fn normal_count(c: Seq<Comp<Seq<char>>>) -> nat
    decreases c.len(),
{
    if c.len() == 0 {
        0
    } else {
        normal_count(c.drop_last()) + if c.last() is Normal {
            1nat
        } else {
            0nat
        }
    }
}

/// Non-recursive: `path` must be a direct child of `root`. Recursive: any
/// strict descendant. Never `root` itself.
pub open spec fn eligible_spec(root: Seq<char>, recursive: bool, path: Seq<char>) -> bool {
    !same_path(path, root) && match strip_prefix(path, root) {
        None => false,
        Some(rel) => {
            let depth = normal_count(rel);
            depth > 0 && (recursive || depth == 1)
        },
    }
}

pub fn is_eligible_candidate_path(root: &str, recursive: bool, path: &str) -> (r: bool)
    ensures
        r == eligible_spec(root@, recursive, path@),
{
    if paths_equal(path, root) {
        return false;
    }
    let rel = match path_strip_prefix(path, root) {
        Some(r) => r,
        None => {
            return false;
        },
    };
    let ghost rv = comps_view(rel@);
    let mut depth: usize = 0;
    let mut i: usize = 0;
    assert(rv.subrange(0, 0) =~= Seq::<Comp<Seq<char>>>::empty());
    while i < rel.len()
        invariant
            i <= rel@.len(),
            rv == comps_view(rel@),
            depth == normal_count(rv.subrange(0, i as int)),
            depth <= i,
        decreases rel@.len() - i,
    {
        assert(rv.subrange(0, i + 1).drop_last() =~= rv.subrange(0, i as int));
        assert(rv.subrange(0, i + 1).last() == crate::path::comp_view(rel@[i as int]));
        match &rel[i] {
            Comp::Normal(_) => {
                depth += 1;
            },
            _ => {},
        }
        i += 1;
    }
    assert(rv.subrange(0, rel@.len() as int) =~= rv);
    if depth == 0 {
        return false;
    }
    if recursive {
        true
    } else {
        depth == 1
    }
}

} // verus!
