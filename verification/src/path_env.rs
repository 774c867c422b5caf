//! The logic of registering the expander binary on the user's search path:
//! deciding whether an entry already names it, appending the binary's
//! directory, and rebuilding the separated list. Reading and writing the
//! actual environment value belongs to the binary.

use crate::strutil::{contains_seq, contains_sub, join_with, spec_join};
use vstd::prelude::*;

verus! {

/// One of the path entries names the expander binary.
pub open spec fn spec_any_espanso(paths: Seq<Seq<char>>) -> bool {
    exists|i: int| 0 <= i < paths.len() && contains_seq(#[trigger] paths[i], "espanso"@)
}

/// Does any entry of the search path contain `espanso`?
pub fn is_espanso_in_path(paths: &Vec<String>) -> (r: bool)
    ensures
        r == spec_any_espanso(paths.deep_view()),
{
    let n = paths.len();
    let mut i: usize = 0;
    while i < n
        invariant
            0 <= i <= n,
            n == paths@.len(),
            forall|j: int|
                0 <= j < i ==> !contains_seq(#[trigger] paths.deep_view()[j], "espanso"@),
        decreases n - i,
    {
        if contains_sub(paths[i].as_str(), "espanso") {
            proof {
                assert(contains_seq(paths.deep_view()[i as int], "espanso"@));
            }
            return true;
        }
        i += 1;
    }
    false
}

/// The search-path value with the binary's directory appended: the entries
/// plus the directory, joined with the separator.
pub fn add_espanso_to_path(paths: Vec<String>, exe_parent: String) -> (r: String)
    ensures
        r@ == spec_join(paths.deep_view().push(exe_parent@), ";"@),
{
    let mut paths = paths;
    let ghost before = paths.deep_view();
    paths.push(exe_parent);
    proof {
        assert(paths.deep_view() =~= before.push(exe_parent@));
    }
    join_with(&paths, ";")
}

/// The path entries that do not name the expander binary, in order.
pub open spec fn spec_without_espanso(paths: Seq<Seq<char>>) -> Seq<Seq<char>>
    decreases paths.len(),
{
    if paths.len() == 0 {
        Seq::empty()
    } else {
        let prefix = spec_without_espanso(paths.drop_last());
        if contains_seq(paths.last(), "espanso"@) {
            prefix
        } else {
            prefix.push(paths.last())
        }
    }
}

/// The search-path value with every entry naming the binary removed.
pub fn remove_espanso_from_path(paths: &Vec<String>) -> (r: String)
    ensures
        r@ == spec_join(spec_without_espanso(paths.deep_view()), ";"@),
{
    let n = paths.len();
    let mut kept: Vec<String> = Vec::new();
    let mut i: usize = 0;
    while i < n
        invariant
            0 <= i <= n,
            n == paths@.len(),
            kept.deep_view() == spec_without_espanso(paths.deep_view().subrange(0, i as int)),
        decreases n - i,
    {
        proof {
            assert(paths.deep_view().subrange(0, i + 1).drop_last() =~= paths.deep_view()
                .subrange(0, i as int));
            assert(paths.deep_view().subrange(0, i + 1).last() == paths@[i as int]@);
        }
        if !contains_sub(paths[i].as_str(), "espanso") {
            let ghost before = kept.deep_view();
            kept.push(paths[i].clone());
            proof {
                assert(kept.deep_view() =~= before.push(paths@[i as int]@));
            }
        }
        i += 1;
    }
    proof {
        assert(paths.deep_view().subrange(0, n as int) =~= paths.deep_view());
    }
    join_with(&kept, ";")
}

} // verus!
