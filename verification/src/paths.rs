//! The list of log files that a search found.

use vstd::prelude::*;
use crate::text::str_eq;

verus! {

/// The characters of each string of a sequence.
pub open spec fn names(paths: Seq<String>) -> Seq<Seq<char>> {
    paths.map_values(|p: String| p@)
}

/// `paths` with every path kept where it first occurs and left out where it
/// occurs again.
pub open spec fn first_seen(paths: Seq<Seq<char>>) -> Seq<Seq<char>>
    decreases paths.len(),
{
    if paths.len() == 0 {
        Seq::empty()
    } else {
        let before = first_seen(paths.drop_last());
        if before.contains(paths.last()) {
            before
        } else {
            before.push(paths.last())
        }
    }
}

/// `first_seen` holds each path of its argument, and none twice.
pub proof fn lemma_first_seen(paths: Seq<Seq<char>>)
    ensures
        first_seen(paths).no_duplicates(),
        forall|p: Seq<char>| first_seen(paths).contains(p) <==> paths.contains(p),
    decreases paths.len(),
{
    if paths.len() > 0 {
        let init = paths.drop_last();
        let before = first_seen(init);
        lemma_first_seen(init);
        assert forall|p: Seq<char>| first_seen(paths).contains(p) <==> paths.contains(p) by {
            if paths.contains(p) {
                let i = choose|i: int| 0 <= i < paths.len() && paths[i] == p;
                if i < init.len() {
                    assert(init[i] == p);
                    assert(init.contains(p));
                    assert(before.contains(p));
                    let j = choose|j: int| 0 <= j < before.len() && before[j] == p;
                    if !before.contains(paths.last()) {
                        assert(before.push(paths.last())[j] == p);
                    }
                } else {
                    if !before.contains(paths.last()) {
                        assert(before.push(paths.last())[before.len() as int] == p);
                    }
                }
            }
            if first_seen(paths).contains(p) {
                let j = choose|j: int| 0 <= j < first_seen(paths).len() && first_seen(paths)[j] == p;
                if j < before.len() {
                    assert(before[j] == p);
                    assert(before.contains(p));
                    assert(init.contains(p));
                    let i = choose|i: int| 0 <= i < init.len() && init[i] == p;
                    assert(paths[i] == p);
                } else {
                    assert(paths[paths.len() - 1] == p);
                }
            }
        }
    }
}

/// Whether `paths` holds `path`.
fn holds(paths: &Vec<String>, path: &str) -> (found: bool)
    ensures
        found == names(paths@).contains(path@),
{
    let mut i: usize = 0;
    while i < paths.len()
        invariant
            i <= paths.len(),
            forall|j: int| 0 <= j < i ==> names(paths@)[j] != path@,
        decreases paths.len() - i,
    {
        if str_eq(paths[i].as_str(), path) {
            assert(names(paths@)[i as int] == path@);
            return true;
        }
        i += 1;
    }
    false
}

/// The files that a search found, each once, in the order in which they were
/// first found.
pub fn unique_paths(found: Vec<String>) -> (unique: Vec<String>)
    ensures
        names(unique@) == first_seen(names(found@)),
        names(unique@).no_duplicates(),
        forall|p: Seq<char>| names(unique@).contains(p) <==> names(found@).contains(p),
{
    let mut unique: Vec<String> = Vec::new();
    let mut i: usize = 0;
    assert(names(found@).take(0) =~= Seq::empty());
    assert(names(unique@) =~= Seq::empty());
    while i < found.len()
        invariant
            i <= found.len(),
            names(unique@) == first_seen(names(found@).take(i as int)),
        decreases found.len() - i,
    {
        assert(names(found@).take(i + 1).drop_last() =~= names(found@).take(i as int));
        if !holds(&unique, found[i].as_str()) {
            let ghost before = unique@;
            let path = found[i].clone();
            unique.push(path);
            assert(names(before.push(path)) =~= names(before).push(path@));
        }
        i += 1;
    }
    assert(names(found@).take(found.len() as int) =~= names(found@));
    proof {
        lemma_first_seen(names(found@));
    }
    unique
}

} // verus!
