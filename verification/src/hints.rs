//! Ignore-file hints: how often each pattern was suggested.

use crate::text::same_text;
use vstd::prelude::*;

verus! {

/// The texts of a list of string slices.
pub open spec fn slice_texts(list: Seq<&str>) -> Seq<Seq<char>> {
    list.map_values(|s: &str| s@)
}

/// How often `wanted` stands in `list`.
pub open spec fn occurrences(list: Seq<Seq<char>>, wanted: Seq<char>) -> nat
    decreases list.len(),
{
    if list.len() == 0 {
        0
    } else {
        occurrences(list.drop_last(), wanted) + if list.last() == wanted {
            1nat
        } else {
            0
        }
    }
}

/// The different texts of `list`, each at the place of its first
/// occurrence.
pub open spec fn first_seen(list: Seq<Seq<char>>) -> Seq<Seq<char>>
    decreases list.len(),
{
    if list.len() == 0 {
        Seq::empty()
    } else {
        let earlier = first_seen(list.drop_last());
        if earlier.contains(list.last()) {
            earlier
        } else {
            earlier.push(list.last())
        }
    }
}

/// The texts that a tally counts, in its order.
pub open spec fn tally_keys(tally: Seq<(String, usize)>) -> Seq<Seq<char>> {
    tally.map_values(|entry: (String, usize)| entry.0@)
}

/// `tally` counts `list`: it names each different text of the list once,
/// in the order of first occurrence, with the number of its occurrences.
pub open spec fn tally_counts(tally: Seq<(String, usize)>, list: Seq<Seq<char>>) -> bool {
    &&& tally_keys(tally) == first_seen(list)
    &&& forall|i: int|
        0 <= i < tally.len() ==> (#[trigger] tally[i]).1 == occurrences(list, tally[i].0@)
}

/// A text occurs at most as often as the list is long.
pub proof fn lemma_occurrences_bounded(list: Seq<Seq<char>>, wanted: Seq<char>)
    ensures
        occurrences(list, wanted) <= list.len(),
    decreases list.len(),
{
    if list.len() > 0 {
        lemma_occurrences_bounded(list.drop_last(), wanted);
    }
}

/// `first_seen` names exactly the texts of the list, none twice, and each
/// of them occurs in the list.
pub proof fn lemma_first_seen(list: Seq<Seq<char>>)
    ensures
        forall|p: Seq<char>| first_seen(list).contains(p) <==> list.contains(p),
        forall|i: int, j: int|
            0 <= i < j < first_seen(list).len() ==> first_seen(list)[i] != first_seen(list)[j],
        forall|p: Seq<char>| list.contains(p) <==> occurrences(list, p) > 0,
    decreases list.len(),
{
    if list.len() > 0 {
        let shorter = list.drop_last();
        let last = list.last();
        lemma_first_seen(shorter);
        let earlier = first_seen(shorter);
        let all = first_seen(list);
        assert forall|p: Seq<char>| list.contains(p) <==> shorter.contains(p) || p == last by {
            if list.contains(p) {
                let i = choose|i: int| 0 <= i < list.len() && list[i] == p;
                if i < shorter.len() {
                    assert(shorter[i] == p);
                }
            }
            if shorter.contains(p) {
                let i = choose|i: int| 0 <= i < shorter.len() && shorter[i] == p;
                assert(list[i] == p);
            }
            if p == last {
                assert(list[list.len() - 1] == p);
            }
        }
        assert forall|p: Seq<char>| all.contains(p) <==> earlier.contains(p) || p == last by {
            if earlier.contains(last) {
            } else {
                if all.contains(p) {
                    let i = choose|i: int| 0 <= i < all.len() && all[i] == p;
                    if i < earlier.len() {
                        assert(earlier[i] == p);
                    }
                }
                if earlier.contains(p) {
                    let i = choose|i: int| 0 <= i < earlier.len() && earlier[i] == p;
                    assert(all[i] == p);
                }
                if p == last {
                    assert(all[all.len() - 1] == p);
                }
            }
        }
        assert forall|i: int, j: int| 0 <= i < j < all.len() implies all[i] != all[j] by {
            if !earlier.contains(last) && j == all.len() - 1 {
                assert(earlier[i] == all[i]);
            }
        }
    }
}

fn find_in_tally(tally: &Vec<(String, usize)>, wanted: &str) -> (found: Option<usize>)
    ensures
        match found {
            Some(i) => i < tally@.len() && tally@[i as int].0@ == wanted@,
            None => !tally_keys(tally@).contains(wanted@),
        },
{
    let mut i: usize = 0;
    while i < tally.len()
        invariant
            i <= tally@.len(),
            forall|j: int| 0 <= j < i ==> tally@[j].0@ != wanted@,
        decreases tally@.len() - i,
    {
        if same_text(tally[i].0.as_str(), wanted) {
            return Some(i);
        }
        i = i + 1;
    }
    proof {
        let keys = tally_keys(tally@);
        if keys.contains(wanted@) {
            let j = choose|j: int| 0 <= j < keys.len() && keys[j] == wanted@;
            assert(tally@[j].0@ == wanted@);
        }
    }
    None
}

/// Counts how often each pattern was suggested. The result names each
/// different pattern once, in the order of first occurrence. The root of the
/// scan has no part in the count.
pub fn compute_ignore_hints(root: &str, patterns: &[&str]) -> (hints: Vec<(String, usize)>)
    ensures
        tally_counts(hints@, slice_texts(patterns@)),
{
    tally(patterns)
}

/// Counts how often each text stands in a list.
pub fn tally(patterns: &[&str]) -> (hints: Vec<(String, usize)>)
    ensures
        tally_counts(hints@, slice_texts(patterns@)),
{
    let mut hints: Vec<(String, usize)> = Vec::new();
    let ghost all = slice_texts(patterns@);
    let mut i: usize = 0;
    assert(tally_keys(hints@) =~= first_seen(all.take(0)));
    while i < patterns.len()
        invariant
            i <= patterns@.len(),
            all == slice_texts(patterns@),
            tally_counts(hints@, all.take(i as int)),
        decreases patterns@.len() - i,
    {
        let pattern = patterns[i];
        let ghost done = all.take(i as int);
        let ghost next = all.take(i + 1);
        let ghost before = hints@;
        proof {
            assert(next.drop_last() =~= done);
            assert(next.last() == pattern@);
            lemma_occurrences_bounded(done, pattern@);
        }
        match find_in_tally(&hints, pattern) {
            Some(j) => {
                let entry = &mut hints[j];
                entry.1 = entry.1 + 1;
                proof {
                    lemma_first_seen(done);
                    assert(tally_keys(before)[j as int] == pattern@);
                    assert(tally_keys(hints@) =~= tally_keys(before));
                    assert forall|k: int| 0 <= k < hints@.len() implies (#[trigger] hints@[k]).1
                        == occurrences(next, hints@[k].0@) by {
                        if k != j {
                            assert(hints@[k] == before[k]);
                            assert(tally_keys(before)[k] == before[k].0@);
                            assert(tally_keys(before)[j as int] != tally_keys(before)[k]);
                        }
                    }
                }
            },
            None => {
                hints.push((pattern.to_owned(), 1));
                proof {
                    lemma_first_seen(done);
                    assert(!first_seen(done).contains(pattern@));
                    assert(!done.contains(pattern@));
                    assert(occurrences(done, pattern@) == 0);
                    assert(tally_keys(hints@) =~= tally_keys(before).push(pattern@));
                    assert forall|k: int| 0 <= k < hints@.len() implies (#[trigger] hints@[k]).1
                        == occurrences(next, hints@[k].0@) by {
                        if k < before.len() {
                            assert(hints@[k] == before[k]);
                            assert(tally_keys(before)[k] == before[k].0@);
                            assert(tally_keys(before).contains(before[k].0@));
                        }
                    }
                }
            },
        }
        i = i + 1;
    }
    proof {
        assert(all.take(i as int) =~= all);
    }
    hints
}

} // verus!
