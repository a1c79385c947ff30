//! Nesting of paths, and what the totals of a scan stand for in terms of
//! the files of the tree.
//!
//! A scan passes over whatever lies beneath a directory that it has sized:
//! the bytes of that entry are in the size of the directory already. On a
//! walk of a tree, which names a directory before what lies beneath it, the
//! counted entries are therefore the matched entries that lie beneath no
//! matched directory, and no byte enters the totals twice.

use crate::aggregate::{
    lemma_group_totals_account_for_log, table_bytes, table_reflects, total_of, MatchView,
    RuleAggregate,
};
use crate::matcher::set_matches;
use crate::scan::{counted_size, scan_of, ObservationView};
use crate::size::{saturate, tree_bytes, EntryKind};
use vstd::prelude::*;

verus! {

/// `path` names something beneath the directory `dir`: it is the text of
/// `dir`, a separator, and more.
pub open spec fn lies_beneath(path: Seq<char>, dir: Seq<char>) -> bool {
    &&& dir.len() < path.len()
    &&& path.subrange(0, dir.len() as int) == dir
    &&& path[dir.len() as int] == '/'
}

/// `path` lies beneath one of the directories of `seen`.
pub open spec fn beneath_any(seen: Set<Seq<char>>, path: Seq<char>) -> bool {
    exists|dir: Seq<char>| #[trigger] seen.contains(dir) && lies_beneath(path, dir)
}

/// What lies beneath a directory lies beneath all that the directory lies
/// beneath.
pub proof fn lemma_beneath_is_transitive(path: Seq<char>, dir: Seq<char>, above: Seq<char>)
    requires
        lies_beneath(path, dir),
        lies_beneath(dir, above),
    ensures
        lies_beneath(path, above),
{
    assert(path.subrange(0, above.len() as int) =~= above) by {
        assert forall|i: int| 0 <= i < above.len() implies path[i] == above[i] by {
            assert(path.subrange(0, dir.len() as int)[i] == dir[i]);
            assert(dir.subrange(0, above.len() as int)[i] == above[i]);
        }
    }
    assert(path.subrange(0, dir.len() as int)[above.len() as int] == dir[above.len() as int]);
}

/// The texts of a list of paths held as characters.
pub open spec fn char_texts(list: Seq<Vec<char>>) -> Seq<Seq<char>> {
    list.map_values(|p: Vec<char>| p@)
}

/// Whether `path` lies beneath `dir`.
pub fn is_beneath(path: &Vec<char>, dir: &Vec<char>) -> (beneath: bool)
    ensures
        beneath == lies_beneath(path@, dir@),
{
    if dir.len() >= path.len() {
        return false;
    }
    let mut i: usize = 0;
    while i < dir.len()
        invariant
            i <= dir@.len() < path@.len(),
            forall|k: int| 0 <= k < i ==> path@[k] == dir@[k],
        decreases dir@.len() - i,
    {
        if path[i] != dir[i] {
            assert(path@.subrange(0, dir@.len() as int)[i as int] != dir@[i as int]);
            return false;
        }
        i = i + 1;
    }
    assert(path@.subrange(0, dir@.len() as int) =~= dir@);
    path[dir.len()] == '/'
}

/// Whether `path` lies beneath one of the directories of a list.
pub fn is_beneath_one(dirs: &Vec<Vec<char>>, path: &Vec<char>) -> (beneath: bool)
    ensures
        beneath == beneath_any(char_texts(dirs@).to_set(), path@),
{
    let mut i: usize = 0;
    while i < dirs.len()
        invariant
            i <= dirs@.len(),
            forall|k: int| 0 <= k < i ==> !lies_beneath(path@, #[trigger] dirs@[k]@),
        decreases dirs@.len() - i,
    {
        if is_beneath(path, &dirs[i]) {
            assert(char_texts(dirs@)[i as int] == dirs@[i as int]@);
            assert(char_texts(dirs@).to_set().contains(dirs@[i as int]@));
            return true;
        }
        i = i + 1;
    }
    proof {
        let seen = char_texts(dirs@).to_set();
        if beneath_any(seen, path@) {
            let dir = choose|dir: Seq<char>| #[trigger]
                seen.contains(dir) && lies_beneath(path@, dir);
            let k = choose|k: int| 0 <= k < char_texts(dirs@).len() && char_texts(dirs@)[k] == dir;
            assert(dirs@[k]@ == dir);
        }
    }
    false
}

/// Whether a list of paths holds `path`.
pub fn holds_chars(dirs: &Vec<Vec<char>>, path: &Vec<char>) -> (found: bool)
    ensures
        found == char_texts(dirs@).to_set().contains(path@),
{
    let mut i: usize = 0;
    while i < dirs.len()
        invariant
            i <= dirs@.len(),
            forall|k: int| 0 <= k < i ==> (#[trigger] dirs@[k])@ != path@,
        decreases dirs@.len() - i,
    {
        if same_chars(&dirs[i], path) {
            assert(char_texts(dirs@)[i as int] == path@);
            return true;
        }
        i = i + 1;
    }
    proof {
        let all = char_texts(dirs@);
        if all.contains(path@) {
            let k = choose|k: int| 0 <= k < all.len() && all[k] == path@;
            assert(dirs@[k]@ == path@);
        }
    }
    false
}

fn same_chars(one: &Vec<char>, other: &Vec<char>) -> (same: bool)
    ensures
        same == (one@ == other@),
{
    if one.len() != other.len() {
        return false;
    }
    let mut i: usize = 0;
    while i < one.len()
        invariant
            i <= one@.len(),
            one@.len() == other@.len(),
            forall|k: int| 0 <= k < i ==> one@[k] == other@[k],
        decreases one@.len() - i,
    {
        if one[i] != other[i] {
            return false;
        }
        i = i + 1;
    }
    assert(one@ =~= other@);
    true
}

/// The entries of a traversal that a scan with these patterns counts, in
/// order.
pub open spec fn counted_entries(
    patterns: Seq<Seq<char>>,
    traversal: Seq<ObservationView>,
) -> Seq<ObservationView>
    decreases traversal.len(),
{
    if traversal.len() == 0 {
        Seq::empty()
    } else {
        let earlier = counted_entries(patterns, traversal.drop_last());
        let entry = traversal.last();
        if counted_size(
            scan_of(patterns, traversal.drop_last()).seen,
            set_matches(patterns, entry.rel),
            entry.rel,
            entry.abs,
            entry.stat,
            entry.contents,
        ) is Some {
            earlier.push(entry)
        } else {
            earlier
        }
    }
}

/// The bytes of the files that an entry stands for: its own length if it is
/// a file, the lengths of the files beneath it if it is a directory.
pub open spec fn bytes_beneath(entry: ObservationView) -> nat {
    match entry.stat {
        Some(meta) => match meta.kind {
            EntryKind::File => meta.len as nat,
            EntryKind::Directory => tree_bytes(entry.contents),
            EntryKind::Other => 0,
        },
        None => 0,
    }
}

/// The bytes that the entries stand for, added up.
pub open spec fn bytes_of(entries: Seq<ObservationView>) -> nat
    decreases entries.len(),
{
    if entries.len() == 0 {
        0
    } else {
        bytes_of(entries.drop_last()) + bytes_beneath(entries.last())
    }
}

/// Whether an entry is one that a scan can count: it is not the scan root,
/// a pattern matches its path, and its metadata was read.
pub open spec fn is_eligible(patterns: Seq<Seq<char>>, entry: ObservationView) -> bool {
    &&& entry.rel.len() > 0
    &&& set_matches(patterns, entry.rel)
    &&& entry.stat is Some
}

/// Whether an entry is a directory.
pub open spec fn is_directory(entry: ObservationView) -> bool {
    entry.stat matches Some(meta) && meta.kind == EntryKind::Directory
}

/// Entry `upper` of the traversal is a matched directory, and entry `lower`
/// lies beneath it.
pub open spec fn stands_above(
    patterns: Seq<Seq<char>>,
    traversal: Seq<ObservationView>,
    upper: int,
    lower: int,
) -> bool {
    &&& is_eligible(patterns, traversal[upper])
    &&& is_directory(traversal[upper])
    &&& lies_beneath(traversal[lower].abs, traversal[upper].abs)
}

/// Entry `i` of the traversal lies beneath a matched directory of the
/// traversal.
pub open spec fn has_matched_ancestor(
    patterns: Seq<Seq<char>>,
    traversal: Seq<ObservationView>,
    i: int,
) -> bool {
    exists|j: int| 0 <= j < traversal.len() && #[trigger] stands_above(patterns, traversal, j, i)
}

/// Those of the first `n` entries that a scan can count and that lie
/// beneath no matched directory: the matched directories without a matched
/// ancestor, and the matched files (and other entries) outside every matched
/// directory.
pub open spec fn outermost(
    patterns: Seq<Seq<char>>,
    traversal: Seq<ObservationView>,
    n: int,
) -> Seq<ObservationView>
    decreases n,
{
    if n <= 0 {
        Seq::empty()
    } else if is_eligible(patterns, traversal[n - 1]) && !has_matched_ancestor(
        patterns,
        traversal,
        n - 1,
    ) {
        outermost(patterns, traversal, n - 1).push(traversal[n - 1])
    } else {
        outermost(patterns, traversal, n - 1)
    }
}

/// The traversal is a walk of a tree: it names no path twice, and a
/// directory before everything beneath it.
pub open spec fn is_walk(traversal: Seq<ObservationView>) -> bool {
    &&& forall|i: int, j: int|
        0 <= i < j < traversal.len() ==> (#[trigger] traversal[i]).abs != (
        #[trigger] traversal[j]).abs
    &&& forall|i: int, j: int|
        0 <= i < traversal.len() && 0 <= j < traversal.len() && #[trigger] lies_beneath(
            traversal[i].abs,
            traversal[j].abs,
        ) ==> j < i
}

/// What holds of the directories that a scan has sized after the first `n`
/// entries of a walk: each is a matched directory among those entries, and
/// every matched directory among them was sized or lies beneath one that
/// was.
spec fn sized_are_matched(
    patterns: Seq<Seq<char>>,
    traversal: Seq<ObservationView>,
    n: int,
) -> bool {
    let seen = scan_of(patterns, traversal.take(n)).seen;
    &&& forall|dir: Seq<char>| #[trigger]
        seen.contains(dir) ==> exists|j: int|
            0 <= j < n && #[trigger] traversal[j].abs == dir && is_eligible(patterns, traversal[j])
                && is_directory(traversal[j])
    &&& forall|j: int|
        0 <= j < n && is_eligible(patterns, #[trigger] traversal[j]) && is_directory(traversal[j])
            ==> seen.contains(traversal[j].abs) || beneath_any(seen, traversal[j].abs)
}

/// On a walk, a scan counts exactly the matched entries that lie beneath no
/// matched directory.
proof fn lemma_counted_are_outermost(
    patterns: Seq<Seq<char>>,
    traversal: Seq<ObservationView>,
    n: int,
)
    requires
        is_walk(traversal),
        0 <= n <= traversal.len(),
    ensures
        counted_entries(patterns, traversal.take(n)) == outermost(patterns, traversal, n),
        sized_are_matched(patterns, traversal, n),
    decreases n,
{
    if n > 0 {
        lemma_counted_are_outermost(patterns, traversal, n - 1);
        let done = traversal.take(n - 1);
        let now = traversal.take(n);
        assert(now.drop_last() =~= done);
        assert(now.last() == traversal[n - 1]);
        let entry = traversal[n - 1];
        let seen = scan_of(patterns, done).seen;
        let after = scan_of(patterns, now).seen;
        let counted = counted_size(
            seen,
            set_matches(patterns, entry.rel),
            entry.rel,
            entry.abs,
            entry.stat,
            entry.contents,
        ) is Some;
        // Nothing sized is forgotten.
        assert forall|dir: Seq<char>| seen.contains(dir) implies after.contains(dir) by {}
        if counted {
            if has_matched_ancestor(patterns, traversal, n - 1) {
                let j = choose|j: int|
                    0 <= j < traversal.len() && #[trigger] stands_above(
                        patterns,
                        traversal,
                        j,
                        n - 1,
                    );
                assert(lies_beneath(traversal[n - 1].abs, traversal[j].abs));
                assert(j < n - 1);
                assert(is_eligible(patterns, traversal[j]));
                if seen.contains(traversal[j].abs) {
                    assert(beneath_any(seen, entry.abs));
                } else {
                    let dir = choose|dir: Seq<char>| #[trigger]
                        seen.contains(dir) && lies_beneath(traversal[j].abs, dir);
                    lemma_beneath_is_transitive(entry.abs, traversal[j].abs, dir);
                    assert(seen.contains(dir) && lies_beneath(entry.abs, dir));
                }
                assert(false);
            }
        } else if is_eligible(patterns, entry) && !has_matched_ancestor(patterns, traversal, n - 1) {
            if beneath_any(seen, entry.abs) {
                let dir = choose|dir: Seq<char>| #[trigger]
                    seen.contains(dir) && lies_beneath(entry.abs, dir);
                let j = choose|j: int|
                    0 <= j < n - 1 && #[trigger] traversal[j].abs == dir && is_eligible(
                        patterns,
                        traversal[j],
                    ) && is_directory(traversal[j]);
                assert(stands_above(patterns, traversal, j, n - 1));
                assert(false);
            }
            assert(seen.contains(entry.abs));
            let j = choose|j: int|
                0 <= j < n - 1 && #[trigger] traversal[j].abs == entry.abs && is_eligible(
                    patterns,
                    traversal[j],
                ) && is_directory(traversal[j]);
            assert(traversal[j].abs != traversal[n - 1].abs);
            assert(false);
        }
        assert forall|dir: Seq<char>| #[trigger] after.contains(dir) implies exists|j: int|
            0 <= j < n && #[trigger] traversal[j].abs == dir && is_eligible(patterns, traversal[j])
                && is_directory(traversal[j]) by {
            if seen.contains(dir) {
                let j = choose|j: int|
                    0 <= j < n - 1 && #[trigger] traversal[j].abs == dir && is_eligible(
                        patterns,
                        traversal[j],
                    ) && is_directory(traversal[j]);
                assert(0 <= j < n && traversal[j].abs == dir);
            } else {
                assert(traversal[n - 1].abs == dir);
            }
        }
        assert forall|j: int|
            0 <= j < n && is_eligible(patterns, #[trigger] traversal[j]) && is_directory(
                traversal[j],
            ) implies after.contains(traversal[j].abs) || beneath_any(after, traversal[j].abs) by {
            if j < n - 1 {
                if !seen.contains(traversal[j].abs) {
                    let dir = choose|dir: Seq<char>| #[trigger]
                        seen.contains(dir) && lies_beneath(traversal[j].abs, dir);
                    assert(after.contains(dir) && lies_beneath(traversal[j].abs, dir));
                }
            } else if !counted {
                if beneath_any(seen, entry.abs) {
                    let dir = choose|dir: Seq<char>| #[trigger]
                        seen.contains(dir) && lies_beneath(entry.abs, dir);
                    assert(after.contains(dir) && lies_beneath(entry.abs, dir));
                }
            }
        }
    } else {
        assert(traversal.take(0) =~= Seq::<ObservationView>::empty());
    }
}

/// The log of a scan holds the counted entries, each with the bytes it
/// stands for, capped.
proof fn lemma_log_of_counted(patterns: Seq<Seq<char>>, traversal: Seq<ObservationView>)
    ensures
        scan_of(patterns, traversal).counted.len() == counted_entries(patterns, traversal).len(),
        forall|i: int|
            0 <= i < counted_entries(patterns, traversal).len() ==> (#[trigger] scan_of(
                patterns,
                traversal,
            ).counted[i]) == (MatchView {
                path: counted_entries(patterns, traversal)[i].rel,
                bytes: saturate(bytes_beneath(counted_entries(patterns, traversal)[i]) as int),
            }),
    decreases traversal.len(),
{
    if traversal.len() > 0 {
        lemma_log_of_counted(patterns, traversal.drop_last());
    }
}

/// Where the bytes of all entries fit, the capped figures of a log are the
/// bytes themselves.
proof fn lemma_uncapped_total(log: Seq<MatchView>, entries: Seq<ObservationView>)
    requires
        log.len() == entries.len(),
        forall|i: int|
            0 <= i < entries.len() ==> (#[trigger] log[i]).bytes == saturate(
                bytes_beneath(entries[i]) as int,
            ),
        bytes_of(entries) <= u64::MAX,
    ensures
        total_of(log) == bytes_of(entries),
    decreases log.len(),
{
    if log.len() > 0 {
        lemma_uncapped_total(log.drop_last(), entries.drop_last());
    }
}

/// On a walk of a tree, a scan counts a matched entry exactly if it lies
/// beneath no matched directory: nothing beneath a counted directory is
/// counted again.
pub proof fn lemma_scan_counts_outermost_matches(
    patterns: Seq<Seq<char>>,
    traversal: Seq<ObservationView>,
)
    requires
        is_walk(traversal),
    ensures
        counted_entries(patterns, traversal) == outermost(
            patterns,
            traversal,
            traversal.len() as int,
        ),
{
    lemma_counted_are_outermost(patterns, traversal, traversal.len() as int);
    assert(traversal.take(traversal.len() as int) =~= traversal);
}

/// No byte is counted twice: on a walk of a tree whose matched bytes fit in
/// a `u64`, the totals of the groups add up to the bytes of the files
/// beneath the matched directories that have no matched directory above
/// them, plus the bytes of the matched files that lie beneath no matched
/// directory; and so does the grand total.
pub proof fn lemma_totals_of_unnested_matches(
    patterns: Seq<Seq<char>>,
    traversal: Seq<ObservationView>,
    result: (Seq<(String, RuleAggregate)>, u64),
)
    requires
        table_reflects(result.0, scan_of(patterns, traversal).counted),
        result.1 == saturate(total_of(scan_of(patterns, traversal).counted) as int),
        is_walk(traversal),
        bytes_of(outermost(patterns, traversal, traversal.len() as int)) <= u64::MAX,
    ensures
        table_bytes(result.0) == bytes_of(
            outermost(patterns, traversal, traversal.len() as int),
        ),
        result.1 == table_bytes(result.0),
{
    let entries = counted_entries(patterns, traversal);
    let log = scan_of(patterns, traversal).counted;
    lemma_scan_counts_outermost_matches(patterns, traversal);
    lemma_log_of_counted(patterns, traversal);
    lemma_uncapped_total(log, entries);
    lemma_group_totals_account_for_log(result.0, log);
}

} // verus!
