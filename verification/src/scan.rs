//! The scan: which entries of a traversal are counted, and with what size.
//!
//! The traversal itself is done by the caller, who hands over one entry at a
//! time: its path relative to the scan root, its absolute path, its
//! metadata, and, for a directory that will be sized, what a full traversal
//! beneath it yields.

use crate::aggregate::{
    lemma_group_totals_account_for_log, lemma_table_is_determined, same_table, table_bytes,
    table_count, table_reflects, total_of, GroupTable, MatchView, RuleAggregate,
};
use crate::matcher::{set_matches, CompiledMatcher};
use crate::size::{dir_size, saturate, tree_bytes, EntryKind, EntryMeta};
use crate::nesting::{
    beneath_any, char_texts, holds_chars, is_beneath_one, lemma_beneath_is_transitive,
    lies_beneath,
};
use crate::text::chars_of;
use vstd::prelude::*;

verus! {

/// What a scan has taken in so far.
pub struct ScanView {
    /// The counted entries with their sizes, in the order of the traversal.
    pub counted: Seq<MatchView>,
    /// The absolute paths of the directories that were sized.
    pub seen: Set<Seq<char>>,
}

/// Whether an entry is a directory that the scan has not sized yet, so
/// that counting it takes a walk beneath it.
pub open spec fn reads_contents(
    seen: Set<Seq<char>>,
    matched: bool,
    rel: Seq<char>,
    abs: Seq<char>,
    stat: Option<EntryMeta>,
) -> bool {
    &&& rel.len() > 0
    &&& matched
    &&& !beneath_any(seen, abs)
    &&& stat matches Some(meta)
    &&& meta.kind == EntryKind::Directory
    &&& !seen.contains(abs)
}

/// The size with which an entry is counted, or `None` where it is passed
/// over: the scan root itself, an entry that no pattern matches, one that
/// lies beneath a directory that was sized (its bytes are in that size
/// already), one whose metadata cannot be read, and a directory that was
/// sized before.
pub open spec fn counted_size(
    seen: Set<Seq<char>>,
    matched: bool,
    rel: Seq<char>,
    abs: Seq<char>,
    stat: Option<EntryMeta>,
    contents: Seq<Option<EntryMeta>>,
) -> Option<u64> {
    if rel.len() == 0 || !matched || beneath_any(seen, abs) {
        None
    } else {
        match stat {
            None => None,
            Some(meta) => match meta.kind {
                EntryKind::File => Some(meta.len),
                EntryKind::Directory => if seen.contains(abs) {
                    None
                } else {
                    Some(saturate(tree_bytes(contents) as int))
                },
                EntryKind::Other => Some(0),
            },
        }
    }
}

/// The state of a scan after one more entry of the traversal.
pub open spec fn scan_step(
    before: ScanView,
    matched: bool,
    rel: Seq<char>,
    abs: Seq<char>,
    stat: Option<EntryMeta>,
    contents: Seq<Option<EntryMeta>>,
) -> ScanView {
    match counted_size(before.seen, matched, rel, abs, stat, contents) {
        None => before,
        Some(bytes) => ScanView {
            counted: before.counted.push(MatchView { path: rel, bytes }),
            seen: if reads_contents(before.seen, matched, rel, abs, stat) {
                before.seen.insert(abs)
            } else {
                before.seen
            },
        },
    }
}

/// What a walk beneath an entry yields is read only for a directory that is
/// about to be sized.
pub proof fn lemma_contents_unread(
    before: ScanView,
    matched: bool,
    rel: Seq<char>,
    abs: Seq<char>,
    stat: Option<EntryMeta>,
    one: Seq<Option<EntryMeta>>,
    other: Seq<Option<EntryMeta>>,
)
    requires
        !reads_contents(before.seen, matched, rel, abs, stat),
    ensures
        scan_step(before, matched, rel, abs, stat, one) == scan_step(
            before,
            matched,
            rel,
            abs,
            stat,
            other,
        ),
{
}

/// A directory is sized and counted once: when the same absolute path comes
/// up again as a directory, under whatever relative path, the scan stays as
/// it is.
pub proof fn lemma_directory_counted_once(
    before: ScanView,
    rel: Seq<char>,
    abs: Seq<char>,
    meta: EntryMeta,
    contents: Seq<Option<EntryMeta>>,
    again_matched: bool,
    again_rel: Seq<char>,
    again_meta: EntryMeta,
    again_contents: Seq<Option<EntryMeta>>,
)
    requires
        meta.kind == EntryKind::Directory,
        again_meta.kind == EntryKind::Directory,
        rel.len() > 0,
    ensures
        ({
            let first = scan_step(before, true, rel, abs, Some(meta), contents);
            scan_step(first, again_matched, again_rel, abs, Some(again_meta), again_contents)
                == first
        }),
{
}

/// Nothing beneath a sized directory is counted: once a matched directory
/// has come up, an entry that lies beneath it leaves the scan as it is,
/// whatever it is and whatever matches it.
pub proof fn lemma_beneath_a_directory_is_passed_over(
    before: ScanView,
    rel: Seq<char>,
    abs: Seq<char>,
    meta: EntryMeta,
    contents: Seq<Option<EntryMeta>>,
    below_matched: bool,
    below_rel: Seq<char>,
    below_abs: Seq<char>,
    below_stat: Option<EntryMeta>,
    below_contents: Seq<Option<EntryMeta>>,
)
    requires
        meta.kind == EntryKind::Directory,
        rel.len() > 0,
        lies_beneath(below_abs, abs),
    ensures
        ({
            let first = scan_step(before, true, rel, abs, Some(meta), contents);
            scan_step(first, below_matched, below_rel, below_abs, below_stat, below_contents)
                == first
        }),
{
    let first = scan_step(before, true, rel, abs, Some(meta), contents);
    if beneath_any(before.seen, abs) {
        let dir = choose|dir: Seq<char>| #[trigger]
            before.seen.contains(dir) && lies_beneath(abs, dir);
        lemma_beneath_is_transitive(below_abs, abs, dir);
        assert(first.seen.contains(dir) && lies_beneath(below_abs, dir));
    } else {
        assert(first.seen.contains(abs) && lies_beneath(below_abs, abs));
    }
}

/// A scan in progress.
pub struct Scan {
    table: GroupTable,
    seen_dirs: Vec<Vec<char>>,
}

impl View for Scan {
    type V = ScanView;

    closed spec fn view(&self) -> ScanView {
        ScanView { counted: self.table@, seen: char_texts(self.seen_dirs@).to_set() }
    }
}

impl Scan {
    /// The scan holds what its view says.
    pub closed spec fn wf(&self) -> bool {
        self.table.wf()
    }

    /// A scan that has seen nothing.
    pub fn new() -> (scan: Scan)
        ensures
            scan.wf(),
            scan@.counted == Seq::<MatchView>::empty(),
            scan@.seen == Set::<Seq<char>>::empty(),
    {
        let scan = Scan { table: GroupTable::new(), seen_dirs: Vec::new() };
        assert(char_texts(scan.seen_dirs@).to_set() =~= Set::<Seq<char>>::empty());
        scan
    }

    /// How many entries were counted.
    pub fn counted(&self) -> (n: usize)
        requires
            self.wf(),
        ensures
            n == self@.counted.len(),
    {
        self.table.entries()
    }

    /// The sizes of all counted entries, added up and capped at the maximum.
    pub fn total_bytes(&self) -> (total: u64)
        requires
            self.wf(),
        ensures
            total == saturate(total_of(self@.counted) as int),
    {
        self.table.total_bytes()
    }

    /// The groups of the counted entries, in ascending order of their keys.
    pub fn groups(&self) -> (groups: &Vec<(String, RuleAggregate)>)
        requires
            self.wf(),
        ensures
            table_reflects(groups@, self@.counted),
    {
        self.table.groups()
    }

    /// Ends the scan: the groups in ascending order of their keys, and the
    /// capped total of all sizes.
    pub fn finish(self) -> (result: (Vec<(String, RuleAggregate)>, u64))
        requires
            self.wf(),
        ensures
            table_reflects(result.0@, self@.counted),
            result.1 == saturate(total_of(self@.counted) as int),
    {
        let total = self.table.total_bytes();
        (self.table.into_groups(), total)
    }

    /// Whether `observe` will read what a walk beneath this entry yields. The
    /// caller can spare itself that walk where it will not.
    pub fn wants_contents(
        &self,
        matcher: &CompiledMatcher,
        rel: &str,
        abs: &str,
        stat: &Option<EntryMeta>,
    ) -> (wanted: bool)
        requires
            self.wf(),
        ensures
            wanted == reads_contents(
                self@.seen,
                set_matches(matcher@, rel@),
                rel@,
                abs@,
                *stat,
            ),
    {
        if rel.is_empty() {
            return false;
        }
        match stat {
            Some(meta) => {
                if meta.kind != EntryKind::Directory || !matcher.is_match(rel) {
                    return false;
                }
                let path = chars_of(abs);
                !is_beneath_one(&self.seen_dirs, &path) && !holds_chars(&self.seen_dirs, &path)
            },
            None => false,
        }
    }

    /// Takes in the next entry of the traversal. It is counted if its
    /// relative path is not empty, a pattern matches that path, it does not
    /// lie beneath a directory that was sized, and its metadata was read; a
    /// directory only if its absolute path was not sized before. A file
    /// counts with its length, a directory with the capped total of the
    /// files in `contents`, anything else with 0.
    pub fn observe(
        &mut self,
        matcher: &CompiledMatcher,
        rel: &str,
        abs: &str,
        stat: &Option<EntryMeta>,
        contents: &Vec<Option<EntryMeta>>,
    ) -> (counted: bool)
        requires
            old(self).wf(),
            old(self)@.counted.len() < usize::MAX,
        ensures
            final(self).wf(),
            final(self)@ == scan_step(
                old(self)@,
                set_matches(matcher@, rel@),
                rel@,
                abs@,
                *stat,
                contents@,
            ),
            counted == counted_size(
                old(self)@.seen,
                set_matches(matcher@, rel@),
                rel@,
                abs@,
                *stat,
                contents@,
            ).is_some(),
    {
        if rel.is_empty() {
            return false;
        }
        if !matcher.is_match(rel) {
            return false;
        }
        let path = chars_of(abs);
        if is_beneath_one(&self.seen_dirs, &path) {
            return false;
        }
        let meta = match stat {
            Some(meta) => meta,
            None => {
                return false;
            },
        };
        let mut bytes: u64 = 0;
        match meta.kind {
            EntryKind::File => {
                bytes = meta.len;
            },
            EntryKind::Directory => {
                if holds_chars(&self.seen_dirs, &path) {
                    return false;
                }
                self.seen_dirs.push(path);
                bytes = dir_size(contents);
                proof {
                    let grown = char_texts(self.seen_dirs@);
                    let before = char_texts(old(self).seen_dirs@);
                    assert(grown =~= before.push(abs@));
                    assert(grown.to_set() =~= before.to_set().insert(abs@)) by {
                        assert forall|p: Seq<char>| grown.contains(p) <==> before.contains(p) || p
                            == abs@ by {
                            if grown.contains(p) {
                                let j = choose|j: int| 0 <= j < grown.len() && grown[j] == p;
                                if j < before.len() {
                                    assert(before[j] == p);
                                }
                            }
                            if before.contains(p) {
                                let j = choose|j: int| 0 <= j < before.len() && before[j] == p;
                                assert(grown[j] == p);
                            }
                            if p == abs@ {
                                assert(grown[grown.len() - 1] == p);
                            }
                        }
                    }
                }
            },
            EntryKind::Other => {},
        }
        self.table.record(rel, bytes);
        true
    }
}

/// One entry of a traversal, as the caller found it.
#[derive(Debug, Clone)]
pub struct Observation {
    /// Path relative to the scan root; patterns are matched against it.
    pub rel: String,
    /// Absolute path; directories are told apart by it.
    pub abs: String,
    /// The entry's metadata, `None` if it could not be read.
    pub stat: Option<EntryMeta>,
    /// For a directory: the metadata of every entry that a full traversal
    /// beneath it yields (ignore files not honoured), `None` for one that
    /// could not be read.
    pub contents: Vec<Option<EntryMeta>>,
}

/// One entry of a traversal, as plain values.
pub struct ObservationView {
    pub rel: Seq<char>,
    pub abs: Seq<char>,
    pub stat: Option<EntryMeta>,
    pub contents: Seq<Option<EntryMeta>>,
}

impl View for Observation {
    type V = ObservationView;

    open spec fn view(&self) -> ObservationView {
        ObservationView {
            rel: self.rel@,
            abs: self.abs@,
            stat: self.stat,
            contents: self.contents@,
        }
    }
}

/// The entries of a traversal, as plain values.
pub open spec fn observed(observations: Seq<Observation>) -> Seq<ObservationView> {
    observations.map_values(|o: Observation| o@)
}

/// The state of a scan with the given patterns after a whole traversal.
pub open spec fn scan_of(patterns: Seq<Seq<char>>, traversal: Seq<ObservationView>) -> ScanView
    decreases traversal.len(),
{
    if traversal.len() == 0 {
        ScanView { counted: Seq::empty(), seen: Set::empty() }
    } else {
        let entry = traversal.last();
        scan_step(
            scan_of(patterns, traversal.drop_last()),
            set_matches(patterns, entry.rel),
            entry.rel,
            entry.abs,
            entry.stat,
            entry.contents,
        )
    }
}

/// A scan counts at most as many entries as the traversal has.
pub proof fn lemma_scan_counts_at_most_all(
    patterns: Seq<Seq<char>>,
    traversal: Seq<ObservationView>,
)
    ensures
        scan_of(patterns, traversal).counted.len() <= traversal.len(),
    decreases traversal.len(),
{
    if traversal.len() > 0 {
        lemma_scan_counts_at_most_all(patterns, traversal.drop_last());
    }
}

/// Where no pattern matches any entry of the traversal, nothing is counted.
pub proof fn lemma_unmatched_traversal_counts_nothing(
    patterns: Seq<Seq<char>>,
    traversal: Seq<ObservationView>,
)
    requires
        forall|i: int|
            0 <= i < traversal.len() ==> !set_matches(patterns, #[trigger] traversal[i].rel),
    ensures
        scan_of(patterns, traversal).counted.len() == 0,
    decreases traversal.len(),
{
    if traversal.len() > 0 {
        let earlier = traversal.drop_last();
        assert forall|i: int| 0 <= i < earlier.len() implies !set_matches(
            patterns,
            #[trigger] earlier[i].rel,
        ) by {
            assert(earlier[i] == traversal[i]);
        }
        lemma_unmatched_traversal_counts_nothing(patterns, earlier);
        assert(traversal.last() == traversal[traversal.len() - 1]);
    }
}

/// A scan with no pattern counts nothing.
pub proof fn lemma_scan_without_patterns_is_empty(traversal: Seq<ObservationView>)
    ensures
        scan_of(Seq::empty(), traversal).counted.len() == 0,
{
    lemma_unmatched_traversal_counts_nothing(Seq::empty(), traversal);
}

/// Scans a whole traversal: the groups of the counted entries in ascending
/// order of their keys, and the capped total of all counted sizes.
pub fn scan_dir(matcher: &CompiledMatcher, observations: &Vec<Observation>) -> (result: (
    Vec<(String, RuleAggregate)>,
    u64,
))
    ensures
        table_reflects(result.0@, scan_of(matcher@, observed(observations@)).counted),
        result.1 == saturate(
            total_of(scan_of(matcher@, observed(observations@)).counted) as int,
        ),
{
    let mut scan = Scan::new();
    let mut i: usize = 0;
    while i < observations.len()
        invariant
            i <= observations@.len(),
            scan.wf(),
            scan@ == scan_of(matcher@, observed(observations@).take(i as int)),
        decreases observations@.len() - i,
    {
        let entry = &observations[i];
        proof {
            let done = observed(observations@).take(i as int);
            let next = observed(observations@).take(i + 1);
            assert(next.drop_last() =~= done);
            assert(next.last() == entry@);
            lemma_scan_counts_at_most_all(matcher@, done);
        }
        scan.observe(matcher, entry.rel.as_str(), entry.abs.as_str(), &entry.stat, &entry.contents);
        i = i + 1;
    }
    proof {
        assert(observed(observations@).take(i as int) =~= observed(observations@));
    }
    scan.finish()
}

/// Scanning is repeatable: two scans of the same traversal with the same
/// patterns end with the same total and the same groups.
pub proof fn lemma_scan_is_repeatable(
    patterns: Seq<Seq<char>>,
    traversal: Seq<ObservationView>,
    first: (Seq<(String, RuleAggregate)>, u64),
    second: (Seq<(String, RuleAggregate)>, u64),
)
    requires
        table_reflects(first.0, scan_of(patterns, traversal).counted),
        first.1 == saturate(total_of(scan_of(patterns, traversal).counted) as int),
        table_reflects(second.0, scan_of(patterns, traversal).counted),
        second.1 == saturate(total_of(scan_of(patterns, traversal).counted) as int),
    ensures
        first.1 == second.1,
        same_table(first.0, second.0),
{
    lemma_table_is_determined(first.0, second.0, scan_of(patterns, traversal).counted);
}

/// The totals of the groups of a scan add up to the sizes of the entries
/// it counted, each entry once, up to the cap; the grand total is that sum,
/// capped.
pub proof fn lemma_scan_totals_account_for_counted(
    patterns: Seq<Seq<char>>,
    traversal: Seq<ObservationView>,
    result: (Seq<(String, RuleAggregate)>, u64),
)
    requires
        table_reflects(result.0, scan_of(patterns, traversal).counted),
        result.1 == saturate(total_of(scan_of(patterns, traversal).counted) as int),
    ensures
        table_count(result.0) == scan_of(patterns, traversal).counted.len(),
        saturate(table_bytes(result.0) as int) == result.1,
        total_of(scan_of(patterns, traversal).counted) <= u64::MAX ==> table_bytes(result.0)
            == result.1,
{
    lemma_group_totals_account_for_log(result.0, scan_of(patterns, traversal).counted);
}

} // verus!
