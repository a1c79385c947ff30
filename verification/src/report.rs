//! The findings that a report lists: every matched path with the size of
//! the file it names.

use crate::aggregate::{lemma_total_push, total_of, MatchInfo, MatchView};
use crate::matcher::{set_matches, CompiledMatcher};
use crate::size::{file_bytes, saturate, EntryKind, EntryMeta};
use vstd::prelude::*;
use vstd::string::*;

verus! {

/// One entry of the traversal that a report is made from.
#[derive(Debug, Clone)]
pub struct Listed {
    /// Path relative to the root of the report.
    pub rel: String,
    /// The entry's metadata, `None` if it could not be read.
    pub stat: Option<EntryMeta>,
}

/// One entry of a traversal, as plain values.
pub struct ListedView {
    pub rel: Seq<char>,
    pub stat: Option<EntryMeta>,
}

impl View for Listed {
    type V = ListedView;

    open spec fn view(&self) -> ListedView {
        ListedView { rel: self.rel@, stat: self.stat }
    }
}

/// The entries of a traversal, as plain values.
pub open spec fn listing(entries: Seq<Listed>) -> Seq<ListedView> {
    entries.map_values(|e: Listed| e@)
}

/// The size that a report states for an entry: the length of a regular
/// file, and 0 for anything else or where the metadata cannot be read.
pub open spec fn reported_size(stat: Option<EntryMeta>) -> u64 {
    file_bytes(stat) as u64
}

/// What a report with these patterns lists for a traversal: each matched
/// entry, in order, with its reported size.
pub open spec fn findings(patterns: Seq<Seq<char>>, traversal: Seq<ListedView>) -> Seq<MatchView>
    decreases traversal.len(),
{
    if traversal.len() == 0 {
        Seq::empty()
    } else {
        let earlier = findings(patterns, traversal.drop_last());
        let entry = traversal.last();
        if set_matches(patterns, entry.rel) {
            earlier.push(MatchView { path: entry.rel, bytes: reported_size(entry.stat) })
        } else {
            earlier
        }
    }
}

/// The findings of a report, as plain values.
pub open spec fn found(items: Seq<MatchInfo>) -> Seq<MatchView> {
    items.map_values(|m: MatchInfo| m@)
}

/// The findings of a report and the capped total of their sizes.
#[derive(Debug, Clone)]
pub struct Report {
    pub matches: Vec<MatchInfo>,
    pub total: u64,
}

/// Where a report goes when no output path is given.
pub open spec fn default_output() -> Seq<char> {
    "report.md"@
}

/// The path that a report is written to: the one given, else `report.md`
/// in the working directory.
pub fn report_output(output: Option<String>) -> (path: String)
    ensures
        path@ == match output {
            Some(given) => given@,
            None => default_output(),
        },
{
    match output {
        Some(given) => given,
        None => "report.md".to_owned(),
    }
}

/// Computes the size that a report states for an entry.
pub fn size_for_report(stat: &Option<EntryMeta>) -> (bytes: u64)
    ensures
        bytes == reported_size(*stat),
{
    match stat {
        Some(meta) => if meta.kind == EntryKind::File {
            meta.len
        } else {
            0
        },
        None => 0,
    }
}

/// Collects the findings of a report from a traversal.
pub fn collect_findings(matcher: &CompiledMatcher, entries: &Vec<Listed>) -> (report: Report)
    ensures
        found(report.matches@) == findings(matcher@, listing(entries@)),
        report.total == saturate(total_of(found(report.matches@)) as int),
{
    let mut matches: Vec<MatchInfo> = Vec::new();
    let mut total: u64 = 0;
    let mut i: usize = 0;
    let ghost all = listing(entries@);
    assert(found(matches@) =~= findings(matcher@, all.take(0)));
    while i < entries.len()
        invariant
            i <= entries@.len(),
            all == listing(entries@),
            found(matches@) == findings(matcher@, all.take(i as int)),
            total == saturate(total_of(found(matches@)) as int),
        decreases entries@.len() - i,
    {
        let entry = &entries[i];
        let ghost before = found(matches@);
        proof {
            assert(all.take(i + 1).drop_last() =~= all.take(i as int));
            assert(all.take(i + 1).last() == entry@);
        }
        if matcher.is_match(entry.rel.as_str()) {
            let bytes = size_for_report(&entry.stat);
            if bytes > 0 {
                total = total.saturating_add(bytes);
            }
            matches.push(MatchInfo { path: entry.rel.clone(), bytes });
            proof {
                let item = MatchView { path: entry.rel@, bytes };
                assert(found(matches@) =~= before.push(item));
                lemma_total_push(before, item);
            }
        }
        i = i + 1;
    }
    assert(all.take(i as int) =~= all);
    Report { matches, total }
}

} // verus!
