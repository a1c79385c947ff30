//! Advice drawn from the groups of a scan: their ranking by size, a safety
//! score for each, and the ignore patterns to suggest.

use crate::aggregate::{key_at, keys_ascend, RuleAggregate};
use crate::classify::{gitignore_hint_for_group, ignore_hint, safety_score, safety_score_for_group};
use crate::hints::{first_seen, slice_texts, tally, tally_counts};
use crate::rank::{is_ranking, outranks, rank_by_weight, ranking_of};
use crate::text::{holds_text, text_before, texts};
use vstd::prelude::*;
use vstd::string::*;

verus! {

/// How many hints a suggestion shows at most.
pub const TOP_HINTS: usize = 8;

/// The total sizes of the groups of a table, in its order.
pub open spec fn group_weights(groups: Seq<(String, RuleAggregate)>) -> Seq<u64> {
    groups.map_values(|g: (String, RuleAggregate)| g.1.total_bytes)
}

/// Every position that `order` names is one of `groups`.
pub open spec fn positions_within(order: Seq<usize>, len: nat) -> bool {
    forall|i: int| 0 <= i < order.len() ==> (#[trigger] order[i]) < len
}

/// Ranks the groups by total size, largest first; groups of equal size keep
/// the order of the table.
pub fn rank_groups(groups: &Vec<(String, RuleAggregate)>) -> (order: Vec<usize>)
    ensures
        is_ranking(order@, group_weights(groups@)),
        order@ == ranking_of(group_weights(groups@)),
        positions_within(order@, groups@.len()),
{
    let mut weights: Vec<u64> = Vec::new();
    let mut i: usize = 0;
    while i < groups.len()
        invariant
            i <= groups@.len(),
            weights@ == group_weights(groups@).take(i as int),
        decreases groups@.len() - i,
    {
        weights.push(groups[i].1.total_bytes);
        assert(weights@ =~= group_weights(groups@).take(i + 1));
        i = i + 1;
    }
    assert(weights@ =~= group_weights(groups@));
    rank_by_weight(&weights)
}

/// In the ranking of a table whose keys ascend, groups of equal size stand in
/// ascending order of their keys.
pub proof fn lemma_ranking_breaks_ties_by_key(
    groups: Seq<(String, RuleAggregate)>,
    order: Seq<usize>,
    i: int,
    j: int,
)
    requires
        keys_ascend(groups),
        is_ranking(order, group_weights(groups)),
        0 <= i < j < order.len(),
    ensures
        groups[order[i] as int].1.total_bytes > groups[order[j] as int].1.total_bytes || (
        groups[order[i] as int].1.total_bytes == groups[order[j] as int].1.total_bytes
            && text_before(key_at(groups, order[i] as int), key_at(groups, order[j] as int))),
{
    assert(outranks(group_weights(groups), order[i], order[j]));
    assert(order[i] < groups.len() && order[j] < groups.len());
}

/// What is said of one group.
#[derive(Debug, Clone)]
pub struct Suggestion {
    pub group: String,
    pub total_bytes: u64,
    pub count: usize,
    /// Advisory confidence, in percent, that deleting the group is safe.
    pub safety: u8,
}

/// What is said of one group, as plain values.
pub struct SuggestionView {
    pub group: Seq<char>,
    pub total_bytes: u64,
    pub count: usize,
    pub safety: u8,
}

impl View for Suggestion {
    type V = SuggestionView;

    open spec fn view(&self) -> SuggestionView {
        SuggestionView {
            group: self.group@,
            total_bytes: self.total_bytes,
            count: self.count,
            safety: self.safety,
        }
    }
}

/// What is said of a group of the table.
pub open spec fn suggestion_for(group: (String, RuleAggregate)) -> SuggestionView {
    SuggestionView {
        group: group.0@,
        total_bytes: group.1.total_bytes,
        count: group.1.count,
        safety: safety_score(group.0@),
    }
}

/// The suggestions for the groups at the positions of `order`, in that order.
pub fn suggestions(groups: &Vec<(String, RuleAggregate)>, order: &Vec<usize>) -> (list: Vec<
    Suggestion,
>)
    requires
        positions_within(order@, groups@.len()),
    ensures
        list@.len() == order@.len(),
        forall|i: int|
            0 <= i < order@.len() ==> (#[trigger] list@[i])@ == suggestion_for(
                groups@[order@[i] as int],
            ),
{
    let mut list: Vec<Suggestion> = Vec::new();
    let mut i: usize = 0;
    while i < order.len()
        invariant
            i <= order@.len(),
            positions_within(order@, groups@.len()),
            list@.len() == i,
            forall|k: int|
                0 <= k < i ==> (#[trigger] list@[k])@ == suggestion_for(groups@[order@[k] as int]),
        decreases order@.len() - i,
    {
        assert(order@[i as int] < groups@.len());
        let group = &groups[order[i]];
        list.push(
            Suggestion {
                group: group.0.clone(),
                total_bytes: group.1.total_bytes,
                count: group.1.count,
                safety: safety_score_for_group(group.0.as_str()),
            },
        );
        i = i + 1;
    }
    list
}

/// The hints of the groups at the positions of `order`, in that order;
/// a group without a hint adds none.
pub open spec fn hints_along(groups: Seq<(String, RuleAggregate)>, order: Seq<usize>) -> Seq<
    Seq<char>,
>
    decreases order.len(),
{
    if order.len() == 0 {
        Seq::empty()
    } else {
        let earlier = hints_along(groups, order.drop_last());
        match ignore_hint(key_at(groups, order.last() as int)) {
            Some(hint) => earlier.push(hint),
            None => earlier,
        }
    }
}

/// Collects the hints of the groups at the positions of `order`.
pub fn hint_candidates(groups: &Vec<(String, RuleAggregate)>, order: &Vec<usize>) -> (hints: Vec<
    String,
>)
    requires
        positions_within(order@, groups@.len()),
    ensures
        texts(hints@) == hints_along(groups@, order@),
{
    let mut hints: Vec<String> = Vec::new();
    let mut i: usize = 0;
    assert(texts(hints@) =~= hints_along(groups@, order@.take(0)));
    while i < order.len()
        invariant
            i <= order@.len(),
            positions_within(order@, groups@.len()),
            texts(hints@) == hints_along(groups@, order@.take(i as int)),
        decreases order@.len() - i,
    {
        assert(order@[i as int] < groups@.len());
        let ghost before = hints@;
        proof {
            assert(order@.take(i + 1).drop_last() =~= order@.take(i as int));
            assert(order@.take(i + 1).last() == order@[i as int]);
        }
        match gitignore_hint_for_group(groups[order[i]].0.as_str()) {
            Some(hint) => {
                hints.push(hint);
                assert(texts(hints@) =~= texts(before).push(hint@));
            },
            None => {},
        }
        i = i + 1;
    }
    assert(order@.take(i as int) =~= order@);
    hints
}

/// Drops every repetition from a list of hints; what stays keeps its place.
pub fn unique_hints(candidates: &Vec<String>) -> (hints: Vec<String>)
    ensures
        texts(hints@) == first_seen(texts(candidates@)),
{
    let mut hints: Vec<String> = Vec::new();
    let ghost all = texts(candidates@);
    let mut i: usize = 0;
    assert(texts(hints@) =~= first_seen(all.take(0)));
    while i < candidates.len()
        invariant
            i <= candidates@.len(),
            all == texts(candidates@),
            texts(hints@) == first_seen(all.take(i as int)),
        decreases candidates@.len() - i,
    {
        let ghost before = hints@;
        proof {
            assert(all.take(i + 1).drop_last() =~= all.take(i as int));
            assert(all.take(i + 1).last() == candidates@[i as int]@);
        }
        if !holds_text(&hints, candidates[i].as_str()) {
            hints.push(candidates[i].clone());
            assert(texts(hints@) =~= texts(before).push(candidates@[i as int]@));
        }
        i = i + 1;
    }
    assert(all.take(i as int) =~= all);
    hints
}

/// The counts of a tally, in its order.
pub open spec fn tally_weights(tally: Seq<(String, usize)>) -> Seq<u64> {
    tally.map_values(|entry: (String, usize)| entry.1 as u64)
}

/// `shown` is the head of `tally` in the order of its ranking by count: its
/// first `TOP_HINTS` entries, or all of them if there are fewer.
pub open spec fn is_top_of(shown: Seq<(String, usize)>, tally: Seq<(String, usize)>) -> bool {
    let order = ranking_of(tally_weights(tally));
    &&& shown.len() == if tally.len() <= TOP_HINTS {
        tally.len()
    } else {
        TOP_HINTS as nat
    }
    &&& forall|i: int|
        0 <= i < shown.len() ==> {
            &&& (#[trigger] shown[i]).0@ == tally[order[i] as int].0@
            &&& shown[i].1 == tally[order[i] as int].1
        }
}

/// `shown` is what a suggestion shows of a list of hints: each different
/// hint with the number of its occurrences, most frequent first, hints of
/// equal frequency in the order of first occurrence, `TOP_HINTS` at most.
pub open spec fn shows_top_hints(shown: Seq<(String, usize)>, candidates: Seq<Seq<char>>) -> bool {
    exists|tally: Seq<(String, usize)>| #[trigger]
        tally_counts(tally, candidates) && is_top_of(shown, tally)
}

fn borrowed(list: &Vec<String>) -> (refs: Vec<&str>)
    ensures
        slice_texts(refs@) == texts(list@),
{
    let mut refs: Vec<&str> = Vec::new();
    let mut i: usize = 0;
    while i < list.len()
        invariant
            i <= list@.len(),
            refs@.len() == i,
            forall|j: int| 0 <= j < i ==> (#[trigger] refs@[j])@ == list@[j]@,
        decreases list@.len() - i,
    {
        refs.push(list[i].as_str());
        i = i + 1;
    }
    assert(slice_texts(refs@) =~= texts(list@));
    refs
}

/// Counts the hints of a list and keeps the most frequent.
pub fn top_hints(candidates: &Vec<String>) -> (shown: Vec<(String, usize)>)
    ensures
        shows_top_hints(shown@, texts(candidates@)),
{
    let refs = borrowed(candidates);
    let counted = tally(refs.as_slice());
    let mut weights: Vec<u64> = Vec::new();
    let mut i: usize = 0;
    while i < counted.len()
        invariant
            i <= counted@.len(),
            weights@ == tally_weights(counted@).take(i as int),
        decreases counted@.len() - i,
    {
        weights.push(counted[i].1 as u64);
        assert(weights@ =~= tally_weights(counted@).take(i + 1));
        i = i + 1;
    }
    assert(weights@ =~= tally_weights(counted@));
    let order = rank_by_weight(&weights);
    let mut shown: Vec<(String, usize)> = Vec::new();
    let mut k: usize = 0;
    while k < order.len() && k < TOP_HINTS
        invariant
            k <= order@.len(),
            k <= TOP_HINTS,
            order@.len() == counted@.len(),
            is_ranking(order@, tally_weights(counted@)),
            shown@.len() == k,
            forall|j: int|
                0 <= j < k ==> {
                    &&& (#[trigger] shown@[j]).0@ == counted@[order@[j] as int].0@
                    &&& shown@[j].1 == counted@[order@[j] as int].1
                },
        decreases order@.len() - k,
    {
        assert(order@[k as int] < counted@.len());
        let entry = &counted[order[k]];
        shown.push((entry.0.clone(), entry.1));
        k = k + 1;
    }
    proof {
        assert(tally_counts(counted@, texts(candidates@)) && is_top_of(shown@, counted@));
    }
    shown
}

/// What a suggestion holds.
pub struct Advice {
    /// The positions of the groups, largest group first.
    pub order: Vec<usize>,
    /// What is said of each group, in that order.
    pub suggestions: Vec<Suggestion>,
    /// The ignore patterns to suggest, each with the number of groups that
    /// gave it.
    pub hints: Vec<(String, usize)>,
}

/// Draws up the advice for the groups of a scan: the groups ranked by size
/// with a safety score each, and the most frequent hints among theirs.
pub fn suggest(groups: &Vec<(String, RuleAggregate)>) -> (advice: Advice)
    ensures
        advice.order@ == ranking_of(group_weights(groups@)),
        is_ranking(advice.order@, group_weights(groups@)),
        advice.suggestions@.len() == groups@.len(),
        forall|i: int|
            0 <= i < groups@.len() ==> (#[trigger] advice.suggestions@[i])@ == suggestion_for(
                groups@[advice.order@[i] as int],
            ),
        shows_top_hints(advice.hints@, hints_along(groups@, advice.order@)),
{
    let order = rank_groups(groups);
    let suggestions = suggestions(groups, &order);
    let candidates = hint_candidates(groups, &order);
    let hints = top_hints(&candidates);
    Advice { order, suggestions, hints }
}

/// Heading of the block that is appended to an ignore file.
pub open spec fn block_heading() -> Seq<char> {
    "\n# Added by devspace-sweeper\n"@
}

/// The text appended to an ignore file: the heading, then one hint a line.
pub open spec fn ignore_block(hints: Seq<Seq<char>>) -> Seq<char>
    decreases hints.len(),
{
    if hints.len() == 0 {
        block_heading()
    } else {
        ignore_block(hints.drop_last()) + hints.last() + "\n"@
    }
}

/// What is to be done about the ignore file.
#[derive(Debug, Clone)]
pub enum IgnoreAction {
    /// There is no hint to give: the file is left alone.
    Nothing,
    /// Dry run: the hints are shown, the file is left alone.
    Preview { hints: Vec<String> },
    /// The block is appended to the file that exists.
    Append { hints: Vec<String>, block: String },
    /// The file does not exist yet: it is created with the block.
    Create { hints: Vec<String>, block: String },
}

/// What is to be done about the ignore file, as plain values.
pub enum IgnoreActionView {
    Nothing,
    Preview { hints: Seq<Seq<char>> },
    Append { hints: Seq<Seq<char>>, block: Seq<char> },
    Create { hints: Seq<Seq<char>>, block: Seq<char> },
}

impl View for IgnoreAction {
    type V = IgnoreActionView;

    open spec fn view(&self) -> IgnoreActionView {
        match self {
            IgnoreAction::Nothing => IgnoreActionView::Nothing,
            IgnoreAction::Preview { hints } => IgnoreActionView::Preview { hints: texts(hints@) },
            IgnoreAction::Append { hints, block } => IgnoreActionView::Append {
                hints: texts(hints@),
                block: block@,
            },
            IgnoreAction::Create { hints, block } => IgnoreActionView::Create {
                hints: texts(hints@),
                block: block@,
            },
        }
    }
}

impl IgnoreAction {
    /// Whether the action changes the file system.
    pub open spec fn writes(&self) -> bool {
        self is Append || self is Create
    }
}

/// The action that a list of hints calls for.
pub open spec fn planned_action(
    hints: Seq<Seq<char>>,
    dry_run: bool,
    file_exists: bool,
) -> IgnoreActionView {
    if hints.len() == 0 {
        IgnoreActionView::Nothing
    } else if dry_run {
        IgnoreActionView::Preview { hints }
    } else if file_exists {
        IgnoreActionView::Append { hints, block: ignore_block(hints) }
    } else {
        IgnoreActionView::Create { hints, block: ignore_block(hints) }
    }
}

/// Writes out the block for a list of hints.
pub fn render_block(hints: &Vec<String>) -> (block: String)
    ensures
        block@ == ignore_block(texts(hints@)),
{
    let mut block: String = "\n# Added by devspace-sweeper\n".to_owned();
    let mut i: usize = 0;
    assert(texts(hints@).take(0) =~= Seq::<Seq<char>>::empty());
    while i < hints.len()
        invariant
            i <= hints@.len(),
            block@ == ignore_block(texts(hints@).take(i as int)),
        decreases hints@.len() - i,
    {
        proof {
            let next = texts(hints@).take(i + 1);
            assert(next.drop_last() =~= texts(hints@).take(i as int));
            assert(next.last() == hints@[i as int]@);
        }
        block.append(hints[i].as_str());
        block.append("\n");
        i = i + 1;
    }
    assert(texts(hints@).take(i as int) =~= texts(hints@));
    block
}

/// Decides what to do about the ignore file, given the hints to add. A dry
/// run never writes.
pub fn plan_gen_ignore(hints: Vec<String>, dry_run: bool, file_exists: bool) -> (action:
    IgnoreAction)
    ensures
        action@ == planned_action(texts(hints@), dry_run, file_exists),
        dry_run ==> !action.writes(),
{
    if hints.len() == 0 {
        IgnoreAction::Nothing
    } else if dry_run {
        IgnoreAction::Preview { hints }
    } else {
        let block = render_block(&hints);
        if file_exists {
            IgnoreAction::Append { hints, block }
        } else {
            IgnoreAction::Create { hints, block }
        }
    }
}

/// The hints that the groups of a scan give, largest group first, none
/// twice.
pub open spec fn ranked_hints(groups: Seq<(String, RuleAggregate)>) -> Seq<Seq<char>> {
    first_seen(hints_along(groups, ranking_of(group_weights(groups))))
}

/// Decides what to do about the ignore file for the groups of a scan: the
/// hints are those of the groups, largest group first, none twice.
pub fn gen_ignore(groups: &Vec<(String, RuleAggregate)>, dry_run: bool, file_exists: bool) -> (action:
    IgnoreAction)
    ensures
        action@ == planned_action(ranked_hints(groups@), dry_run, file_exists),
        dry_run ==> !action.writes(),
{
    let order = rank_groups(groups);
    let candidates = hint_candidates(groups, &order);
    let hints = unique_hints(&candidates);
    plan_gen_ignore(hints, dry_run, file_exists)
}

} // verus!
