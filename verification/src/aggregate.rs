//! Per-group statistics over the entries that a run has counted.
//!
//! The entries counted so far form a *log*, in the order of the traversal.
//! Everything a group's statistics hold is a function of the log: the
//! entries whose key is the group's, their sizes summed, their number, and
//! the first few of their paths.

use crate::classify::{group_from_path, group_key};
use crate::size::saturate;
use crate::text::{
    lemma_bytes_before_asymmetric, lemma_bytes_before_transitive, order_of, text_before, texts,
    TextOrder,
};
use vstd::prelude::*;
use vstd::utf8::*;

verus! {

/// How many example paths a group keeps.
pub const MAX_EXAMPLES: usize = 5;

/// A matched path and the size found for it.
#[derive(Debug, Clone)]
pub struct MatchInfo {
    pub path: String,
    pub bytes: u64,
}

/// A matched path and its size, as plain values.
pub struct MatchView {
    pub path: Seq<char>,
    pub bytes: u64,
}

impl View for MatchInfo {
    type V = MatchView;

    open spec fn view(&self) -> MatchView {
        MatchView { path: self.path@, bytes: self.bytes }
    }
}

/// The statistics of one group.
#[derive(Debug, Clone)]
pub struct RuleAggregate {
    pub total_bytes: u64,
    pub count: usize,
    pub examples: Vec<String>,
}

/// The statistics of one group, as plain values.
pub struct AggregateView {
    pub total_bytes: u64,
    pub count: nat,
    pub examples: Seq<Seq<char>>,
}

impl View for RuleAggregate {
    type V = AggregateView;

    open spec fn view(&self) -> AggregateView {
        AggregateView {
            total_bytes: self.total_bytes,
            count: self.count as nat,
            examples: texts(self.examples@),
        }
    }
}

impl RuleAggregate {
    /// The examples are as many as the entries counted, up to
    /// `MAX_EXAMPLES`.
    pub open spec fn well_formed(&self) -> bool {
        self.examples@.len() == if self.count <= MAX_EXAMPLES {
            self.count
        } else {
            MAX_EXAMPLES
        }
    }
}

impl Default for RuleAggregate {
    fn default() -> (empty: RuleAggregate)
        ensures
            empty@ == (AggregateView { total_bytes: 0, count: 0, examples: Seq::empty() }),
    {
        let empty = RuleAggregate { total_bytes: 0, count: 0, examples: Vec::new() };
        assert(texts(empty.examples@) =~= Seq::<Seq<char>>::empty());
        empty
    }
}

/// The sizes of the entries, added up.
pub open spec fn total_of(items: Seq<MatchView>) -> nat
    decreases items.len(),
{
    if items.len() == 0 {
        0
    } else {
        total_of(items.drop_last()) + items.last().bytes as nat
    }
}

/// The entries of the log that are counted under `key`, in order.
pub open spec fn members(log: Seq<MatchView>, key: Seq<char>) -> Seq<MatchView>
    decreases log.len(),
{
    if log.len() == 0 {
        Seq::empty()
    } else if group_key(log.last().path) == key {
        members(log.drop_last(), key).push(log.last())
    } else {
        members(log.drop_last(), key)
    }
}

/// The paths of the entries, in order.
pub open spec fn paths_of(items: Seq<MatchView>) -> Seq<Seq<char>> {
    items.map_values(|m: MatchView| m.path)
}

/// The paths that are kept as examples: the first `MAX_EXAMPLES`.
pub open spec fn first_examples(paths: Seq<Seq<char>>) -> Seq<Seq<char>> {
    if paths.len() <= MAX_EXAMPLES {
        paths
    } else {
        paths.take(MAX_EXAMPLES as int)
    }
}

/// The statistics of group `key` after the entries of `log` were counted.
pub open spec fn summary_of(log: Seq<MatchView>, key: Seq<char>) -> AggregateView {
    let own = members(log, key);
    AggregateView {
        total_bytes: saturate(total_of(own) as int),
        count: own.len(),
        examples: first_examples(paths_of(own)),
    }
}

/// The key of entry `i` of a table of groups.
pub open spec fn key_at(groups: Seq<(String, RuleAggregate)>, i: int) -> Seq<char> {
    groups[i].0@
}

/// The keys of a table stand in ascending order, none twice.
pub open spec fn keys_ascend(groups: Seq<(String, RuleAggregate)>) -> bool {
    forall|i: int, j: int|
        0 <= i < j < groups.len() ==> text_before(
            #[trigger] key_at(groups, i),
            #[trigger] key_at(groups, j),
        )
}

/// Whether a table has an entry for `key`.
pub open spec fn has_group(groups: Seq<(String, RuleAggregate)>, key: Seq<char>) -> bool {
    exists|i: int| 0 <= i < groups.len() && #[trigger] key_at(groups, i) == key
}

/// The table holds exactly the groups of the log, ordered by key, each with
/// the statistics that the log gives it.
pub open spec fn table_reflects(
    groups: Seq<(String, RuleAggregate)>,
    log: Seq<MatchView>,
) -> bool {
    &&& keys_ascend(groups)
    &&& forall|i: int|
        0 <= i < groups.len() ==> {
            &&& members(log, #[trigger] key_at(groups, i)).len() > 0
            &&& groups[i].1@ == summary_of(log, key_at(groups, i))
        }
    &&& forall|j: int|
        0 <= j < log.len() ==> has_group(groups, group_key(#[trigger] log[j].path))
}

/// What counting one more entry does to the members of a group.
pub proof fn lemma_members_push(log: Seq<MatchView>, item: MatchView, key: Seq<char>)
    ensures
        members(log.push(item), key) == if group_key(item.path) == key {
            members(log, key).push(item)
        } else {
            members(log, key)
        },
{
    assert(log.push(item).drop_last() =~= log);
}

/// What one more entry adds to a total.
pub proof fn lemma_total_push(items: Seq<MatchView>, item: MatchView)
    ensures
        total_of(items.push(item)) == total_of(items) + item.bytes,
{
    assert(items.push(item).drop_last() =~= items);
}

/// A group has at most as many members as the log has entries, and their
/// sizes are part of the log's total.
pub proof fn lemma_members_bounded(log: Seq<MatchView>, key: Seq<char>)
    ensures
        members(log, key).len() <= log.len(),
        total_of(members(log, key)) <= total_of(log),
    decreases log.len(),
{
    if log.len() > 0 {
        lemma_members_bounded(log.drop_last(), key);
        if group_key(log.last().path) == key {
            lemma_total_push(members(log.drop_last(), key), log.last());
        }
    }
}

/// A group without an entry in the log has no member.
pub proof fn lemma_members_of_absent_key(log: Seq<MatchView>, key: Seq<char>)
    requires
        forall|j: int| 0 <= j < log.len() ==> group_key(#[trigger] log[j].path) != key,
    ensures
        members(log, key).len() == 0,
    decreases log.len(),
{
    if log.len() > 0 {
        let earlier = log.drop_last();
        assert forall|j: int| 0 <= j < earlier.len() implies group_key(
            #[trigger] earlier[j].path,
        ) != key by {
            assert(earlier[j] == log[j]);
        }
        lemma_members_of_absent_key(earlier, key);
        assert(log.last() == log[log.len() - 1]);
    }
}

/// Keys in ascending order are pairwise different.
pub proof fn lemma_ascending_keys_differ(groups: Seq<(String, RuleAggregate)>, i: int, j: int)
    requires
        keys_ascend(groups),
        0 <= i < groups.len(),
        0 <= j < groups.len(),
        i != j,
    ensures
        key_at(groups, i) != key_at(groups, j),
{
    lemma_bytes_before_asymmetric(
        encode_utf8(key_at(groups, i)),
        encode_utf8(key_at(groups, j)),
    );
    if i < j {
        assert(text_before(key_at(groups, i), key_at(groups, j)));
    } else {
        assert(text_before(key_at(groups, j), key_at(groups, i)));
    }
}

/// Finds where `key` stands in a table: the index of its entry if it has
/// one, else the index at which an entry for it would keep the order.
fn find_slot(groups: &Vec<(String, RuleAggregate)>, key: &str) -> (slot: (usize, bool))
    requires
        keys_ascend(groups@),
    ensures
        slot.0 <= groups@.len(),
        forall|i: int| 0 <= i < slot.0 ==> text_before(#[trigger] key_at(groups@, i), key@),
        slot.1 ==> slot.0 < groups@.len() && key_at(groups@, slot.0 as int) == key@,
        !slot.1 ==> !has_group(groups@, key@),
        !slot.1 ==> forall|i: int|
            slot.0 <= i < groups@.len() ==> text_before(key@, #[trigger] key_at(groups@, i)),
{
    let mut p: usize = 0;
    while p < groups.len()
        invariant
            keys_ascend(groups@),
            p <= groups@.len(),
            forall|i: int| 0 <= i < p ==> text_before(#[trigger] key_at(groups@, i), key@),
        decreases groups@.len() - p,
    {
        match order_of(groups[p].0.as_str(), key) {
            TextOrder::Before => {
                assert(key_at(groups@, p as int) == groups@[p as int].0@);
            },
            TextOrder::Same => {
                return (p, true);
            },
            TextOrder::After => {
                proof {
                    let at = key_at(groups@, p as int);
                    assert(text_before(key@, at));
                    assert forall|i: int| p <= i < groups@.len() implies text_before(
                        key@,
                        #[trigger] key_at(groups@, i),
                    ) by {
                        if p < i {
                            assert(text_before(at, key_at(groups@, i)));
                            lemma_bytes_before_transitive(
                                encode_utf8(key@),
                                encode_utf8(at),
                                encode_utf8(key_at(groups@, i)),
                            );
                        }
                    }
                    lemma_not_in_table(groups@, key@, p as int);
                }
                return (p, false);
            },
        }
        p = p + 1;
    }
    proof {
        lemma_not_in_table(groups@, key@, p as int);
    }
    (p, false)
}

/// A key that stands strictly between the entries of a table is not in it.
proof fn lemma_not_in_table(groups: Seq<(String, RuleAggregate)>, key: Seq<char>, p: int)
    requires
        0 <= p <= groups.len(),
        forall|i: int| 0 <= i < p ==> text_before(#[trigger] key_at(groups, i), key),
        forall|i: int| p <= i < groups.len() ==> text_before(key, #[trigger] key_at(groups, i)),
    ensures
        !has_group(groups, key),
{
    lemma_bytes_before_asymmetric(encode_utf8(key), encode_utf8(key));
    if has_group(groups, key) {
        let i = choose|i: int| 0 <= i < groups.len() && #[trigger] key_at(groups, i) == key;
        if i < p {
            assert(text_before(key_at(groups, i), key));
        } else {
            assert(text_before(key, key_at(groups, i)));
        }
    }
}

/// The totals of all groups of a table, added up without a cap.
pub open spec fn table_bytes(groups: Seq<(String, RuleAggregate)>) -> nat
    decreases groups.len(),
{
    if groups.len() == 0 {
        0
    } else {
        table_bytes(groups.drop_last()) + groups.last().1.total_bytes as nat
    }
}

/// The counts of all groups of a table, added up.
pub open spec fn table_count(groups: Seq<(String, RuleAggregate)>) -> nat
    decreases groups.len(),
{
    if groups.len() == 0 {
        0
    } else {
        table_count(groups.drop_last()) + groups.last().1.count as nat
    }
}

/// The sizes of the members of all groups of a table, added up.
pub open spec fn member_bytes(groups: Seq<(String, RuleAggregate)>, log: Seq<MatchView>) -> nat
    decreases groups.len(),
{
    if groups.len() == 0 {
        0
    } else {
        member_bytes(groups.drop_last(), log) + total_of(members(log, groups.last().0@))
    }
}

/// The numbers of members of all groups of a table, added up.
pub open spec fn member_count(groups: Seq<(String, RuleAggregate)>, log: Seq<MatchView>) -> nat
    decreases groups.len(),
{
    if groups.len() == 0 {
        0
    } else {
        member_count(groups.drop_last(), log) + members(log, groups.last().0@).len()
    }
}

/// No key stands twice in the table.
pub open spec fn keys_differ(groups: Seq<(String, RuleAggregate)>) -> bool {
    forall|i: int, j: int|
        0 <= i < j < groups.len() ==> #[trigger] key_at(groups, i) != #[trigger] key_at(groups, j)
}

/// Ascending keys are different keys.
pub proof fn lemma_ascending_is_distinct(groups: Seq<(String, RuleAggregate)>)
    requires
        keys_ascend(groups),
    ensures
        keys_differ(groups),
{
    assert forall|i: int, j: int| 0 <= i < j < groups.len() implies #[trigger] key_at(groups, i)
        != #[trigger] key_at(groups, j) by {
        lemma_ascending_keys_differ(groups, i, j);
    }
}

proof fn lemma_drop_last_keys(groups: Seq<(String, RuleAggregate)>)
    requires
        groups.len() > 0,
    ensures
        forall|i: int|
            0 <= i < groups.len() - 1 ==> #[trigger] key_at(groups.drop_last(), i) == key_at(
                groups,
                i,
            ),
        keys_differ(groups) ==> keys_differ(groups.drop_last()),
        forall|key: Seq<char>| #[trigger]
            has_group(groups, key) <==> has_group(groups.drop_last(), key) || key
                == groups.last().0@,
{
    let shorter = groups.drop_last();
    assert forall|i: int| 0 <= i < groups.len() - 1 implies #[trigger] key_at(shorter, i)
        == key_at(groups, i) by {}
    if keys_differ(groups) {
        assert forall|i: int, j: int| 0 <= i < j < shorter.len() implies #[trigger] key_at(
            shorter,
            i,
        ) != #[trigger] key_at(shorter, j) by {
            assert(key_at(groups, i) != key_at(groups, j));
        }
    }
    assert forall|key: Seq<char>| #[trigger]
        has_group(groups, key) <==> has_group(shorter, key) || key == groups.last().0@ by {
        if has_group(groups, key) {
            let i = choose|i: int| 0 <= i < groups.len() && #[trigger] key_at(groups, i) == key;
            if i < groups.len() - 1 {
                assert(key_at(shorter, i) == key);
            }
        }
        if has_group(shorter, key) {
            let i = choose|i: int| 0 <= i < shorter.len() && #[trigger] key_at(shorter, i) == key;
            assert(key_at(groups, i) == key);
        }
        if key == groups.last().0@ {
            assert(key_at(groups, groups.len() - 1) == key);
        }
    }
}

/// One more entry in the log adds its size to the members of exactly one
/// group, if the table has its group.
proof fn lemma_member_sums_push(
    groups: Seq<(String, RuleAggregate)>,
    log: Seq<MatchView>,
    item: MatchView,
)
    requires
        keys_differ(groups),
    ensures
        member_bytes(groups, log.push(item)) == member_bytes(groups, log) + (if has_group(
            groups,
            group_key(item.path),
        ) {
            item.bytes as nat
        } else {
            0
        }),
        member_count(groups, log.push(item)) == member_count(groups, log) + (if has_group(
            groups,
            group_key(item.path),
        ) {
            1nat
        } else {
            0
        }),
    decreases groups.len(),
{
    if groups.len() > 0 {
        let shorter = groups.drop_last();
        let last_key = groups.last().0@;
        lemma_drop_last_keys(groups);
        lemma_member_sums_push(shorter, log, item);
        lemma_members_push(log, item, last_key);
        lemma_total_push(members(log, last_key), item);
        if group_key(item.path) == last_key {
            if has_group(shorter, last_key) {
                let i = choose|i: int|
                    0 <= i < shorter.len() && #[trigger] key_at(shorter, i) == last_key;
                assert(key_at(groups, i) != key_at(groups, groups.len() - 1));
            }
        }
        assert(has_group(groups, group_key(item.path)) <==> has_group(
            shorter,
            group_key(item.path),
        ) || group_key(item.path) == last_key);
    } else {
        assert(!has_group(groups, group_key(item.path)));
    }
}

proof fn lemma_member_sums_of_empty_log(groups: Seq<(String, RuleAggregate)>)
    ensures
        member_bytes(groups, Seq::empty()) == 0,
        member_count(groups, Seq::empty()) == 0,
    decreases groups.len(),
{
    if groups.len() > 0 {
        lemma_member_sums_of_empty_log(groups.drop_last());
    }
}

/// The groups partition the log: where every entry's group is in the table
/// and no key stands twice, the members of all groups together are the
/// entries of the log, each once.
pub proof fn lemma_groups_partition_log(
    groups: Seq<(String, RuleAggregate)>,
    log: Seq<MatchView>,
)
    requires
        keys_differ(groups),
        forall|j: int| 0 <= j < log.len() ==> has_group(groups, group_key(#[trigger] log[j].path)),
    ensures
        member_bytes(groups, log) == total_of(log),
        member_count(groups, log) == log.len(),
    decreases log.len(),
{
    if log.len() == 0 {
        lemma_member_sums_of_empty_log(groups);
        assert(log =~= Seq::empty());
    } else {
        let earlier = log.drop_last();
        assert forall|j: int| 0 <= j < earlier.len() implies has_group(
            groups,
            group_key(#[trigger] earlier[j].path),
        ) by {
            assert(earlier[j] == log[j]);
        }
        lemma_groups_partition_log(groups, earlier);
        lemma_member_sums_push(groups, earlier, log.last());
        assert(earlier.push(log.last()) =~= log);
        assert(log.last() == log[log.len() - 1]);
    }
}

/// How the stored figures of a table relate to the exact sums over the
/// members: the counts agree, and the bytes agree unless a cap was hit.
proof fn lemma_stored_against_exact(groups: Seq<(String, RuleAggregate)>, log: Seq<MatchView>)
    requires
        forall|i: int|
            0 <= i < groups.len() ==> groups[i].1@ == summary_of(log, #[trigger] key_at(groups, i)),
    ensures
        table_count(groups) == member_count(groups, log),
        table_bytes(groups) == member_bytes(groups, log) || (table_bytes(groups) >= u64::MAX
            && member_bytes(groups, log) > u64::MAX),
    decreases groups.len(),
{
    if groups.len() > 0 {
        let shorter = groups.drop_last();
        assert forall|i: int| 0 <= i < shorter.len() implies shorter[i].1@ == summary_of(
            log,
            #[trigger] key_at(shorter, i),
        ) by {
            assert(key_at(shorter, i) == key_at(groups, i));
        }
        lemma_stored_against_exact(shorter, log);
        assert(groups.last().1@ == summary_of(log, key_at(groups, groups.len() - 1)));
    }
}

/// No entry is lost and none is counted twice: the counts of the groups add
/// up to the number of entries, and the totals of the groups add up to the
/// total of all sizes, up to the cap.
pub proof fn lemma_group_totals_account_for_log(
    groups: Seq<(String, RuleAggregate)>,
    log: Seq<MatchView>,
)
    requires
        table_reflects(groups, log),
    ensures
        table_count(groups) == log.len(),
        total_of(log) <= u64::MAX ==> table_bytes(groups) == total_of(log),
        saturate(table_bytes(groups) as int) == saturate(total_of(log) as int),
{
    lemma_ascending_is_distinct(groups);
    lemma_groups_partition_log(groups, log);
    lemma_stored_against_exact(groups, log);
}

/// Two tables show the same groups with the same statistics, in the same
/// order.
pub open spec fn same_table(
    one: Seq<(String, RuleAggregate)>,
    other: Seq<(String, RuleAggregate)>,
) -> bool {
    &&& one.len() == other.len()
    &&& forall|i: int|
        0 <= i < one.len() ==> {
            &&& #[trigger] key_at(one, i) == key_at(other, i)
            &&& one[i].1@ == other[i].1@
        }
}

proof fn lemma_same_keys_upto(
    one: Seq<(String, RuleAggregate)>,
    other: Seq<(String, RuleAggregate)>,
    n: int,
)
    requires
        keys_ascend(one),
        keys_ascend(other),
        forall|i: int| 0 <= i < one.len() ==> has_group(other, #[trigger] key_at(one, i)),
        forall|i: int| 0 <= i < other.len() ==> has_group(one, #[trigger] key_at(other, i)),
        0 <= n <= one.len(),
    ensures
        n <= other.len(),
        forall|i: int| 0 <= i < n ==> #[trigger] key_at(one, i) == key_at(other, i),
    decreases n,
{
    if n > 0 {
        lemma_same_keys_upto(one, other, n - 1);
        let i = n - 1;
        let mine = key_at(one, i);
        assert(has_group(other, mine));
        let j = choose|j: int| 0 <= j < other.len() && #[trigger] key_at(other, j) == mine;
        if j < i {
            assert(key_at(one, j) == key_at(other, j));
            lemma_ascending_keys_differ(one, j, i);
        }
        if j > i {
            let theirs = key_at(other, i);
            assert(text_before(theirs, key_at(other, j)));
            assert(has_group(one, theirs));
            let m = choose|m: int| 0 <= m < one.len() && #[trigger] key_at(one, m) == theirs;
            lemma_bytes_before_asymmetric(encode_utf8(theirs), encode_utf8(mine));
            if m < i {
                assert(key_at(one, m) == key_at(other, m));
                lemma_ascending_keys_differ(other, m, i);
            } else if m > i {
                assert(text_before(key_at(one, i), key_at(one, m)));
            }
        }
    }
}

/// The log determines the table: two tables that reflect the same log show
/// the same groups with the same statistics, in the same order.
pub proof fn lemma_table_is_determined(
    one: Seq<(String, RuleAggregate)>,
    other: Seq<(String, RuleAggregate)>,
    log: Seq<MatchView>,
)
    requires
        table_reflects(one, log),
        table_reflects(other, log),
    ensures
        same_table(one, other),
{
    assert forall|i: int| 0 <= i < one.len() implies has_group(
        other,
        #[trigger] key_at(one, i),
    ) by {
        lemma_member_is_in_log(log, key_at(one, i));
    }
    assert forall|i: int| 0 <= i < other.len() implies has_group(
        one,
        #[trigger] key_at(other, i),
    ) by {
        lemma_member_is_in_log(log, key_at(other, i));
    }
    lemma_same_keys_upto(one, other, one.len() as int);
    lemma_same_keys_upto(other, one, other.len() as int);
}

/// A group with a member has an entry of its key in the log.
pub proof fn lemma_member_is_in_log(log: Seq<MatchView>, key: Seq<char>)
    requires
        members(log, key).len() > 0,
    ensures
        exists|j: int| 0 <= j < log.len() && group_key(#[trigger] log[j].path) == key,
    decreases log.len(),
{
    if log.len() > 0 {
        if group_key(log.last().path) == key {
            assert(log[log.len() - 1] == log.last());
        } else {
            let earlier = log.drop_last();
            lemma_member_is_in_log(earlier, key);
            let j = choose|j: int|
                0 <= j < earlier.len() && group_key(#[trigger] earlier[j].path) == key;
            assert(earlier[j] == log[j]);
        }
    }
}

/// What one more path does to the examples that are kept.
pub proof fn lemma_examples_push(own: Seq<MatchView>, item: MatchView)
    ensures
        first_examples(paths_of(own.push(item))) == if own.len() < MAX_EXAMPLES {
            first_examples(paths_of(own)).push(item.path)
        } else {
            first_examples(paths_of(own))
        },
{
    let before = first_examples(paths_of(own));
    let after = first_examples(paths_of(own.push(item)));
    if own.len() < MAX_EXAMPLES {
        assert(after =~= before.push(item.path));
    } else {
        assert(after =~= before);
    }
}

/// Every group of a table that reflects a log is well formed and has
/// counted at least one entry.
pub proof fn lemma_groups_are_well_formed(
    groups: Seq<(String, RuleAggregate)>,
    log: Seq<MatchView>,
    i: int,
)
    requires
        table_reflects(groups, log),
        0 <= i < groups.len(),
    ensures
        groups[i].1.well_formed(),
        groups[i].1.count > 0,
{
    assert(groups[i].1@ == summary_of(log, key_at(groups, i)));
    assert(texts(groups[i].1.examples@).len() == groups[i].1.examples@.len());
}

/// Counting one more entry only adds: no total and no count gets lower,
/// the examples of a group stay and stay in place, and there are never more
/// than `MAX_EXAMPLES` of them.
pub proof fn lemma_counting_only_adds(log: Seq<MatchView>, item: MatchView, key: Seq<char>)
    ensures
        summary_of(log, key).total_bytes <= summary_of(log.push(item), key).total_bytes,
        summary_of(log, key).count <= summary_of(log.push(item), key).count,
        summary_of(log, key).examples.is_prefix_of(summary_of(log.push(item), key).examples),
        summary_of(log, key).examples.len() <= MAX_EXAMPLES,
        saturate(total_of(log) as int) <= saturate(total_of(log.push(item)) as int),
{
    lemma_members_push(log, item, key);
    lemma_total_push(members(log, key), item);
    lemma_total_push(log, item);
    lemma_examples_push(members(log, key), item);
}

/// The aggregator: the groups of the entries counted so far, and the total
/// of their sizes.
pub struct GroupTable {
    groups: Vec<(String, RuleAggregate)>,
    total_bytes: u64,
    entries: usize,
    log: Ghost<Seq<MatchView>>,
}

impl View for GroupTable {
    type V = Seq<MatchView>;

    /// The entries counted so far, in the order they were counted.
    closed spec fn view(&self) -> Seq<MatchView> {
        self.log@
    }
}

impl GroupTable {
    /// The table is what its log says.
    pub closed spec fn wf(&self) -> bool {
        &&& table_reflects(self.groups@, self.log@)
        &&& self.total_bytes == saturate(total_of(self.log@) as int)
        &&& self.entries == self.log@.len()
    }

    /// A table in which nothing is counted yet.
    pub fn new() -> (table: GroupTable)
        ensures
            table.wf(),
            table@ == Seq::<MatchView>::empty(),
    {
        GroupTable { groups: Vec::new(), total_bytes: 0, entries: 0, log: Ghost(Seq::empty()) }
    }

    /// How many entries were counted.
    pub fn entries(&self) -> (n: usize)
        requires
            self.wf(),
        ensures
            n == self@.len(),
    {
        self.entries
    }

    /// The sizes of all counted entries, added up and capped at the maximum.
    pub fn total_bytes(&self) -> (total: u64)
        requires
            self.wf(),
        ensures
            total == saturate(total_of(self@) as int),
    {
        self.total_bytes
    }

    /// The groups, in ascending order of their keys.
    pub fn groups(&self) -> (groups: &Vec<(String, RuleAggregate)>)
        requires
            self.wf(),
        ensures
            table_reflects(groups@, self@),
    {
        &self.groups
    }

    /// The groups, in ascending order of their keys.
    pub fn into_groups(self) -> (groups: Vec<(String, RuleAggregate)>)
        requires
            self.wf(),
        ensures
            table_reflects(groups@, self@),
    {
        self.groups
    }

    /// Counts one more entry under the key of its path: adds its size to the
    /// group's total and to the grand total, both capped at the maximum,
    /// raises the group's count, and keeps the path as an example while the
    /// group has fewer than `MAX_EXAMPLES`.
    pub fn record(&mut self, path: &str, bytes: u64)
        requires
            old(self).wf(),
            old(self)@.len() < usize::MAX,
        ensures
            final(self).wf(),
            final(self)@ == old(self)@.push(MatchView { path: path@, bytes }),
    {
        let key = group_from_path(path);
        let ghost log = self.log@;
        let ghost item = MatchView { path: path@, bytes };
        let ghost after = log.push(item);
        let ghost before = self.groups@;
        let (p, found) = find_slot(&self.groups, key.as_str());
        proof {
            lemma_members_push(log, item, key@);
            lemma_total_push(members(log, key@), item);
            lemma_total_push(log, item);
            lemma_examples_push(members(log, key@), item);
            lemma_members_bounded(log, key@);
            assert forall|k: Seq<char>| k != key@ implies #[trigger] members(after, k) == members(
                log,
                k,
            ) by {
                lemma_members_push(log, item, k);
            }
        }
        if found {
            let entry = &mut self.groups[p];
            entry.1.total_bytes = entry.1.total_bytes.saturating_add(bytes);
            entry.1.count = entry.1.count + 1;
            if entry.1.examples.len() < MAX_EXAMPLES {
                entry.1.examples.push(path.to_owned());
            }
            proof {
                let now = self.groups@;
                assert(texts(now[p as int].1.examples@) =~= first_examples(
                    paths_of(members(after, key@)),
                )) by {
                    assert(before[p as int].1@ == summary_of(log, key_at(before, p as int)));
                }
                assert forall|i: int| 0 <= i < now.len() implies key_at(now, i) == key_at(
                    before,
                    i,
                ) by {}
                assert forall|i: int| 0 <= i < now.len() implies {
                    &&& members(after, #[trigger] key_at(now, i)).len() > 0
                    &&& now[i].1@ == summary_of(after, key_at(now, i))
                } by {
                    if i != p {
                        lemma_ascending_keys_differ(before, i, p as int);
                        assert(now[i] == before[i]);
                        assert(members(log, key_at(before, i)).len() > 0);
                    } else {
                        assert(before[p as int].1@ == summary_of(log, key_at(before, p as int)));
                    }
                }
                assert forall|j: int| 0 <= j < after.len() implies has_group(
                    now,
                    group_key(#[trigger] after[j].path),
                ) by {
                    if j < log.len() {
                        assert(after[j] == log[j]);
                        assert(has_group(before, group_key(log[j].path)));
                        let i = choose|i: int|
                            0 <= i < before.len() && #[trigger] key_at(before, i) == group_key(
                                log[j].path,
                            );
                        assert(key_at(now, i) == group_key(log[j].path));
                    } else {
                        assert(key_at(now, p as int) == key@);
                    }
                }
                assert(keys_ascend(now)) by {
                    assert forall|i: int, j: int| 0 <= i < j < now.len() implies text_before(
                        #[trigger] key_at(now, i),
                        #[trigger] key_at(now, j),
                    ) by {
                        assert(text_before(key_at(before, i), key_at(before, j)));
                    }
                }
            }
        } else {
            let mut examples: Vec<String> = Vec::new();
            examples.push(path.to_owned());
            let fresh = RuleAggregate { total_bytes: bytes, count: 1, examples };
            self.groups.insert(p, (key, fresh));
            proof {
                let now = self.groups@;
                assert forall|j: int| 0 <= j < log.len() implies group_key(
                    #[trigger] log[j].path,
                ) != key@ by {
                    assert(has_group(before, group_key(log[j].path)));
                }
                lemma_members_of_absent_key(log, key@);
                assert(members(after, key@) =~= seq![item]);
                assert(total_of(seq![item]) == bytes) by {
                    lemma_total_push(Seq::empty(), item);
                    assert(Seq::<MatchView>::empty().push(item) =~= seq![item]);
                }
                assert(texts(fresh.examples@) =~= first_examples(paths_of(seq![item])));
                assert forall|i: int| 0 <= i < now.len() implies key_at(now, i) == (if i < p {
                    key_at(before, i)
                } else if i == p {
                    key@
                } else {
                    key_at(before, i - 1)
                }) by {}
                assert forall|i: int| 0 <= i < now.len() implies {
                    &&& members(after, #[trigger] key_at(now, i)).len() > 0
                    &&& now[i].1@ == summary_of(after, key_at(now, i))
                } by {
                    if i < p {
                        assert(now[i] == before[i]);
                        assert(members(log, key_at(before, i)).len() > 0);
                        assert(key_at(before, i) != key@);
                    } else if i > p {
                        assert(now[i] == before[i - 1]);
                        assert(members(log, key_at(before, i - 1)).len() > 0);
                        assert(key_at(before, i - 1) != key@);
                    }
                }
                assert forall|j: int| 0 <= j < after.len() implies has_group(
                    now,
                    group_key(#[trigger] after[j].path),
                ) by {
                    if j < log.len() {
                        assert(after[j] == log[j]);
                        assert(has_group(before, group_key(log[j].path)));
                        let i = choose|i: int|
                            0 <= i < before.len() && #[trigger] key_at(before, i) == group_key(
                                log[j].path,
                            );
                        let moved = if i < p {
                            i
                        } else {
                            i + 1
                        };
                        assert(key_at(now, moved) == group_key(log[j].path));
                    } else {
                        assert(key_at(now, p as int) == key@);
                    }
                }
                assert(keys_ascend(now)) by {
                    assert forall|i: int, j: int| 0 <= i < j < now.len() implies text_before(
                        #[trigger] key_at(now, i),
                        #[trigger] key_at(now, j),
                    ) by {
                        if j < p {
                            assert(text_before(key_at(before, i), key_at(before, j)));
                        } else if j == p {
                            assert(text_before(key_at(before, i), key@));
                        } else if i < p {
                            assert(text_before(key_at(before, i), key_at(before, j - 1)));
                        } else if i == p {
                            assert(text_before(key@, key_at(before, j - 1)));
                        } else {
                            assert(text_before(key_at(before, i - 1), key_at(before, j - 1)));
                        }
                    }
                }
            }
        }
        self.total_bytes = self.total_bytes.saturating_add(bytes);
        self.entries = self.entries + 1;
        self.log = Ghost(after);
    }
}

} // verus!
