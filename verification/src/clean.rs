//! Cleaning: which entries are selected for deletion, and what is done with
//! each. The deletion itself is the caller's; a dry run never asks for one.

use crate::age::{age_allows, clock_now, passes_age_filters_at, Modified, Timestamp};
use crate::aggregate::{lemma_total_push, total_of, MatchView};
use crate::matcher::{set_matches, CompiledMatcher};
use crate::size::{entry_size, saturate, size_hint, EntryKind, EntryMeta};
use vstd::prelude::*;

verus! {

/// The options of a cleaning run.
#[derive(Clone, Copy, Debug, PartialEq, Eq, Structural)]
pub struct CleanPolicy {
    /// Report what would be deleted and delete nothing.
    pub dry_run: bool,
    /// Select only what was modified more than this many days ago.
    pub max_age_days: Option<u64>,
    /// Leave alone what was modified within this many days.
    pub keep_recent_days: Option<u64>,
}

/// What is to be done with a selected entry.
#[derive(Clone, Copy, Debug, PartialEq, Eq, Structural)]
pub enum CleanAction {
    /// Dry run: say that the entry would be deleted.
    WouldDelete { bytes: u64 },
    /// Delete the entry.
    Delete { bytes: u64 },
}

/// Whether a run with this policy selects an entry at the time `now`: a
/// pattern matches its path and the age filter lets it through.
pub open spec fn selected(
    policy: CleanPolicy,
    matched: bool,
    modified: Modified,
    now: Timestamp,
) -> bool {
    matched && age_allows(modified, now, policy.max_age_days, policy.keep_recent_days)
}

/// What a run with this policy does with a selected entry of this size.
pub open spec fn action_for(policy: CleanPolicy, bytes: u64) -> CleanAction {
    if policy.dry_run {
        CleanAction::WouldDelete { bytes }
    } else {
        CleanAction::Delete { bytes }
    }
}

/// A dry run asks for no deletion.
pub proof fn lemma_dry_run_deletes_nothing(policy: CleanPolicy, bytes: u64)
    requires
        policy.dry_run,
    ensures
        !(action_for(policy, bytes) is Delete),
{
}

/// A cleaning run in progress.
pub struct CleanRun {
    policy: CleanPolicy,
    bytes: u64,
    items: usize,
    log: Ghost<Seq<MatchView>>,
}

impl View for CleanRun {
    type V = Seq<MatchView>;

    /// The entries handled so far, each with its size.
    closed spec fn view(&self) -> Seq<MatchView> {
        self.log@
    }
}

impl CleanRun {
    /// The options of the run.
    pub closed spec fn policy(&self) -> CleanPolicy {
        self.policy
    }

    /// The counters hold what the handled entries add up to.
    pub closed spec fn wf(&self) -> bool {
        &&& self.bytes == saturate(total_of(self.log@) as int)
        &&& self.items == self.log@.len()
    }

    /// A run that has handled nothing yet.
    pub fn new(policy: CleanPolicy) -> (run: CleanRun)
        ensures
            run.wf(),
            run.policy() == policy,
            run@ == Seq::<MatchView>::empty(),
    {
        CleanRun { policy, bytes: 0, items: 0, log: Ghost(Seq::empty()) }
    }

    /// Whether the run only reports.
    pub fn dry_run(&self) -> (dry: bool)
        ensures
            dry == self.policy().dry_run,
    {
        self.policy.dry_run
    }

    /// The sizes of the handled entries, added up and capped at the maximum.
    pub fn bytes(&self) -> (bytes: u64)
        requires
            self.wf(),
        ensures
            bytes == saturate(total_of(self@) as int),
    {
        self.bytes
    }

    /// How many entries were handled.
    pub fn items(&self) -> (items: usize)
        requires
            self.wf(),
        ensures
            items == self@.len(),
    {
        self.items
    }

    /// Whether the run selects an entry at the time `now`.
    pub fn selects_at(
        &self,
        matcher: &CompiledMatcher,
        rel: &str,
        modified: &Modified,
        now: &Timestamp,
    ) -> (chosen: bool)
        ensures
            chosen == selected(
                self.policy(),
                set_matches(matcher@, rel@),
                *modified,
                *now,
            ),
    {
        matcher.is_match(rel) && passes_age_filters_at(
            modified,
            now,
            self.policy.max_age_days,
            self.policy.keep_recent_days,
        )
    }

    /// Whether the run selects an entry at the present time, which is read
    /// from the system clock when a pattern matches the path.
    pub fn selects(&self, matcher: &CompiledMatcher, rel: &str, modified: &Modified) -> (chosen: bool)
        ensures
            exists|now: Timestamp| chosen == #[trigger] selected(
                self.policy(),
                set_matches(matcher@, rel@),
                *modified,
                now,
            ),
            !set_matches(matcher@, rel@) ==> !chosen,
            *modified == Modified::Unreadable ==> !chosen,
    {
        if !matcher.is_match(rel) {
            let ghost any = Timestamp { secs: 0, nanos: 0 };
            assert(!selected(
                self.policy(),
                set_matches(matcher@, rel@),
                *modified,
                any,
            ));
            return false;
        }
        let now = clock_now();
        self.selects_at(matcher, rel, modified, &now)
    }

    /// Handles a selected entry: counts it with its size and says what is to
    /// be done with it. `contents` is what a walk beneath the entry yields;
    /// it is not read for a file.
    pub fn handle(&mut self, rel: &str, meta: &EntryMeta, contents: &Vec<Option<EntryMeta>>) -> (action:
        CleanAction)
        requires
            old(self).wf(),
            old(self)@.len() < usize::MAX,
        ensures
            final(self).wf(),
            final(self).policy() == old(self).policy(),
            final(self)@ == old(self)@.push(
                MatchView { path: rel@, bytes: entry_size(*meta, contents@) },
            ),
            action == action_for(old(self).policy(), entry_size(*meta, contents@)),
            old(self).policy().dry_run ==> !(action is Delete),
    {
        let bytes = size_hint(meta, contents);
        proof {
            lemma_total_push(self.log@, MatchView { path: rel@, bytes });
        }
        self.bytes = self.bytes.saturating_add(bytes);
        self.items = self.items + 1;
        self.log = Ghost(self.log@.push(MatchView { path: rel@, bytes }));
        if self.policy.dry_run {
            CleanAction::WouldDelete { bytes }
        } else {
            CleanAction::Delete { bytes }
        }
    }
}

/// Whether sizing an entry takes a walk beneath it.
pub fn needs_walk(meta: &EntryMeta) -> (walk: bool)
    ensures
        walk == (meta.kind != EntryKind::File),
        !walk ==> forall|one: Seq<Option<EntryMeta>>, other: Seq<Option<EntryMeta>>|
            entry_size(*meta, one) == entry_size(*meta, other),
{
    meta.kind != EntryKind::File
}

} // verus!
