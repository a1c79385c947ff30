//! The age filter: which entries are old enough to be touched, and which
//! are protected because they changed recently.

use vstd::prelude::*;

verus! {

/// A point in time: seconds and nanoseconds since the Unix epoch (UTC).
#[derive(Clone, Copy, Debug, PartialEq, Eq, Structural)]
pub struct Timestamp {
    pub secs: i64,
    pub nanos: u32,
}

/// What is known of the time an entry was last modified.
#[derive(Clone, Copy, Debug, PartialEq, Eq, Structural)]
pub enum Modified {
    /// The metadata of the entry could not be read at all.
    Unreadable,
    /// The metadata was read, but it holds no modification time.
    Unknown,
    /// The entry was last modified at this time.
    At(Timestamp),
}

pub const NANOS_PER_SEC: i128 = 1_000_000_000;

pub const NANOS_PER_DAY: i128 = 86_400_000_000_000;

/// Nanoseconds from the epoch to `t`.
pub open spec fn nanos_of(t: Timestamp) -> int {
    t.secs * NANOS_PER_SEC + t.nanos
}

/// The age at `now` of something modified at `modified`, in nanoseconds. It
/// is negative for a modification time in the future.
pub open spec fn age_nanos(now: Timestamp, modified: Timestamp) -> int {
    nanos_of(now) - nanos_of(modified)
}

/// The length of a number of days, in nanoseconds.
pub open spec fn days_nanos(days: u64) -> int {
    days * NANOS_PER_DAY
}

/// Whether an item of this age is protected as recently modified.
pub open spec fn protected_as_recent(age: int, keep_recent_days: Option<u64>) -> bool {
    match keep_recent_days {
        Some(days) => age < days_nanos(days),
        None => false,
    }
}

/// Whether an item of this age is over the age limit, if there is one.
pub open spec fn over_age_limit(age: int, max_age_days: Option<u64>) -> bool {
    match max_age_days {
        Some(days) => age > days_nanos(days),
        None => true,
    }
}

/// Whether the age filter lets an entry through. An entry whose metadata
/// is unreadable never passes; one without a modification time always does.
pub open spec fn age_allows(
    modified: Modified,
    now: Timestamp,
    max_age_days: Option<u64>,
    keep_recent_days: Option<u64>,
) -> bool {
    match modified {
        Modified::Unreadable => false,
        Modified::Unknown => true,
        Modified::At(at) => {
            let age = age_nanos(now, at);
            !protected_as_recent(age, keep_recent_days) && over_age_limit(age, max_age_days)
        },
    }
}

/// An item newer than `keep_recent_days` is excluded whatever `max_age_days`
/// says.
pub proof fn lemma_recent_protection_wins(
    modified: Timestamp,
    now: Timestamp,
    max_age_days: Option<u64>,
    keep_recent_days: u64,
)
    requires
        age_nanos(now, modified) < days_nanos(keep_recent_days),
    ensures
        !age_allows(Modified::At(modified), now, max_age_days, Some(keep_recent_days)),
{
}

/// Without thresholds every entry with readable metadata passes.
pub proof fn lemma_no_threshold_admits(modified: Modified, now: Timestamp)
    requires
        modified != Modified::Unreadable,
    ensures
        age_allows(modified, now, None, None),
{
}

fn nanos_since_epoch(t: &Timestamp) -> (n: i128)
    ensures
        n == nanos_of(*t),
{
    (t.secs as i128) * NANOS_PER_SEC + (t.nanos as i128)
}

fn nanos_in_days(days: u64) -> (n: i128)
    ensures
        n == days_nanos(days),
{
    (days as i128) * NANOS_PER_DAY
}

/// Decides whether the age filter lets an entry through at the time `now`.
pub fn passes_age_filters_at(
    modified: &Modified,
    now: &Timestamp,
    max_age_days: Option<u64>,
    keep_recent_days: Option<u64>,
) -> (pass: bool)
    ensures
        pass == age_allows(*modified, *now, max_age_days, keep_recent_days),
{
    match modified {
        Modified::Unreadable => false,
        Modified::Unknown => true,
        Modified::At(at) => {
            let age: i128 = nanos_since_epoch(now) - nanos_since_epoch(at);
            if let Some(days) = keep_recent_days {
                if age < nanos_in_days(days) {
                    return false;
                }
            }
            if let Some(days) = max_age_days {
                age > nanos_in_days(days)
            } else {
                true
            }
        },
    }
}

/// `chrono::Utc::now`: reads the system clock. Nothing is claimed of the time
/// that comes back. The call panics if the clock stands before 1970.
#[verifier::external_body]
pub(crate) fn clock_now() -> (now: Timestamp) {
    let now = chrono::Utc::now();
    Timestamp { secs: now.timestamp(), nanos: now.timestamp_subsec_nanos() }
}

/// Decides whether the age filter lets an entry through at the present
/// time, which is read from the system clock.
pub fn passes_age_filters(
    modified: &Modified,
    max_age_days: Option<u64>,
    keep_recent_days: Option<u64>,
) -> (pass: bool)
    ensures
        exists|now: Timestamp| pass == #[trigger] age_allows(
            *modified,
            now,
            max_age_days,
            keep_recent_days,
        ),
        *modified == Modified::Unreadable ==> !pass,
        *modified == Modified::Unknown ==> pass,
        max_age_days is None && keep_recent_days is None && *modified != Modified::Unreadable
            ==> pass,
{
    let now = clock_now();
    passes_age_filters_at(modified, &now, max_age_days, keep_recent_days)
}

} // verus!
