use devspace_sweeper::age::{passes_age_filters, passes_age_filters_at, Modified, Timestamp};

const DAY: i64 = 86_400;

fn at(secs: i64) -> Timestamp {
    Timestamp { secs, nanos: 0 }
}

#[test]
fn without_thresholds_everything_readable_passes() {
    let now = at(100 * DAY);
    assert!(passes_age_filters_at(&Modified::At(at(99 * DAY)), &now, None, None));
    assert!(passes_age_filters_at(&Modified::At(at(200 * DAY)), &now, None, None));
    assert!(passes_age_filters_at(&Modified::Unknown, &now, None, None));
}

#[test]
fn unreadable_metadata_never_passes() {
    let now = at(100 * DAY);
    assert!(!passes_age_filters_at(&Modified::Unreadable, &now, None, None));
    assert!(!passes_age_filters_at(&Modified::Unreadable, &now, Some(0), Some(0)));
}

#[test]
fn unknown_time_always_passes() {
    let now = at(100 * DAY);
    assert!(passes_age_filters_at(&Modified::Unknown, &now, Some(1000), Some(1000)));
}

#[test]
fn max_age_admits_only_what_is_strictly_older() {
    let now = at(100 * DAY);
    assert!(passes_age_filters_at(&Modified::At(at(89 * DAY)), &now, Some(10), None));
    assert!(!passes_age_filters_at(&Modified::At(at(90 * DAY)), &now, Some(10), None));
    assert!(!passes_age_filters_at(&Modified::At(at(95 * DAY)), &now, Some(10), None));
    let just_over = Timestamp { secs: 90 * DAY - 1, nanos: 999_999_999 };
    assert!(passes_age_filters_at(&Modified::At(just_over), &now, Some(10), None));
}

#[test]
fn keep_recent_excludes_what_is_strictly_newer() {
    let now = at(100 * DAY);
    assert!(!passes_age_filters_at(&Modified::At(at(98 * DAY)), &now, None, Some(3)));
    assert!(passes_age_filters_at(&Modified::At(at(97 * DAY)), &now, None, Some(3)));
    assert!(passes_age_filters_at(&Modified::At(at(50 * DAY)), &now, None, Some(3)));
    let now_later = Timestamp { secs: 100 * DAY, nanos: 1 };
    assert!(passes_age_filters_at(&Modified::At(at(97 * DAY)), &now_later, None, Some(3)));
    let a_bit_newer = Timestamp { secs: 97 * DAY, nanos: 1 };
    assert!(!passes_age_filters_at(&Modified::At(a_bit_newer), &now, None, Some(3)));
}

#[test]
fn keep_recent_wins_over_max_age() {
    let now = at(100 * DAY);
    // 20 days old: over the age limit of 10 days, yet within the 30 days that are kept.
    assert!(!passes_age_filters_at(&Modified::At(at(80 * DAY)), &now, Some(10), Some(30)));
    // 40 days old: neither recent nor young.
    assert!(passes_age_filters_at(&Modified::At(at(60 * DAY)), &now, Some(10), Some(30)));
    // 5 days old: recent and young.
    assert!(!passes_age_filters_at(&Modified::At(at(95 * DAY)), &now, Some(10), Some(6)));
    // 5 days old, not recent, but not over the limit either.
    assert!(!passes_age_filters_at(&Modified::At(at(95 * DAY)), &now, Some(10), Some(1)));
}

#[test]
fn future_modification_times_are_recent() {
    let now = at(100 * DAY);
    assert!(!passes_age_filters_at(&Modified::At(at(101 * DAY)), &now, None, Some(0)));
    assert!(passes_age_filters_at(&Modified::At(at(100 * DAY)), &now, None, Some(0)));
    assert!(!passes_age_filters_at(&Modified::At(at(101 * DAY)), &now, Some(0), None));
}

#[test]
fn extreme_values_are_decided_without_overflow() {
    let far_past = Timestamp { secs: i64::MIN, nanos: 0 };
    let far_future = Timestamp { secs: i64::MAX, nanos: 999_999_999 };
    assert!(passes_age_filters_at(&Modified::At(far_past), &far_future, Some(1), Some(1)));
    assert!(!passes_age_filters_at(&Modified::At(far_past), &far_future, Some(u64::MAX), None));
    assert!(!passes_age_filters_at(&Modified::At(far_past), &far_future, None, Some(u64::MAX)));
    assert!(!passes_age_filters_at(&Modified::At(far_future), &far_past, Some(0), None));
}

#[test]
fn the_clock_is_read_for_the_present_time() {
    assert!(!passes_age_filters(&Modified::Unreadable, None, None));
    assert!(passes_age_filters(&Modified::Unknown, Some(5), Some(5)));
    // Modified at the epoch: older than a day, and not within the last day.
    assert!(passes_age_filters(&Modified::At(at(0)), Some(1), Some(1)));
    // Nothing that exists is older than an age limit beyond all time.
    assert!(!passes_age_filters(&Modified::At(at(0)), Some(u64::MAX), None));
    // Modified far in the future: protected as recent.
    assert!(!passes_age_filters(&Modified::At(at(i64::MAX / 4)), None, Some(1)));
}
