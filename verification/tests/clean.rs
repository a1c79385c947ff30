use devspace_sweeper::age::{Modified, Timestamp};
use devspace_sweeper::clean::{needs_walk, CleanAction, CleanPolicy, CleanRun};
use devspace_sweeper::matcher::CompiledMatcher;
use devspace_sweeper::recipes::{RecipeFile, Rule};
use devspace_sweeper::size::{EntryKind, EntryMeta};

const DAY: i64 = 86_400;

fn matcher() -> CompiledMatcher {
    let rule = Rule {
        name: "junk".to_string(),
        description: None,
        globs: vec!["**/node_modules".to_string(), "**/target".to_string()],
        safe_delete: true,
        max_age_days: None,
    };
    RecipeFile { rules: vec![rule] }.compile_globset().unwrap()
}

fn policy(dry_run: bool, max_age_days: Option<u64>, keep_recent_days: Option<u64>) -> CleanPolicy {
    CleanPolicy { dry_run, max_age_days, keep_recent_days }
}

fn at(secs: i64) -> Timestamp {
    Timestamp { secs, nanos: 0 }
}

fn file(len: u64) -> EntryMeta {
    EntryMeta { kind: EntryKind::File, len }
}

fn dir() -> EntryMeta {
    EntryMeta { kind: EntryKind::Directory, len: 4096 }
}

#[test]
fn a_dry_run_asks_for_no_deletion() {
    let mut run = CleanRun::new(policy(true, None, None));
    assert!(run.dry_run());
    let first = run.handle("a/target", &dir(), &vec![Some(file(10)), Some(file(5))]);
    let second = run.handle("b/node_modules", &dir(), &vec![None, Some(file(7))]);
    assert_eq!(first, CleanAction::WouldDelete { bytes: 15 });
    assert_eq!(second, CleanAction::WouldDelete { bytes: 7 });
    assert_eq!(run.bytes(), 22);
    assert_eq!(run.items(), 2);
}

#[test]
fn a_real_run_asks_for_deletion() {
    let mut run = CleanRun::new(policy(false, None, None));
    assert!(!run.dry_run());
    assert_eq!(run.handle("a/target", &file(9), &vec![Some(file(100))]), CleanAction::Delete { bytes: 9 });
    assert_eq!(run.bytes(), 9);
    assert_eq!(run.items(), 1);
}

#[test]
fn a_new_run_has_handled_nothing() {
    let run = CleanRun::new(policy(false, Some(1), Some(2)));
    assert_eq!(run.bytes(), 0);
    assert_eq!(run.items(), 0);
}

#[test]
fn reclaimed_bytes_stay_at_the_maximum() {
    let mut run = CleanRun::new(policy(true, None, None));
    run.handle("a/target", &file(u64::MAX - 2), &vec![]);
    run.handle("b/target", &file(10), &vec![]);
    assert_eq!(run.bytes(), u64::MAX);
    assert_eq!(run.items(), 2);
}

#[test]
fn only_matched_entries_are_selected() {
    let set = matcher();
    let run = CleanRun::new(policy(true, None, None));
    let now = at(100 * DAY);
    let modified = Modified::At(at(10 * DAY));
    assert!(run.selects_at(&set, "a/target", &modified, &now));
    assert!(run.selects_at(&set, "node_modules", &modified, &now));
    assert!(!run.selects_at(&set, "a/src", &modified, &now));
    assert!(!run.selects_at(&set, "", &modified, &now));
}

#[test]
fn the_age_filter_narrows_the_selection() {
    let set = matcher();
    let now = at(100 * DAY);
    let run = CleanRun::new(policy(false, Some(30), Some(7)));
    assert!(run.selects_at(&set, "a/target", &Modified::At(at(10 * DAY)), &now));
    assert!(!run.selects_at(&set, "a/target", &Modified::At(at(80 * DAY)), &now));
    assert!(!run.selects_at(&set, "a/target", &Modified::At(at(99 * DAY)), &now));
    assert!(!run.selects_at(&set, "a/target", &Modified::Unreadable, &now));
    assert!(run.selects_at(&set, "a/target", &Modified::Unknown, &now));
    // recent protection wins even where the entry is over the age limit
    let odd = CleanRun::new(policy(false, Some(5), Some(50)));
    assert!(!odd.selects_at(&set, "a/target", &Modified::At(at(80 * DAY)), &now));
}

#[test]
fn selection_at_the_present_time() {
    let set = matcher();
    let run = CleanRun::new(policy(false, Some(1), None));
    assert!(run.selects(&set, "a/target", &Modified::At(at(0))));
    assert!(!run.selects(&set, "a/src", &Modified::At(at(0))));
    assert!(!run.selects(&set, "a/target", &Modified::Unreadable));
    assert!(!run.selects(&set, "a/target", &Modified::At(at(i64::MAX / 4))));
}

#[test]
fn only_files_are_sized_without_a_walk() {
    assert!(!needs_walk(&file(3)));
    assert!(needs_walk(&dir()));
    assert!(needs_walk(&EntryMeta { kind: EntryKind::Other, len: 1 }));
}
