use devspace_sweeper::aggregate::RuleAggregate;
use devspace_sweeper::matcher::CompiledMatcher;
use devspace_sweeper::recipes::{RecipeFile, Rule};
use devspace_sweeper::render::render_scan;
use devspace_sweeper::scan::{scan_dir, Observation, Scan};
use devspace_sweeper::size::{EntryKind, EntryMeta};

fn matcher(globs: &[&str]) -> CompiledMatcher {
    let rule = Rule {
        name: "junk".to_string(),
        description: Some("what can be rebuilt".to_string()),
        globs: globs.iter().map(|g| g.to_string()).collect(),
        safe_delete: true,
        max_age_days: None,
    };
    RecipeFile { rules: vec![rule] }.compile_globset().unwrap()
}

fn default_matcher() -> CompiledMatcher {
    matcher(&["**/node_modules", "**/target", "**/__pycache__", "**/dist"])
}

fn file(len: u64) -> Option<EntryMeta> {
    Some(EntryMeta { kind: EntryKind::File, len })
}

fn dir() -> Option<EntryMeta> {
    Some(EntryMeta { kind: EntryKind::Directory, len: 4096 })
}

fn seen(rel: &str, stat: Option<EntryMeta>, contents: Vec<Option<EntryMeta>>) -> Observation {
    Observation { rel: rel.to_string(), abs: format!("/tmp/fixture/{}", rel), stat, contents }
}

/// The tree `proj/node_modules/pkg/index.js`, `proj/target/debug/app`,
/// `proj/__pycache__/a.pyc`, as a walk finds it.
fn fixture() -> Vec<Observation> {
    vec![
        seen("", dir(), vec![]),
        seen("proj", dir(), vec![]),
        seen("proj/__pycache__", dir(), vec![dir(), file(3)]),
        seen("proj/__pycache__/a.pyc", file(3), vec![]),
        seen("proj/node_modules", dir(), vec![dir(), dir(), file(18)]),
        seen("proj/node_modules/pkg", dir(), vec![]),
        seen("proj/node_modules/pkg/index.js", file(18), vec![]),
        seen("proj/target", dir(), vec![dir(), dir(), file(3)]),
        seen("proj/target/debug", dir(), vec![]),
        seen("proj/target/debug/app", file(3), vec![]),
    ]
}

fn keys(groups: &Vec<(String, RuleAggregate)>) -> Vec<&str> {
    groups.iter().map(|g| g.0.as_str()).collect()
}

#[test]
fn scan_should_list_groups() {
    let (groups, total) = scan_dir(&default_matcher(), &fixture());
    let stdout = render_scan("/tmp/fixture", &groups, total).join("\n");
    assert!(stdout.contains("node_modules"));
    assert!(stdout.contains("target"));
    assert!(stdout.contains("__pycache__"));
}

#[test]
fn scan_of_the_fixture_yields_three_groups() {
    let (groups, total) = scan_dir(&default_matcher(), &fixture());
    assert_eq!(keys(&groups), vec!["__pycache__", "node_modules", "target"]);
    assert_eq!(groups[0].1.total_bytes, 3);
    assert_eq!(groups[1].1.total_bytes, 18);
    assert_eq!(groups[2].1.total_bytes, 3);
    for g in groups.iter() {
        assert_eq!(g.1.count, 1);
    }
    assert_eq!(groups[1].1.examples, vec!["proj/node_modules".to_string()]);
    assert_eq!(total, 24);
}

#[test]
fn scanning_twice_gives_the_same_result() {
    let set = default_matcher();
    let (first, first_total) = scan_dir(&set, &fixture());
    let (second, second_total) = scan_dir(&default_matcher(), &fixture());
    assert_eq!(first_total, second_total);
    assert_eq!(first.len(), second.len());
    for (a, b) in first.iter().zip(second.iter()) {
        assert_eq!(a.0, b.0);
        assert_eq!(a.1.total_bytes, b.1.total_bytes);
        assert_eq!(a.1.count, b.1.count);
        assert_eq!(a.1.examples, b.1.examples);
    }
}

#[test]
fn group_totals_add_up_to_the_scan_total() {
    let set = matcher(&["**/target", "*.log", "**/dist"]);
    let walk = vec![
        seen("a/target", dir(), vec![file(10), file(20)]),
        seen("debug.log", file(5), vec![]),
        seen("b/dist", dir(), vec![file(7)]),
        seen("b/target", dir(), vec![file(1)]),
        seen("b/src", dir(), vec![file(1000)]),
    ];
    let (groups, total) = scan_dir(&set, &walk);
    let sum: u64 = groups.iter().map(|g| g.1.total_bytes).sum();
    assert_eq!(total, 43);
    assert_eq!(sum, total);
    assert_eq!(keys(&groups), vec!["debug.log", "dist", "target"]);
    assert_eq!(groups[2].1.count, 2);
    assert_eq!(groups[2].1.total_bytes, 31);
}

#[test]
fn a_directory_seen_again_is_not_counted_again() {
    let set = default_matcher();
    let mut scan = Scan::new();
    let contents = vec![file(10)];
    assert!(scan.wants_contents(&set, "a/target", "/r/a/target", &dir()));
    assert!(scan.observe(&set, "a/target", "/r/a/target", &dir(), &contents));
    assert!(!scan.wants_contents(&set, "a/target", "/r/a/target", &dir()));
    assert!(!scan.observe(&set, "a/target", "/r/a/target", &dir(), &contents));
    assert!(!scan.observe(&set, "link/target", "/r/a/target", &dir(), &contents));
    assert_eq!(scan.counted(), 1);
    assert_eq!(scan.total_bytes(), 10);
    assert_eq!(scan.groups()[0].1.count, 1);
    // another directory of the same name is another entry
    assert!(scan.observe(&set, "b/target", "/r/b/target", &dir(), &contents));
    assert_eq!(scan.counted(), 2);
    assert_eq!(scan.total_bytes(), 20);
}

#[test]
fn a_match_beneath_a_counted_directory_is_not_counted_again() {
    let set = default_matcher();
    let walk = vec![
        seen("a/node_modules", dir(), vec![file(5), file(7)]),
        seen("a/node_modules/b/node_modules", dir(), vec![file(7)]),
    ];
    let (groups, total) = scan_dir(&set, &walk);
    assert_eq!(groups.len(), 1);
    assert_eq!(groups[0].1.count, 1);
    assert_eq!(groups[0].1.total_bytes, 12);
    assert_eq!(groups[0].1.examples, vec!["a/node_modules".to_string()]);
    assert_eq!(total, 12);
}

#[test]
fn nested_directories_of_one_name_give_one_group_without_double_count() {
    // a/node_modules/g.js (5 bytes) and a/node_modules/x/node_modules/f.js (10 bytes)
    let set = matcher(&["**/node_modules"]);
    let walk = vec![
        seen("", dir(), vec![]),
        seen("a", dir(), vec![]),
        seen("a/node_modules", dir(), vec![dir(), file(5), dir(), dir(), file(10)]),
        seen("a/node_modules/g.js", file(5), vec![]),
        seen("a/node_modules/x", dir(), vec![]),
        seen("a/node_modules/x/node_modules", dir(), vec![dir(), file(10)]),
        seen("a/node_modules/x/node_modules/f.js", file(10), vec![]),
    ];
    let (groups, total) = scan_dir(&set, &walk);
    assert_eq!(total, 15);
    assert_eq!(groups.len(), 1);
    assert_eq!(groups[0].0, "node_modules");
    assert_eq!(groups[0].1.total_bytes, 15);
    assert_eq!(groups[0].1.count, 1);
}

#[test]
fn matched_files_beneath_a_counted_directory_are_passed_over() {
    let set = matcher(&["**/target", "*.log"]);
    let mut scan = Scan::new();
    assert!(scan.observe(&set, "a/target", "/r/a/target", &dir(), &vec![file(4), file(6)]));
    // the log file lies in the directory that was just sized
    assert!(!scan.observe(&set, "a/target/build.log", "/r/a/target/build.log", &file(6), &vec![]));
    assert!(!scan.wants_contents(&set, "a/target/x/target", "/r/a/target/x/target", &dir()));
    assert!(!scan.observe(&set, "a/target/x/target", "/r/a/target/x/target", &dir(), &vec![file(1)]));
    // a path that only starts with the same text lies beside it, not beneath
    assert!(scan.observe(&set, "a/target2.log", "/r/a/target2.log", &file(3), &vec![]));
    assert!(scan.observe(&set, "b.log", "/r/b.log", &file(2), &vec![]));
    assert_eq!(scan.counted(), 3);
    assert_eq!(scan.total_bytes(), 15);
}

#[test]
fn what_is_passed_over() {
    let set = matcher(&["**"]);
    let mut scan = Scan::new();
    // the root itself
    assert!(!scan.observe(&set, "", "/r", &dir(), &vec![file(1)]));
    // unreadable metadata
    assert!(!scan.observe(&set, "a", "/r/a", &None, &vec![]));
    assert_eq!(scan.counted(), 0);
    // no pattern matches
    let none = matcher(&["*.tmp"]);
    assert!(!scan.observe(&none, "a/target", "/r/a/target", &dir(), &vec![file(1)]));
    assert!(!scan.wants_contents(&none, "a/target", "/r/a/target", &dir()));
    assert_eq!(scan.counted(), 0);
    assert_eq!(scan.total_bytes(), 0);
    assert!(scan.groups().is_empty());
}

#[test]
fn files_and_other_entries_count_without_a_walk() {
    let set = matcher(&["**"]);
    let mut scan = Scan::new();
    assert!(!scan.wants_contents(&set, "a.log", "/r/a.log", &file(9)));
    assert!(scan.observe(&set, "a.log", "/r/a.log", &file(9), &vec![file(1000)]));
    let link = Some(EntryMeta { kind: EntryKind::Other, len: 33 });
    assert!(!scan.wants_contents(&set, "link", "/r/link", &link));
    assert!(scan.observe(&set, "link", "/r/link", &link, &vec![file(1000)]));
    // a file is counted each time it comes up
    assert!(scan.observe(&set, "a.log", "/r/a.log", &file(9), &vec![]));
    let (groups, total) = scan.finish();
    assert_eq!(total, 18);
    assert_eq!(keys(&groups), vec!["a.log", "link"]);
    assert_eq!(groups[0].1.count, 2);
    assert_eq!(groups[1].1.total_bytes, 0);
    assert_eq!(groups[1].1.count, 1);
}

#[test]
fn scan_totals_stay_at_the_maximum() {
    let set = default_matcher();
    let walk = vec![
        seen("a/target", dir(), vec![file(u64::MAX), file(1)]),
        seen("b/target", dir(), vec![file(1)]),
        seen("c/dist", dir(), vec![file(2)]),
    ];
    let (groups, total) = scan_dir(&set, &walk);
    assert_eq!(total, u64::MAX);
    assert_eq!(groups[0].1.total_bytes, 2);
    assert_eq!(groups[1].1.total_bytes, u64::MAX);
}

#[test]
fn an_empty_matcher_counts_nothing() {
    let set = matcher(&[]);
    let (groups, total) = scan_dir(&set, &fixture());
    assert!(groups.is_empty());
    assert_eq!(total, 0);
}
