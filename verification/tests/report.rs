use devspace_sweeper::matcher::CompiledMatcher;
use devspace_sweeper::recipes::{RecipeFile, Rule};
use devspace_sweeper::report::{collect_findings, report_output, size_for_report, Listed};
use devspace_sweeper::size::{EntryKind, EntryMeta};

fn matcher() -> CompiledMatcher {
    let rule = Rule {
        name: "junk".to_string(),
        description: None,
        globs: vec!["**/target".to_string(), "*.log".to_string()],
        safe_delete: true,
        max_age_days: None,
    };
    RecipeFile { rules: vec![rule] }.compile_globset().unwrap()
}

fn listed(rel: &str, stat: Option<EntryMeta>) -> Listed {
    Listed { rel: rel.to_string(), stat }
}

fn file(len: u64) -> Option<EntryMeta> {
    Some(EntryMeta { kind: EntryKind::File, len })
}

fn dir() -> Option<EntryMeta> {
    Some(EntryMeta { kind: EntryKind::Directory, len: 4096 })
}

#[test]
fn a_report_lists_every_matched_entry() {
    let walk = vec![
        listed("", dir()),
        listed("a", dir()),
        listed("a/target", dir()),
        listed("a/build.log", file(120)),
        listed("a/src.rs", file(999)),
        listed("b.log", None),
        listed("c.log", file(30)),
    ];
    let report = collect_findings(&matcher(), &walk);
    let found: Vec<(&str, u64)> = report.matches.iter().map(|m| (m.path.as_str(), m.bytes)).collect();
    assert_eq!(found, vec![("a/target", 0), ("a/build.log", 120), ("b.log", 0), ("c.log", 30)]);
    assert_eq!(report.total, 150);
}

#[test]
fn a_report_of_nothing_is_empty() {
    let report = collect_findings(&matcher(), &vec![listed("src", dir())]);
    assert!(report.matches.is_empty());
    assert_eq!(report.total, 0);
}

#[test]
fn the_report_total_stays_at_the_maximum() {
    let walk = vec![listed("a.log", file(u64::MAX)), listed("b.log", file(1))];
    let report = collect_findings(&matcher(), &walk);
    assert_eq!(report.total, u64::MAX);
    assert_eq!(report.matches.len(), 2);
}

#[test]
fn only_files_have_a_reported_size() {
    assert_eq!(size_for_report(&file(12)), 12);
    assert_eq!(size_for_report(&dir()), 0);
    assert_eq!(size_for_report(&Some(EntryMeta { kind: EntryKind::Other, len: 5 })), 0);
    assert_eq!(size_for_report(&None), 0);
}

#[test]
fn the_report_goes_to_report_md_by_default() {
    assert_eq!(report_output(None), "report.md");
    assert_eq!(report_output(Some("out/r.md".to_string())), "out/r.md");
}
