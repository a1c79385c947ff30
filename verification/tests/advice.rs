use devspace_sweeper::advice::{
    gen_ignore, hint_candidates, plan_gen_ignore, rank_groups, render_block, suggest,
    suggestions, top_hints, unique_hints, IgnoreAction, TOP_HINTS,
};
use devspace_sweeper::aggregate::RuleAggregate;
use devspace_sweeper::render::{render_gen_ignore, render_suggest};

fn group(key: &str, total_bytes: u64, count: usize) -> (String, RuleAggregate) {
    (key.to_string(), RuleAggregate { total_bytes, count, examples: vec![format!("proj/{}", key)] })
}

/// The groups that a scan of the tree `proj/node_modules/pkg/index.js`
/// (18 bytes), `proj/target/debug/app` (3 bytes), `proj/__pycache__/a.pyc`
/// (3 bytes) ends with.
fn fixture_groups() -> Vec<(String, RuleAggregate)> {
    vec![group("__pycache__", 3, 1), group("node_modules", 18, 1), group("target", 3, 1)]
}

fn strings(list: &[&str]) -> Vec<String> {
    list.iter().map(|s| s.to_string()).collect()
}

#[test]
fn suggest_should_print_hints_and_safety() {
    let advice = suggest(&fixture_groups());
    let stdout = render_suggest("/tmp/fixture", &advice.suggestions, &advice.hints).join("\n");
    assert!(stdout.contains("safety:"));
    assert!(stdout.contains(".gitignore hints"));
}

#[test]
fn gen_ignore_dry_run_should_output_patterns() {
    let action = gen_ignore(&fixture_groups(), true, false);
    let stdout = render_gen_ignore(&action, "/tmp/fixture/.gitignore").join("\n");
    assert!(stdout.contains("node_modules/"));
    assert!(stdout.contains("target/"));
    assert!(stdout.contains("**/__pycache__/"));
}

#[test]
fn groups_are_ranked_by_size() {
    let groups = fixture_groups();
    assert_eq!(rank_groups(&groups), vec![1, 0, 2]);
    let advice = suggest(&groups);
    assert_eq!(advice.order, vec![1, 0, 2]);
    let names: Vec<&str> = advice.suggestions.iter().map(|s| s.group.as_str()).collect();
    assert_eq!(names, vec!["node_modules", "__pycache__", "target"]);
}

#[test]
fn suggestions_of_the_fixture_are_safe_to_delete() {
    let advice = suggest(&fixture_groups());
    for s in advice.suggestions.iter() {
        assert_eq!(s.safety, 95);
        assert_eq!(s.count, 1);
    }
    assert_eq!(advice.suggestions[0].total_bytes, 18);
    let hints: Vec<&str> = advice.hints.iter().map(|h| h.0.as_str()).collect();
    assert_eq!(hints, vec!["node_modules/", "**/__pycache__/", "target/"]);
    assert!(advice.hints.iter().all(|h| h.1 == 1));
}

#[test]
fn suggestions_carry_the_score_of_their_group() {
    let groups = vec![group(".venv", 500, 2), group("coverage", 400, 1), group("misc", 900, 4)];
    let order = rank_groups(&groups);
    let list = suggestions(&groups, &order);
    let seen: Vec<(&str, u64, usize, u8)> =
        list.iter().map(|s| (s.group.as_str(), s.total_bytes, s.count, s.safety)).collect();
    assert_eq!(seen, vec![("misc", 900, 4, 70), (".venv", 500, 2, 50), ("coverage", 400, 1, 90)]);
    assert_eq!(hint_candidates(&groups, &order), strings(&["coverage/"]));
}

#[test]
fn a_suggestion_shows_eight_hints_at_most() {
    let names = [
        "node_modules", "dist", "build", "__pycache__", ".pytest_cache", "target", "DerivedData",
        "coverage", ".nyc_output", ".parcel-cache", ".vite", ".next", ".nuxt",
    ];
    let mut groups: Vec<(String, RuleAggregate)> = names.iter().map(|n| group(n, 1, 1)).collect();
    groups.sort_by(|a, b| a.0.cmp(&b.0));
    let advice = suggest(&groups);
    assert_eq!(advice.suggestions.len(), 13);
    assert_eq!(advice.hints.len(), TOP_HINTS);
    let hints: Vec<&str> = advice.hints.iter().map(|h| h.0.as_str()).collect();
    assert_eq!(
        hints,
        vec![
            ".next/", ".nuxt/", ".nyc_output/", ".parcel-cache/", ".pytest_cache/", ".vite/",
            "DerivedData/", "**/__pycache__/"
        ]
    );
}

#[test]
fn top_hints_rank_by_frequency() {
    let shown = top_hints(&strings(&["a/", "b/", "c/", "b/", "c/", "c/"]));
    assert_eq!(
        shown,
        vec![("c/".to_string(), 3), ("b/".to_string(), 2), ("a/".to_string(), 1)]
    );
    assert_eq!(top_hints(&vec![]), vec![]);
}

#[test]
fn unique_hints_keep_the_first_of_each() {
    assert_eq!(unique_hints(&strings(&["b/", "a/", "b/", "c/", "a/"])), strings(&["b/", "a/", "c/"]));
    assert_eq!(unique_hints(&vec![]), Vec::<String>::new());
}

#[test]
fn without_hints_nothing_is_planned() {
    let groups = vec![group("misc", 5, 1), group("venv", 7, 1)];
    assert!(matches!(gen_ignore(&groups, false, true), IgnoreAction::Nothing));
    assert!(matches!(gen_ignore(&groups, true, false), IgnoreAction::Nothing));
    assert!(matches!(plan_gen_ignore(vec![], false, false), IgnoreAction::Nothing));
}

#[test]
fn a_dry_run_previews_and_never_writes() {
    for exists in [true, false] {
        match gen_ignore(&fixture_groups(), true, exists) {
            IgnoreAction::Preview { hints } => {
                assert_eq!(hints, strings(&["node_modules/", "**/__pycache__/", "target/"]));
            }
            other => panic!("unexpected: {:?}", other),
        }
    }
}

#[test]
fn a_real_run_appends_or_creates() {
    let block = "\n# Added by devspace-sweeper\nnode_modules/\n**/__pycache__/\ntarget/\n";
    match gen_ignore(&fixture_groups(), false, true) {
        IgnoreAction::Append { hints, block: text } => {
            assert_eq!(hints.len(), 3);
            assert_eq!(text, block);
        }
        other => panic!("unexpected: {:?}", other),
    }
    match gen_ignore(&fixture_groups(), false, false) {
        IgnoreAction::Create { hints, block: text } => {
            assert_eq!(hints.len(), 3);
            assert_eq!(text, block);
        }
        other => panic!("unexpected: {:?}", other),
    }
}

#[test]
fn the_block_starts_with_its_heading() {
    assert_eq!(render_block(&vec![]), "\n# Added by devspace-sweeper\n");
    assert_eq!(render_block(&strings(&["dist/"])), "\n# Added by devspace-sweeper\ndist/\n");
}
