use devspace_sweeper::aggregate::{GroupTable, MatchInfo, RuleAggregate, MAX_EXAMPLES};

#[test]
fn a_new_table_is_empty() {
    let table = GroupTable::new();
    assert_eq!(table.entries(), 0);
    assert_eq!(table.total_bytes(), 0);
    assert!(table.groups().is_empty());
}

#[test]
fn default_aggregate_is_empty() {
    let empty = RuleAggregate::default();
    assert_eq!(empty.total_bytes, 0);
    assert_eq!(empty.count, 0);
    assert!(empty.examples.is_empty());
}

#[test]
fn match_info_holds_path_and_size() {
    let m = MatchInfo { path: "a/target".to_string(), bytes: 9 };
    assert_eq!(m.clone().path, "a/target");
    assert_eq!(m.bytes, 9);
}

#[test]
fn entries_are_grouped_by_last_component() {
    let mut table = GroupTable::new();
    table.record("a/target", 10);
    table.record("b/node_modules", 5);
    table.record("c/d/target", 7);
    assert_eq!(table.entries(), 3);
    assert_eq!(table.total_bytes(), 22);
    let groups = table.groups();
    assert_eq!(groups.len(), 2);
    assert_eq!(groups[0].0, "node_modules");
    assert_eq!(groups[0].1.total_bytes, 5);
    assert_eq!(groups[0].1.count, 1);
    assert_eq!(groups[0].1.examples, vec!["b/node_modules".to_string()]);
    assert_eq!(groups[1].0, "target");
    assert_eq!(groups[1].1.total_bytes, 17);
    assert_eq!(groups[1].1.count, 2);
    assert_eq!(groups[1].1.examples, vec!["a/target".to_string(), "c/d/target".to_string()]);
}

#[test]
fn groups_stand_in_ascending_order_of_their_keys() {
    let mut table = GroupTable::new();
    for path in ["x/target", "x/dist", "x/__pycache__", "x/.next", "x/build", "x/Zed", "x/.venv"] {
        table.record(path, 1);
    }
    let keys: Vec<String> = table.into_groups().into_iter().map(|g| g.0).collect();
    let mut sorted = keys.clone();
    sorted.sort();
    assert_eq!(keys, sorted);
    assert_eq!(keys, vec![".next", ".venv", "Zed", "__pycache__", "build", "dist", "target"]);
}

#[test]
fn a_group_keeps_its_first_examples_only() {
    let mut table = GroupTable::new();
    for i in 0..8 {
        table.record(&format!("p{}/target", i), 1);
    }
    let groups = table.groups();
    assert_eq!(groups[0].1.count, 8);
    assert_eq!(groups[0].1.total_bytes, 8);
    assert_eq!(groups[0].1.examples.len(), MAX_EXAMPLES);
    assert_eq!(
        groups[0].1.examples,
        vec!["p0/target", "p1/target", "p2/target", "p3/target", "p4/target"]
    );
}

#[test]
fn totals_stay_at_the_maximum() {
    let mut table = GroupTable::new();
    table.record("a/target", u64::MAX - 1);
    table.record("b/target", 5);
    table.record("c/dist", 7);
    assert_eq!(table.total_bytes(), u64::MAX);
    let groups = table.groups();
    assert_eq!(groups[0].0, "dist");
    assert_eq!(groups[0].1.total_bytes, 7);
    assert_eq!(groups[1].1.total_bytes, u64::MAX);
    assert_eq!(groups[1].1.count, 2);
}

#[test]
fn group_totals_add_up_to_the_grand_total() {
    let mut table = GroupTable::new();
    let sizes = [18u64, 3, 3, 0, 250, 1];
    let paths = ["a/node_modules", "a/target", "a/__pycache__", "b/target", "", "/"];
    for (p, s) in paths.iter().zip(sizes.iter()) {
        table.record(p, *s);
    }
    let sum: u64 = table.groups().iter().map(|g| g.1.total_bytes).sum();
    let count: usize = table.groups().iter().map(|g| g.1.count).sum();
    assert_eq!(sum, 275);
    assert_eq!(sum, table.total_bytes());
    assert_eq!(count, table.entries());
    let keys: Vec<&str> = table.groups().iter().map(|g| g.0.as_str()).collect();
    assert_eq!(keys, vec!["/", "__pycache__", "node_modules", "root", "target"]);
}
