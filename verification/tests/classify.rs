use devspace_sweeper::classify::{gitignore_hint_for_group, group_from_path, safety_score_for_group};

#[test]
fn group_key_is_the_last_component() {
    assert_eq!(group_from_path("proj/apps/web/node_modules"), "node_modules");
    assert_eq!(group_from_path("target"), "target");
    assert_eq!(group_from_path("a/b/"), "b");
    assert_eq!(group_from_path("a/./"), "a");
    assert_eq!(group_from_path("./a/."), "a");
    assert_eq!(group_from_path("."), ".");
    assert_eq!(group_from_path("a/.."), "..");
}

#[test]
fn group_key_of_a_path_without_components() {
    assert_eq!(group_from_path(""), "root");
    assert_eq!(group_from_path("/"), "/");
    assert_eq!(group_from_path("//./"), "/");
}

#[test]
fn safety_scores_follow_the_table() {
    assert_eq!(safety_score_for_group("node_modules"), 95);
    assert_eq!(safety_score_for_group("target"), 95);
    assert_eq!(safety_score_for_group("__pycache__"), 95);
    assert_eq!(safety_score_for_group("coverage"), 90);
    assert_eq!(safety_score_for_group(".nyc_output"), 90);
    assert_eq!(safety_score_for_group(".venv"), 50);
    assert_eq!(safety_score_for_group("venv"), 50);
    assert_eq!(safety_score_for_group("env"), 50);
    assert_eq!(safety_score_for_group("src"), 70);
    assert_eq!(safety_score_for_group(""), 70);
}

#[test]
fn hints_follow_the_table() {
    assert_eq!(gitignore_hint_for_group("node_modules"), Some("node_modules/".to_string()));
    assert_eq!(gitignore_hint_for_group("__pycache__"), Some("**/__pycache__/".to_string()));
    assert_eq!(gitignore_hint_for_group("target"), Some("target/".to_string()));
    assert_eq!(gitignore_hint_for_group(".nuxt"), Some(".nuxt/".to_string()));
    assert_eq!(gitignore_hint_for_group("venv"), None);
    assert_eq!(gitignore_hint_for_group("unknown"), None);
}
