use devspace_sweeper::recipes::{
    default_recipes_path, default_true, resolve_recipes_path, ConfigError, ConfigFault, Loaded,
    PatternError, RecipeFile, Rule,
};

fn rule(name: &str, globs: &[&str]) -> Rule {
    Rule {
        name: name.to_string(),
        description: None,
        globs: globs.iter().map(|g| g.to_string()).collect(),
        safe_delete: default_true(),
        max_age_days: None,
    }
}

#[test]
fn safe_delete_defaults_to_true() {
    assert!(default_true());
}

#[test]
fn default_path_is_the_conventional_one() {
    assert_eq!(default_recipes_path(), "recipes/default.yml");
    assert_eq!(resolve_recipes_path(None), "recipes/default.yml");
    assert_eq!(resolve_recipes_path(Some("my/rules.yml".to_string())), "my/rules.yml");
}

#[test]
fn load_accepts_parsed_rules() {
    let file = RecipeFile { rules: vec![rule("node", &["**/node_modules"]), rule("rust", &["**/target"])] };
    let loaded = RecipeFile::load("r.yml".to_string(), Loaded::Parsed(file)).unwrap();
    assert_eq!(loaded.rules.len(), 2);
    assert_eq!(loaded.rules[0].name, "node");
    assert_eq!(loaded.rules[1].globs, vec!["**/target".to_string()]);
    assert!(loaded.rules[0].safe_delete);
}

#[test]
fn load_accepts_an_empty_rule_list() {
    let loaded = RecipeFile::load("r.yml".to_string(), Loaded::Parsed(RecipeFile { rules: vec![] }));
    assert!(loaded.is_ok());
}

#[test]
fn load_reports_an_unreadable_file() {
    let e: ConfigError = RecipeFile::load("gone.yml".to_string(), Loaded::Unreadable).unwrap_err();
    assert_eq!(e.fault, ConfigFault::Unreadable);
    assert_eq!(e.path, "gone.yml");
    assert_eq!(e.message(), "Failed to read recipes at gone.yml");
}

#[test]
fn load_reports_a_malformed_file() {
    let e = RecipeFile::load("bad.yml".to_string(), Loaded::Malformed).unwrap_err();
    assert_eq!(e.fault, ConfigFault::Malformed);
    assert_eq!(e.message(), "Failed to parse YAML recipes at bad.yml");
}

#[test]
fn load_refuses_a_rule_without_globs() {
    let file = RecipeFile { rules: vec![rule("a", &["x"]), rule("b", &[]), rule("c", &[])] };
    assert_eq!(file.rule_without_globs(), Some(1));
    let e = RecipeFile::load("r.yml".to_string(), Loaded::Parsed(file)).unwrap_err();
    assert_eq!(e.fault, ConfigFault::NoGlobs { rule: 1 });
    assert_eq!(e.message(), "A rule without globs in recipes at r.yml");
}

#[test]
fn compile_unites_the_patterns_of_all_rules() {
    let file = RecipeFile {
        rules: vec![rule("node", &["**/node_modules", "**/dist"]), rule("rust", &["**/target"])],
    };
    let matcher = file.compile_globset().unwrap();
    assert!(matcher.is_match("proj/node_modules"));
    assert!(matcher.is_match("dist"));
    assert!(matcher.is_match("a/b/target"));
    assert!(!matcher.is_match("proj/src"));
    assert!(!matcher.is_match("a/targets"));
}

#[test]
fn compile_of_no_pattern_matches_nothing() {
    let matcher = RecipeFile { rules: vec![rule("empty", &[])] }.compile_globset().unwrap();
    assert!(!matcher.is_match("anything"));
    assert!(!matcher.is_match(""));
    let none = RecipeFile { rules: vec![] }.compile_globset().unwrap();
    assert!(!none.is_match("anything"));
}

#[test]
fn compile_fails_on_the_first_invalid_pattern() {
    let file = RecipeFile {
        rules: vec![rule("ok", &["**/target"]), rule("bad", &["fine", "[", "{"]), rule("worse", &["["])],
    };
    match file.compile_globset() {
        Err(PatternError::Invalid { rule, glob, cause }) => {
            assert_eq!(rule, 1);
            assert_eq!(glob, 1);
            assert_eq!(cause.glob(), Some("["));
        }
        other => panic!("unexpected: {:?}", other),
    }
}

#[test]
fn compiling_twice_gives_the_same_matches() {
    let file = RecipeFile {
        rules: vec![rule("node", &["**/node_modules"]), rule("py", &["**/__pycache__", "*.pyc"])],
    };
    let first = file.compile_globset().unwrap();
    let second = file.clone().compile_globset().unwrap();
    let paths = ["proj/node_modules", "a.pyc", "x/y/a.pyc", "proj/__pycache__", "src/main.rs", ""];
    for p in paths.iter() {
        assert_eq!(first.is_match(p), second.is_match(p));
    }
}

#[test]
fn compile_fails_when_the_set_does_not_build() {
    let huge = format!("a{}z*b", "[!x]".repeat(400_000));
    let file = RecipeFile { rules: vec![rule("ok", &["**/target"]), rule("huge", &[huge.as_str()])] };
    assert!(matches!(file.compile_globset(), Err(PatternError::Unbuildable { .. })));
}
