use devspace_sweeper::nesting::{holds_chars, is_beneath, is_beneath_one};

fn chars(text: &str) -> Vec<char> {
    text.chars().collect()
}

#[test]
fn beneath_means_the_directory_a_separator_and_more() {
    assert!(is_beneath(&chars("/r/a/target/x"), &chars("/r/a/target")));
    assert!(is_beneath(&chars("/r/a/target/"), &chars("/r/a/target")));
    assert!(is_beneath(&chars("a/b/c"), &chars("a")));
    assert!(!is_beneath(&chars("/r/a/target"), &chars("/r/a/target")));
    assert!(!is_beneath(&chars("/r/a/target2"), &chars("/r/a/target")));
    assert!(!is_beneath(&chars("/r/a"), &chars("/r/a/target")));
    assert!(!is_beneath(&chars("/r/b/target/x"), &chars("/r/a/target")));
    assert!(!is_beneath(&chars(""), &chars("")));
    assert!(is_beneath(&chars("é/ü"), &chars("é")));
}

#[test]
fn beneath_one_of_several_directories() {
    let dirs = vec![chars("/r/a/target"), chars("/r/b/node_modules")];
    assert!(is_beneath_one(&dirs, &chars("/r/b/node_modules/pkg/index.js")));
    assert!(is_beneath_one(&dirs, &chars("/r/a/target/debug")));
    assert!(!is_beneath_one(&dirs, &chars("/r/a/target")));
    assert!(!is_beneath_one(&dirs, &chars("/r/c/target")));
    assert!(!is_beneath_one(&vec![], &chars("/r/a/target/debug")));
}

#[test]
fn a_list_of_paths_is_searched_exactly() {
    let dirs = vec![chars("/r/a/target"), chars("/r/b")];
    assert!(holds_chars(&dirs, &chars("/r/b")));
    assert!(!holds_chars(&dirs, &chars("/r/b/")));
    assert!(!holds_chars(&dirs, &chars("/r/a")));
    assert!(!holds_chars(&vec![], &chars("")));
}
