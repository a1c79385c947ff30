use devspace_sweeper::text::{chars_of, holds_text, order_of, same_text, TextOrder};

#[test]
fn order_is_lexicographic_on_bytes() {
    assert_eq!(order_of("a", "b"), TextOrder::Before);
    assert_eq!(order_of("b", "a"), TextOrder::After);
    assert_eq!(order_of("abc", "abc"), TextOrder::Same);
    assert_eq!(order_of("ab", "abc"), TextOrder::Before);
    assert_eq!(order_of("abc", "ab"), TextOrder::After);
    assert_eq!(order_of("", ""), TextOrder::Same);
    assert_eq!(order_of("", "a"), TextOrder::Before);
    assert_eq!(order_of("Z", "a"), TextOrder::Before);
    assert_eq!(order_of(".next", "__pycache__"), TextOrder::Before);
}

#[test]
fn order_agrees_with_the_order_of_strings() {
    let words = ["", "a", "ab", "b", "é", "z", "日本", "target", "node_modules", "__pycache__"];
    for a in words.iter() {
        for b in words.iter() {
            let expected = if a < b {
                TextOrder::Before
            } else if a == b {
                TextOrder::Same
            } else {
                TextOrder::After
            };
            assert_eq!(order_of(a, b), expected);
        }
    }
}

#[test]
fn same_text_compares_contents() {
    assert!(same_text("target", "target"));
    assert!(!same_text("target", "targets"));
    assert!(!same_text("Target", "target"));
    assert!(same_text("", ""));
}

#[test]
fn chars_of_lists_every_character() {
    assert_eq!(chars_of("a/é"), vec!['a', '/', 'é']);
    assert_eq!(chars_of(""), Vec::<char>::new());
}

#[test]
fn holds_text_searches_a_list() {
    let list = vec!["dist/".to_string(), "target/".to_string()];
    assert!(holds_text(&list, "target/"));
    assert!(!holds_text(&list, "target"));
    assert!(!holds_text(&vec![], ""));
}
