use devspace_sweeper::hints::{compute_ignore_hints, tally};

fn entry(text: &str, count: usize) -> (String, usize) {
    (text.to_string(), count)
}

#[test]
fn hints_are_counted_in_order_of_first_occurrence() {
    let counted = compute_ignore_hints("/tmp/root", &["target/", "node_modules/", "target/", "dist/", "target/"]);
    assert_eq!(counted, vec![entry("target/", 3), entry("node_modules/", 1), entry("dist/", 1)]);
}

#[test]
fn no_pattern_gives_no_hint() {
    assert_eq!(compute_ignore_hints("", &[]), Vec::<(String, usize)>::new());
}

#[test]
fn the_root_has_no_part_in_the_count() {
    let patterns = ["a", "b", "a"];
    assert_eq!(compute_ignore_hints("/one", &patterns), compute_ignore_hints("/other", &patterns));
}

#[test]
fn tally_tells_texts_apart_exactly() {
    assert_eq!(tally(&["a", "A", "a ", "a"]), vec![entry("a", 2), entry("A", 1), entry("a ", 1)]);
}
