//! Classification of matched paths and the advisory tables keyed by group.
//!
//! Paths are texts whose segments are separated by `/`. A *component* is a
//! non-empty segment; a segment that is a single dot counts only when it is
//! the very first segment of the path.

use crate::text::{chars_of, same_text};
use vstd::prelude::*;
use vstd::string::*;

verus! {

/// Key of a path that has no component at all.
pub open spec fn root_key() -> Seq<char> {
    "root"@
}

/// Key of a path that consists of separators only.
pub open spec fn separator_key() -> Seq<char> {
    "/"@
}

/// Where the last segment of `path` starts: just behind its last separator,
/// or at 0 when it has none.
pub open spec fn segment_start(path: Seq<char>) -> int
    decreases path.len(),
{
    if path.len() == 0 {
        0
    } else if path.last() == '/' {
        path.len() as int
    } else {
        segment_start(path.drop_last())
    }
}

/// Whether the segment `seg`, which starts at index `start` of its path, is
/// a component.
pub open spec fn is_component(seg: Seq<char>, start: int) -> bool {
    seg.len() > 0 && (start == 0 || seg != seq!['.'])
}

/// The last component of `path`, if it has one.
pub open spec fn final_component(path: Seq<char>) -> Option<Seq<char>>
    decreases path.len(),
{
    if path.len() == 0 {
        None
    } else {
        let start = segment_start(path);
        let seg = path.subrange(start, path.len() as int);
        if is_component(seg, start) {
            Some(seg)
        } else if 0 < start <= path.len() {
            final_component(path.subrange(0, start - 1))
        } else {
            None
        }
    }
}

/// The group that a matched path is counted under: its last component. A
/// path without components maps to `root`, or to `/` when it is made of
/// separators (and dots between them) only.
pub open spec fn group_key(path: Seq<char>) -> Seq<char> {
    match final_component(path) {
        Some(name) => name,
        None => if path.len() > 0 {
            separator_key()
        } else {
            root_key()
        },
    }
}

/// `segment_start` is the one index that has a separator (or the start of
/// the path) right before it and no separator after it.
pub proof fn lemma_segment_start(path: Seq<char>)
    ensures
        0 <= segment_start(path) <= path.len(),
        segment_start(path) > 0 ==> path[segment_start(path) - 1] == '/',
        forall|i: int| segment_start(path) <= i < path.len() ==> path[i] != '/',
    decreases path.len(),
{
    if path.len() > 0 && path.last() != '/' {
        let shorter = path.drop_last();
        lemma_segment_start(shorter);
        assert forall|i: int| segment_start(path) <= i < path.len() implies path[i] != '/' by {
            if i < shorter.len() {
                assert(shorter[i] == path[i]);
            }
        }
    }
}

/// A key is never empty.
pub proof fn lemma_group_key_nonempty(path: Seq<char>)
    ensures
        group_key(path).len() > 0,
    decreases path.len(),
{
    reveal_strlit("root");
    reveal_strlit("/");
    lemma_component_has_no_separator(path);
}

/// A key that comes from a component is not empty and holds no separator.
pub proof fn lemma_component_has_no_separator(path: Seq<char>)
    ensures
        final_component(path) matches Some(name) ==> name.len() > 0 && !name.contains('/'),
    decreases path.len(),
{
    if path.len() > 0 {
        lemma_segment_start(path);
        let start = segment_start(path);
        let seg = path.subrange(start, path.len() as int);
        if is_component(seg, start) {
            assert forall|i: int| 0 <= i < seg.len() implies seg[i] != '/' by {
                assert(seg[i] == path[start + i]);
            }
        } else if 0 < start {
            lemma_component_has_no_separator(path.subrange(0, start - 1));
        }
    }
}

/// For a plain relative path (no empty segment at its end, and a last
/// segment other than a dot) the key is the text behind the last separator.
pub proof fn lemma_group_key_of_plain_path(path: Seq<char>)
    requires
        path.len() > 0,
        path.last() != '/',
        path.subrange(segment_start(path), path.len() as int) != seq!['.'],
    ensures
        group_key(path) == path.subrange(segment_start(path), path.len() as int),
{
    lemma_segment_start(path);
}

fn find_segment_start(chars: &Vec<char>, end: usize) -> (start: usize)
    requires
        end <= chars.len(),
    ensures
        start == segment_start(chars@.take(end as int)),
        start <= end,
{
    let mut i: usize = end;
    while i > 0 && chars[i - 1] != '/'
        invariant
            i <= end <= chars.len(),
            segment_start(chars@.take(end as int)) == segment_start(chars@.take(i as int)),
        decreases i,
    {
        proof {
            assert(chars@.take(i as int).drop_last() =~= chars@.take(i - 1));
        }
        i = i - 1;
    }
    i
}

/// Derives the group key of a path relative to the scan root.
pub fn group_from_path(path: &str) -> (key: String)
    ensures
        key@ == group_key(path@),
{
    let chars = chars_of(path);
    let mut end: usize = chars.len();
    assert(path@.take(end as int) =~= path@);
    while end > 0
        invariant
            end <= chars.len(),
            chars@ == path@,
            final_component(path@) == final_component(path@.take(end as int)),
        decreases end,
    {
        let start = find_segment_start(&chars, end);
        let ghost prefix = path@.take(end as int);
        let ghost seg = prefix.subrange(start as int, end as int);
        let lone_dot = end - start == 1 && chars[start] == '.';
        proof {
            if lone_dot {
                assert(seg =~= seq!['.']);
            } else if seg.len() == 1 {
                assert(seg[0] != '.');
                assert(seq!['.'][0] == '.');
            }
        }
        if start < end && (start == 0 || !lone_dot) {
            proof {
                assert(seg =~= path@.subrange(start as int, end as int));
            }
            return path.substring_char(start, end).to_owned();
        }
        proof {
            assert(prefix.subrange(0, start - 1) =~= path@.take(start - 1));
        }
        end = start - 1;
    }
    if chars.len() > 0 {
        "/".to_owned()
    } else {
        "root".to_owned()
    }
}

/// Score of a group that no table entry recognizes.
pub const DEFAULT_SAFETY: u8 = 70;

/// Directory names of build outputs and caches that tools recreate.
pub open spec fn is_rebuildable(group: Seq<char>) -> bool {
    ||| group == "node_modules"@
    ||| group == "dist"@
    ||| group == "build"@
    ||| group == "__pycache__"@
    ||| group == ".pytest_cache"@
    ||| group == "target"@
    ||| group == "DerivedData"@
    ||| group == ".parcel-cache"@
    ||| group == ".vite"@
    ||| group == ".next"@
    ||| group == ".nuxt"@
}

/// Directory names of coverage reports.
pub open spec fn is_coverage_output(group: Seq<char>) -> bool {
    group == "coverage"@ || group == ".nyc_output"@
}

/// Directory names of virtual environments, which may hold installed state.
pub open spec fn is_virtual_env(group: Seq<char>) -> bool {
    group == ".venv"@ || group == "venv"@ || group == "env"@
}

/// Advisory confidence, in percent, that deleting a group loses nothing.
pub open spec fn safety_score(group: Seq<char>) -> u8 {
    if is_rebuildable(group) {
        95
    } else if is_coverage_output(group) {
        90
    } else if is_virtual_env(group) {
        50
    } else {
        DEFAULT_SAFETY
    }
}

/// Looks up the advisory safety percentage of a group.
pub fn safety_score_for_group(group: &str) -> (score: u8)
    ensures
        score == safety_score(group@),
        score <= 100,
{
    if same_text(group, "node_modules") || same_text(group, "dist") || same_text(group, "build")
        || same_text(group, "__pycache__") || same_text(group, ".pytest_cache") || same_text(
        group,
        "target",
    ) || same_text(group, "DerivedData") || same_text(group, ".parcel-cache") || same_text(
        group,
        ".vite",
    ) || same_text(group, ".next") || same_text(group, ".nuxt") {
        95
    } else if same_text(group, "coverage") || same_text(group, ".nyc_output") {
        90
    } else if same_text(group, ".venv") || same_text(group, "venv") || same_text(group, "env") {
        50
    } else {
        DEFAULT_SAFETY
    }
}

/// The ignore pattern suggested for a group, if the group is a known one.
pub open spec fn ignore_hint(group: Seq<char>) -> Option<Seq<char>> {
    if group == "node_modules"@ {
        Some("node_modules/"@)
    } else if group == "dist"@ {
        Some("dist/"@)
    } else if group == "build"@ {
        Some("build/"@)
    } else if group == "__pycache__"@ {
        Some("**/__pycache__/"@)
    } else if group == ".pytest_cache"@ {
        Some(".pytest_cache/"@)
    } else if group == "target"@ {
        Some("target/"@)
    } else if group == "DerivedData"@ {
        Some("DerivedData/"@)
    } else if group == "coverage"@ {
        Some("coverage/"@)
    } else if group == ".nyc_output"@ {
        Some(".nyc_output/"@)
    } else if group == ".parcel-cache"@ {
        Some(".parcel-cache/"@)
    } else if group == ".vite"@ {
        Some(".vite/"@)
    } else if group == ".next"@ {
        Some(".next/"@)
    } else if group == ".nuxt"@ {
        Some(".nuxt/"@)
    } else {
        None
    }
}

/// The view of an optional string.
pub open spec fn opt_text(s: Option<String>) -> Option<Seq<char>> {
    match s {
        Some(t) => Some(t@),
        None => None,
    }
}

/// Looks up the ignore pattern to suggest for a group.
pub fn gitignore_hint_for_group(group: &str) -> (hint: Option<String>)
    ensures
        opt_text(hint) == ignore_hint(group@),
{
    if same_text(group, "node_modules") {
        Some("node_modules/".to_owned())
    } else if same_text(group, "dist") {
        Some("dist/".to_owned())
    } else if same_text(group, "build") {
        Some("build/".to_owned())
    } else if same_text(group, "__pycache__") {
        Some("**/__pycache__/".to_owned())
    } else if same_text(group, ".pytest_cache") {
        Some(".pytest_cache/".to_owned())
    } else if same_text(group, "target") {
        Some("target/".to_owned())
    } else if same_text(group, "DerivedData") {
        Some("DerivedData/".to_owned())
    } else if same_text(group, "coverage") {
        Some("coverage/".to_owned())
    } else if same_text(group, ".nyc_output") {
        Some(".nyc_output/".to_owned())
    } else if same_text(group, ".parcel-cache") {
        Some(".parcel-cache/".to_owned())
    } else if same_text(group, ".vite") {
        Some(".vite/".to_owned())
    } else if same_text(group, ".next") {
        Some(".next/".to_owned())
    } else if same_text(group, ".nuxt") {
        Some(".nuxt/".to_owned())
    } else {
        None
    }
}

} // verus!
