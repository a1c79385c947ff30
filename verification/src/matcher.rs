//! The glob engine that path matching rests on.
//!
//! Parsing and matching of glob patterns is done by the `globset` crate.
//! This module declares the crate's types, names what its functions return,
//! and states what the rest of the library relies on; none of that is proved.
//!
//! Every glob is parsed by `Glob::new`, that is with the crate's default
//! options, so what a pattern means is fixed by its text (on one kind of
//! platform: the crate reads a backslash as an escape on Unix and as a
//! separator on Windows). The contracts speak of globs, builders and sets
//! that were made this way. The library makes no others, and takes none from
//! its callers: a set reaches the rest of the library only inside a
//! `CompiledMatcher`, which compiling a recipe file alone makes.

use vstd::prelude::*;

verus! {

/// `globset::Glob`: a parsed pattern.
#[verifier::external_type_specification]
#[verifier::external_body]
pub struct ExGlob(globset::Glob);

/// `globset::GlobSet`: globs compiled into one matcher.
#[verifier::external_type_specification]
#[verifier::external_body]
pub struct ExGlobSet(globset::GlobSet);

/// `globset::GlobSetBuilder`: the globs that a set is going to be built from.
#[verifier::external_type_specification]
#[verifier::external_body]
pub struct ExGlobSetBuilder(globset::GlobSetBuilder);

/// `globset::Error`: why a pattern does not parse or a set does not build.
#[verifier::external_type_specification]
#[verifier::external_body]
pub struct ExGlobError(globset::Error);

/// Whether `globset::Glob::new` accepts the pattern.
pub uninterp spec fn glob_accepted(pattern: Seq<char>) -> bool;

/// The pattern text that a parsed glob was made from (`Glob::glob`).
pub uninterp spec fn glob_source(glob: globset::Glob) -> Seq<char>;

/// The pattern texts of the globs added to a builder, in the order added.
pub uninterp spec fn builder_globs(builder: globset::GlobSetBuilder) -> Seq<Seq<char>>;

/// The pattern texts of the globs that a set was built from, in order.
pub uninterp spec fn set_globs(set: globset::GlobSet) -> Seq<Seq<char>>;

/// Whether `GlobSetBuilder::build` succeeds on globs made from these
/// patterns (it fails when the combined matcher grows over the crate's size
/// limit).
pub uninterp spec fn set_buildable(patterns: Seq<Seq<char>>) -> bool;

/// Whether the glob that `Glob::new` parses from the pattern matches the
/// path.
pub uninterp spec fn glob_matches(pattern: Seq<char>, path: Seq<char>) -> bool;

/// Whether any of the patterns matches the path.
pub open spec fn set_matches(patterns: Seq<Seq<char>>, path: Seq<char>) -> bool {
    exists|i: int| 0 <= i < patterns.len() && #[trigger] glob_matches(patterns[i], path)
}

/// `globset::Glob::new`: parses a pattern with the default options. The
/// outcome depends on the pattern text alone, and a parsed glob remembers the
/// text it came from.
pub assume_specification[ globset::Glob::new ](glob: &str) -> (r: Result<
    globset::Glob,
    globset::Error,
>)
    ensures
        r is Ok <==> glob_accepted(glob@),
        r matches Ok(g) ==> glob_source(g) == glob@,
;

/// `globset::GlobSetBuilder::new`: a builder that holds no glob yet.
pub assume_specification[ globset::GlobSetBuilder::new ]() -> (b: globset::GlobSetBuilder)
    ensures
        builder_globs(b) == Seq::<Seq<char>>::empty(),
;

/// `globset::GlobSetBuilder::add`: appends the glob to those of the builder.
#[verifier::external_body]
pub(crate) fn builder_add(builder: &mut globset::GlobSetBuilder, glob: globset::Glob)
    ensures
        builder_globs(*final(builder)) == builder_globs(*old(builder)).push(glob_source(glob)),
{
    builder.add(glob);
}

/// `globset::GlobSetBuilder::build`: compiles the globs added so far into one
/// set, which holds exactly those globs. Whether that succeeds depends on the
/// patterns alone, and without globs it does: the set is then empty.
pub assume_specification[ globset::GlobSetBuilder::build ](b: &globset::GlobSetBuilder) -> (r:
    Result<globset::GlobSet, globset::Error>)
    ensures
        r is Ok <==> set_buildable(builder_globs(*b)),
        r matches Ok(set) ==> set_globs(set) == builder_globs(*b),
        builder_globs(*b).len() == 0 ==> r is Ok,
;

/// `globset::GlobSet::is_match`: whether any glob of the set matches the
/// path. Whether one glob matches depends on its pattern and the path alone.
#[verifier::external_body]
fn set_is_match(set: &globset::GlobSet, path: &str) -> (hit: bool)
    ensures
        hit == (exists|i: int|
            0 <= i < set_globs(*set).len() && #[trigger] glob_matches(set_globs(*set)[i], path@)),
{
    set.is_match(path)
}

/// The matcher compiled from a recipe file: it answers whether any pattern
/// of the file matches a path.
#[derive(Debug)]
pub struct CompiledMatcher {
    set: globset::GlobSet,
}

impl View for CompiledMatcher {
    type V = Seq<Seq<char>>;

    /// The patterns that the matcher was compiled from, in order.
    closed spec fn view(&self) -> Seq<Seq<char>> {
        set_globs(self.set)
    }
}

impl CompiledMatcher {
    /// Takes a set that was just built.
    pub(crate) fn holding(set: globset::GlobSet) -> (matcher: CompiledMatcher)
        ensures
            matcher@ == set_globs(set),
    {
        CompiledMatcher { set }
    }

    /// Whether any pattern of the matcher matches the path.
    pub fn is_match(&self, path: &str) -> (hit: bool)
        ensures
            hit == set_matches(self@, path@),
    {
        set_is_match(&self.set, path)
    }
}

/// Without patterns nothing matches.
pub proof fn lemma_no_pattern_matches_nothing(path: Seq<char>)
    ensures
        !set_matches(Seq::empty(), path),
{
}

/// Patterns are alternatives: a path matches a list of patterns put together
/// from two exactly if it matches one of the two.
pub proof fn lemma_patterns_are_alternatives(
    one: Seq<Seq<char>>,
    other: Seq<Seq<char>>,
    path: Seq<char>,
)
    ensures
        set_matches(one + other, path) <==> set_matches(one, path) || set_matches(other, path),
{
    let both = one + other;
    if set_matches(both, path) {
        let i = choose|i: int| 0 <= i < both.len() && #[trigger] glob_matches(both[i], path);
        if i < one.len() {
            assert(glob_matches(one[i], path));
        } else {
            assert(glob_matches(other[i - one.len()], path));
        }
    }
    if set_matches(one, path) {
        let i = choose|i: int| 0 <= i < one.len() && #[trigger] glob_matches(one[i], path);
        assert(glob_matches(both[i], path));
    }
    if set_matches(other, path) {
        let i = choose|i: int| 0 <= i < other.len() && #[trigger] glob_matches(other[i], path);
        assert(glob_matches(both[i + one.len()], path));
    }
}

} // verus!
