//! Recipe files: named rules of glob patterns, and their compilation into
//! one matcher.

use crate::matcher::{
    builder_add, builder_globs, glob_accepted, glob_matches, lemma_no_pattern_matches_nothing,
    lemma_patterns_are_alternatives, set_buildable, set_matches, CompiledMatcher,
};
use crate::text::texts;
use vstd::prelude::*;
use vstd::string::*;

verus! {

/// One recognizable category of artifact. Its globs are alternatives.
#[derive(Debug, Clone)]
pub struct Rule {
    pub name: String,
    pub description: Option<String>,
    pub globs: Vec<String>,
    pub safe_delete: bool,
    pub max_age_days: Option<u64>,
}

/// The rules of one run, in the order of the file.
#[derive(Debug, Clone)]
pub struct RecipeFile {
    pub rules: Vec<Rule>,
}

/// Why a recipe file does not compile into a matcher.
#[derive(Debug)]
pub enum PatternError {
    /// Glob number `glob` of rule number `rule` is not a valid pattern.
    Invalid { rule: usize, glob: usize, cause: globset::Error },
    /// Every glob is valid, but together they do not compile.
    Unbuildable { cause: globset::Error },
}

/// Value of `safe_delete` for a rule that does not state it.
pub fn default_true() -> (b: bool)
    ensures
        b,
{
    true
}

/// Where the recipes are looked for when no path is given, relative to the
/// working directory.
pub open spec fn default_path() -> Seq<char> {
    "recipes/default.yml"@
}

/// The path of the recipe file that is read when none is given. There is no
/// built-in rule set to fall back on: a missing file is an error of the load.
pub fn default_recipes_path() -> (path: String)
    ensures
        path@ == default_path(),
{
    "recipes/default.yml".to_owned()
}

/// The path of the recipe file to read: the one given, else the default.
pub fn resolve_recipes_path(path: Option<String>) -> (resolved: String)
    ensures
        resolved@ == match path {
            Some(given) => given@,
            None => default_path(),
        },
{
    match path {
        Some(given) => given,
        None => default_recipes_path(),
    }
}

/// What went wrong with a recipe file.
#[derive(Clone, Copy, Debug, PartialEq, Eq, Structural)]
pub enum ConfigFault {
    /// The file could not be read.
    Unreadable,
    /// The text of the file is not a list of rules.
    Malformed,
    /// Rule number `rule` of the file has no glob.
    NoGlobs { rule: usize },
}

/// A recipe file that cannot be used, with its path.
#[derive(Debug, Clone)]
pub struct ConfigError {
    pub path: String,
    pub fault: ConfigFault,
}

/// What reading and parsing a recipe file gave.
#[derive(Debug, Clone)]
pub enum Loaded {
    /// The file could not be read.
    Unreadable,
    /// The file was read, but its text is not a list of rules.
    Malformed,
    /// The rules that the file holds.
    Parsed(RecipeFile),
}

/// What the message of an error says before the path.
pub open spec fn fault_text(fault: ConfigFault) -> Seq<char> {
    match fault {
        ConfigFault::Unreadable => "Failed to read recipes at "@,
        ConfigFault::Malformed => "Failed to parse YAML recipes at "@,
        ConfigFault::NoGlobs { .. } => "A rule without globs in recipes at "@,
    }
}

impl ConfigError {
    /// The message of the error: what failed, and the path of the file.
    pub fn message(&self) -> (text: String)
        ensures
            text@ == fault_text(self.fault) + self.path@,
    {
        let mut text: String = match self.fault {
            ConfigFault::Unreadable => "Failed to read recipes at ".to_owned(),
            ConfigFault::Malformed => "Failed to parse YAML recipes at ".to_owned(),
            ConfigFault::NoGlobs { .. } => "A rule without globs in recipes at ".to_owned(),
        };
        text.append(self.path.as_str());
        text
    }
}

/// The patterns of the first `n` rules, in order.
pub open spec fn patterns_of(rules: Seq<Rule>, n: int) -> Seq<Seq<char>>
    decreases n,
{
    if n <= 0 {
        Seq::empty()
    } else {
        patterns_of(rules, n - 1) + texts(rules[n - 1].globs@)
    }
}

/// Position `(rule, glob)` comes before `(r, g)` in the order of the file.
pub open spec fn comes_before(rule: int, glob: int, r: int, g: int) -> bool {
    rule < r || (rule == r && glob < g)
}

impl RecipeFile {
    /// Every pattern of the file, rule by rule.
    pub open spec fn patterns(&self) -> Seq<Seq<char>> {
        patterns_of(self.rules@, self.rules@.len() as int)
    }

    /// Whether `(rule, glob)` is the position of a pattern of this file.
    pub open spec fn has_position(&self, rule: int, glob: int) -> bool {
        0 <= rule < self.rules@.len() && 0 <= glob < self.rules@[rule].globs@.len()
    }

    /// The pattern at a position.
    pub open spec fn pattern_at(&self, rule: int, glob: int) -> Seq<char> {
        self.rules@[rule].globs@[glob]@
    }

    /// Whether the glob engine accepts every pattern of the file.
    pub open spec fn all_accepted(&self) -> bool {
        forall|r: int, g: int| #[trigger]
            self.has_position(r, g) ==> glob_accepted(self.pattern_at(r, g))
    }

    /// Whether `(rule, glob)` is the first position with a pattern that the
    /// glob engine refuses.
    pub open spec fn first_refused(&self, rule: int, glob: int) -> bool {
        &&& self.has_position(rule, glob)
        &&& !glob_accepted(self.pattern_at(rule, glob))
        &&& forall|r: int, g: int| #[trigger]
            self.has_position(r, g) && comes_before(r, g, rule, glob) ==> glob_accepted(
                self.pattern_at(r, g),
            )
    }

    /// Whether `rule` is the first rule of the file that has no glob.
    pub open spec fn first_without_globs(&self, rule: int) -> bool {
        &&& 0 <= rule < self.rules@.len()
        &&& self.rules@[rule].globs@.len() == 0
        &&& forall|r: int| 0 <= r < rule ==> (#[trigger] self.rules@[r]).globs@.len() > 0
    }

    /// Whether every rule of the file has at least one glob.
    pub open spec fn every_rule_has_globs(&self) -> bool {
        forall|r: int| 0 <= r < self.rules@.len() ==> (#[trigger] self.rules@[r]).globs@.len() > 0
    }

    /// Finds the first rule that has no glob.
    pub fn rule_without_globs(&self) -> (found: Option<usize>)
        ensures
            match found {
                Some(rule) => self.first_without_globs(rule as int),
                None => self.every_rule_has_globs(),
            },
    {
        let mut i: usize = 0;
        while i < self.rules.len()
            invariant
                i <= self.rules@.len(),
                forall|r: int| 0 <= r < i ==> (#[trigger] self.rules@[r]).globs@.len() > 0,
            decreases self.rules@.len() - i,
        {
            if self.rules[i].globs.len() == 0 {
                return Some(i);
            }
            i = i + 1;
        }
        None
    }

    /// Accepts or refuses what reading and parsing the file at `path` gave.
    /// The rules are accepted as they were parsed if each has at least one
    /// glob; everything else is an error that names the path.
    pub fn load(path: String, outcome: Loaded) -> (r: Result<RecipeFile, ConfigError>)
        ensures
            match r {
                Ok(file) => outcome == Loaded::Parsed(file) && file.every_rule_has_globs(),
                Err(e) => {
                    &&& e.path == path
                    &&& match e.fault {
                        ConfigFault::Unreadable => outcome is Unreadable,
                        ConfigFault::Malformed => outcome is Malformed,
                        ConfigFault::NoGlobs { rule } => outcome matches Loaded::Parsed(file)
                            && file.first_without_globs(rule as int),
                    }
                },
            },
    {
        match outcome {
            Loaded::Unreadable => Err(ConfigError { path, fault: ConfigFault::Unreadable }),
            Loaded::Malformed => Err(ConfigError { path, fault: ConfigFault::Malformed }),
            Loaded::Parsed(file) => match file.rule_without_globs() {
                Some(rule) => Err(ConfigError { path, fault: ConfigFault::NoGlobs { rule } }),
                None => Ok(file),
            },
        }
    }

    /// What compiling the file gives: a matcher of all its patterns, in
    /// order, if the glob engine accepts each and can build them into one;
    /// else the position of the first pattern that it refuses; else the
    /// failure to build, which a file without patterns never meets.
    pub open spec fn compiles_to(&self, r: Result<CompiledMatcher, PatternError>) -> bool {
        match r {
            Ok(matcher) => {
                &&& self.all_accepted()
                &&& set_buildable(self.patterns())
                &&& matcher@ == self.patterns()
            },
            Err(PatternError::Invalid { rule, glob, .. }) => self.first_refused(
                rule as int,
                glob as int,
            ),
            Err(PatternError::Unbuildable { .. }) => {
                &&& self.all_accepted()
                &&& !set_buildable(self.patterns())
                &&& self.patterns().len() > 0
            },
        }
    }

    /// Compiles all patterns of all rules into one matcher. The first
    /// pattern that does not parse fails the whole compilation. A file
    /// without patterns compiles, into a matcher that matches nothing.
    pub fn compile_globset(&self) -> (r: Result<CompiledMatcher, PatternError>)
        ensures
            self.compiles_to(r),
            self.patterns().len() == 0 ==> r is Ok,
    {
        let mut builder = globset::GlobSetBuilder::new();
        let mut i: usize = 0;
        while i < self.rules.len()
            invariant
                i <= self.rules@.len(),
                builder_globs(builder) == patterns_of(self.rules@, i as int),
                forall|r: int, g: int| #[trigger]
                    self.has_position(r, g) && r < i ==> glob_accepted(self.pattern_at(r, g)),
            decreases self.rules@.len() - i,
        {
            let rule = &self.rules[i];
            let mut j: usize = 0;
            while j < rule.globs.len()
                invariant
                    i < self.rules@.len(),
                    rule == self.rules@[i as int],
                    j <= rule.globs@.len(),
                    builder_globs(builder) == patterns_of(self.rules@, i as int) + texts(
                        rule.globs@,
                    ).take(j as int),
                    forall|r: int, g: int| #[trigger]
                        self.has_position(r, g) && comes_before(r, g, i as int, j as int)
                            ==> glob_accepted(self.pattern_at(r, g)),
                decreases rule.globs@.len() - j,
            {
                match globset::Glob::new(rule.globs[j].as_str()) {
                    Ok(glob) => {
                        builder_add(&mut builder, glob);
                    },
                    Err(cause) => {
                        proof {
                            lemma_position_is_a_pattern(*self, i as int, j as int);
                        }
                        return Err(PatternError::Invalid { rule: i, glob: j, cause });
                    },
                }
                proof {
                    assert(texts(rule.globs@).take(j + 1) =~= texts(rule.globs@).take(j as int).push(
                        rule.globs@[j as int]@,
                    ));
                }
                j = j + 1;
            }
            proof {
                assert(texts(rule.globs@).take(j as int) =~= texts(rule.globs@));
            }
            i = i + 1;
        }
        match builder.build() {
            Ok(set) => Ok(CompiledMatcher::holding(set)),
            Err(cause) => Err(PatternError::Unbuildable { cause }),
        }
    }
}

/// A file that has a position has a pattern.
pub proof fn lemma_position_is_a_pattern(file: RecipeFile, rule: int, glob: int)
    requires
        file.has_position(rule, glob),
    ensures
        file.patterns().len() > 0,
{
    lemma_patterns_grow(file.rules@, rule + 1, file.rules@.len() as int);
}

proof fn lemma_patterns_grow(rules: Seq<Rule>, from: int, to: int)
    requires
        0 <= from <= to,
    ensures
        patterns_of(rules, from).len() <= patterns_of(rules, to).len(),
        from > 0 ==> patterns_of(rules, from).len() >= rules[from - 1].globs@.len(),
    decreases to - from,
{
    if from < to {
        lemma_patterns_grow(rules, from, to - 1);
    }
}

/// The matcher of a file answers whether any glob of any rule matches: a
/// path matches the patterns of the file exactly if it matches the pattern at
/// one of its positions.
pub proof fn lemma_any_rule_matches(file: RecipeFile, path: Seq<char>)
    ensures
        set_matches(file.patterns(), path) <==> exists|r: int, g: int| #[trigger]
            file.has_position(r, g) && glob_matches(file.pattern_at(r, g), path),
{
    lemma_matches_upto(file, file.rules@.len() as int, path);
}

proof fn lemma_matches_upto(file: RecipeFile, n: int, path: Seq<char>)
    requires
        0 <= n <= file.rules@.len(),
    ensures
        set_matches(patterns_of(file.rules@, n), path) <==> exists|r: int, g: int| #[trigger]
            file.has_position(r, g) && r < n && glob_matches(file.pattern_at(r, g), path),
    decreases n,
{
    if n > 0 {
        lemma_matches_upto(file, n - 1, path);
        let earlier = patterns_of(file.rules@, n - 1);
        let own = texts(file.rules@[n - 1].globs@);
        lemma_patterns_are_alternatives(earlier, own, path);
        if set_matches(own, path) {
            let g = choose|g: int| 0 <= g < own.len() && #[trigger] glob_matches(own[g], path);
            assert(file.has_position(n - 1, g) && glob_matches(file.pattern_at(n - 1, g), path));
        }
        if exists|r: int, g: int| #[trigger]
            file.has_position(r, g) && r < n && glob_matches(file.pattern_at(r, g), path) {
            let (r, g) = choose|r: int, g: int| #[trigger]
                file.has_position(r, g) && r < n && glob_matches(file.pattern_at(r, g), path);
            if r == n - 1 {
                assert(glob_matches(own[g], path));
            } else {
                assert(file.has_position(r, g) && r < n - 1);
            }
        }
    } else {
        lemma_no_pattern_matches_nothing(path);
    }
}

/// Two outcomes of a compilation are of a kind: both are a set, both name
/// the same refused pattern, or both are a failure to build.
pub open spec fn alike(
    first: Result<CompiledMatcher, PatternError>,
    second: Result<CompiledMatcher, PatternError>,
) -> bool {
    match (first, second) {
        (Ok(_), Ok(_)) => true,
        (
            Err(PatternError::Invalid { rule, glob, .. }),
            Err(PatternError::Invalid { rule: again, glob: glob_again, .. }),
        ) => rule == again && glob == glob_again,
        (Err(PatternError::Unbuildable { .. }), Err(PatternError::Unbuildable { .. })) => true,
        _ => false,
    }
}

/// Compiling is repeatable: two compilations of the same rules succeed or
/// fail together; where they succeed, the two matchers agree on every path,
/// and where they fail, they fail alike and name the same pattern.
pub proof fn lemma_compilation_is_repeatable(
    file: RecipeFile,
    first: Result<CompiledMatcher, PatternError>,
    second: Result<CompiledMatcher, PatternError>,
    path: Seq<char>,
)
    requires
        file.compiles_to(first),
        file.compiles_to(second),
    ensures
        alike(first, second),
        first is Ok ==> set_matches(first->Ok_0@, path) == set_matches(second->Ok_0@, path),
{
    match (first, second) {
        (
            Err(PatternError::Invalid { rule, glob, .. }),
            Err(PatternError::Invalid { rule: again, glob: glob_again, .. }),
        ) => {
            assert(file.has_position(rule as int, glob as int));
            assert(file.has_position(again as int, glob_again as int));
        },
        (Err(PatternError::Invalid { rule, glob, .. }), _) => {
            assert(file.has_position(rule as int, glob as int));
        },
        (_, Err(PatternError::Invalid { rule, glob, .. })) => {
            assert(file.has_position(rule as int, glob as int));
        },
        _ => {},
    }
}

} // verus!
