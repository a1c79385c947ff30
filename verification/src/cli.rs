//! The commands of the tool and the traversal that each of them asks for.

use vstd::prelude::*;

verus! {

/// Depth to which a scan descends when none is given.
pub const DEFAULT_MAX_DEPTH: usize = 8;

/// A parsed command line.
#[derive(Debug, Clone)]
pub struct Cli {
    pub command: Commands,
}

/// The commands. A path that is not given stands for the current directory,
/// a recipes path that is not given for the default recipes file.
#[derive(Debug, Clone)]
pub enum Commands {
    /// Scan for recognizable build artifacts and caches.
    Scan { path: Option<String>, recipes: Option<String>, max_depth: usize },
    /// Suggest cleanup candidates and ignore patterns.
    Suggest { path: Option<String>, recipes: Option<String> },
    /// Delete the matched entries, or with `dry_run` say what would go.
    Clean {
        path: Option<String>,
        recipes: Option<String>,
        dry_run: bool,
        max_age_days: Option<u64>,
        keep_recent_days: Option<u64>,
    },
    /// Write a report of the findings; `output` is where it goes.
    Report { path: Option<String>, recipes: Option<String>, output: Option<String> },
    /// Append the suggested patterns to the ignore file at the root.
    GenIgnore { path: Option<String>, recipes: Option<String>, dry_run: bool },
}

/// How a tree is walked.
#[derive(Clone, Copy, Debug, PartialEq, Eq, Structural)]
pub struct WalkConfig {
    /// Leave out what version-control ignore and exclude files name.
    pub respect_ignore_files: bool,
    /// Leave out hidden entries.
    pub skip_hidden: bool,
    /// Follow symbolic links.
    pub follow_links: bool,
    /// Yield no entry deeper than this.
    pub max_depth: Option<usize>,
}

/// The walk of the commands that only read: it honours ignore files.
pub open spec fn reading_walk(max_depth: Option<usize>) -> WalkConfig {
    WalkConfig { respect_ignore_files: true, skip_hidden: false, follow_links: false, max_depth }
}

/// The walk that sees every entry, also what ignore files name: the walk
/// of the command that deletes, and the walk that sizes a directory.
pub open spec fn exhaustive_walk() -> WalkConfig {
    WalkConfig {
        respect_ignore_files: false,
        skip_hidden: false,
        follow_links: false,
        max_depth: None,
    }
}

impl Commands {
    /// The walk that the command makes over the tree.
    pub open spec fn walk(&self) -> WalkConfig {
        match self {
            Commands::Scan { max_depth, .. } => reading_walk(Some(*max_depth)),
            Commands::Suggest { .. } => reading_walk(Some(DEFAULT_MAX_DEPTH)),
            Commands::GenIgnore { .. } => reading_walk(Some(DEFAULT_MAX_DEPTH)),
            Commands::Report { .. } => reading_walk(None),
            Commands::Clean { .. } => exhaustive_walk(),
        }
    }

    /// Whether the command may change the file system beneath the root:
    /// cleaning and ignore-file generation do, unless they run dry.
    pub open spec fn changes_tree(&self) -> bool {
        match self {
            Commands::Clean { dry_run, .. } => !*dry_run,
            Commands::GenIgnore { dry_run, .. } => !*dry_run,
            _ => false,
        }
    }

    /// The walk that the command makes over the tree.
    pub fn walk_config(&self) -> (config: WalkConfig)
        ensures
            config == self.walk(),
            !config.follow_links,
            !config.skip_hidden,
            config.respect_ignore_files == !(self is Clean),
    {
        match self {
            Commands::Scan { max_depth, .. } => WalkConfig {
                respect_ignore_files: true,
                skip_hidden: false,
                follow_links: false,
                max_depth: Some(*max_depth),
            },
            Commands::Suggest { .. } | Commands::GenIgnore { .. } => WalkConfig {
                respect_ignore_files: true,
                skip_hidden: false,
                follow_links: false,
                max_depth: Some(DEFAULT_MAX_DEPTH),
            },
            Commands::Report { .. } => WalkConfig {
                respect_ignore_files: true,
                skip_hidden: false,
                follow_links: false,
                max_depth: None,
            },
            Commands::Clean { .. } => WalkConfig {
                respect_ignore_files: false,
                skip_hidden: false,
                follow_links: false,
                max_depth: None,
            },
        }
    }

    /// The walk beneath a directory that sizes it. Whatever the command, it
    /// is a full traversal: every file beneath the directory counts, also
    /// one that an ignore file names, to any depth.
    pub fn sizing_walk(&self) -> (config: WalkConfig)
        ensures
            config == exhaustive_walk(),
    {
        WalkConfig {
            respect_ignore_files: false,
            skip_hidden: false,
            follow_links: false,
            max_depth: None,
        }
    }

    /// Whether the command may change the file system beneath the root.
    pub fn may_change_tree(&self) -> (changes: bool)
        ensures
            changes == self.changes_tree(),
    {
        match self {
            Commands::Clean { dry_run, .. } => !*dry_run,
            Commands::GenIgnore { dry_run, .. } => !*dry_run,
            _ => false,
        }
    }
}

} // verus!
