//! Shared types of the configuration loader.

use vstd::prelude::*;
use indexmap::IndexSet;
use crate::ordered::{set_items, set_new, ConfigValues};
use crate::warnings::ConfigLoadWarning;

verus! {

/// Deepest table nesting that is still traversed.
pub const MAX_TOML_DEPTH: usize = 10;

/// File-name ending of templates, which are never loaded as configuration.
pub const TEMPLATE_TOML_SUFFIX: &'static str = ".template.toml";

/// What stays fixed during one resolution run.
#[derive(Debug, Clone)]
pub struct ConfigLoadParams {
    /// Segments put in front of every key.
    pub prefix: Vec<String>,
    /// Directory against which relative include patterns are resolved.
    pub config_dir: String,
}

/// What changes during one resolution run.
pub struct ConfigLoadState {
    /// Every file read so far; a file's position is its index.
    pub config_files: IndexSet<String>,
    /// Files entered so far, kept to guard against cycles.
    pub visited_paths: Vec<String>,
    /// Findings so far, oldest first.
    pub warnings: Vec<ConfigLoadWarning>,
}

impl ConfigLoadState {
    /// A state in which no file is known and nothing was reported.
    pub fn new() -> (s: ConfigLoadState)
        ensures
            set_items(s.config_files) == Seq::<Seq<char>>::empty(),
            s.visited_paths@ == Seq::<String>::empty(),
            s.warnings@ == Seq::<ConfigLoadWarning>::empty(),
    {
        ConfigLoadState { config_files: set_new(), visited_paths: Vec::new(), warnings: Vec::new() }
    }
}

impl Default for ConfigLoadState {
    fn default() -> (s: ConfigLoadState)
        ensures
            set_items(s.config_files) == Seq::<Seq<char>>::empty(),
            s.visited_paths@ == Seq::<String>::empty(),
            s.warnings@ == Seq::<ConfigLoadWarning>::empty(),
    {
        ConfigLoadState::new()
    }
}

/// What one file contributed.
#[derive(Debug, PartialEq)]
pub struct TomlFileData {
    /// The file's `includes` entries, in the order met.
    pub includes: Vec<String>,
    /// Dotted key to value and file index, in the order met.
    pub values: ConfigValues,
}

/// Outcome of walking a document: complete, or cut short at the depth limit.
#[derive(Debug, Clone, Copy, PartialEq, Eq, Structural)]
pub enum TraversalResult {
    Full,
    Pruned,
}

} // verus!
