//! Layered configuration for the Arcella runtime of WebAssembly components.
//!
//! A tree of TOML files is turned into one flat map from dotted keys to
//! values, each value with the file it came from:
//!
//! - [`toml`] flattens a parsed document into dotted keys and gathers its
//!   `includes` entries, down to a fixed nesting depth;
//! - [`resolver`] decides which files `includes` entries stand for, and in
//!   which order they are loaded;
//! - [`config_loader`] follows the includes, depth first, past no cycle and
//!   down to a fixed depth;
//! - [`config`] merges the built-in defaults, the primary file and the
//!   included files, under the grants that `#redef` keys give.
//!
//! Reading files and listing directories is left to the caller; what is
//! decided from the answers is decided, and proved, here. [`config_data`]
//! groups a configuration into sections. [`manifest`], [`spec`], [`alme`]
//! and [`log`] hold the rules for component manifests, the description of
//! component interfaces, the framing of the management protocol, and the
//! lines of the log that the protocol hands out. [`integrity`] watches
//! that the files of the configuration are not changed behind the
//! runtime's back.

pub mod alme;
pub mod config;
pub mod config_data;
pub mod config_loader;
pub mod document;
pub mod error;
pub mod flat;
pub mod integrity;
pub mod log;
pub mod manifest;
pub mod ordered;
pub mod paths;
pub mod resolver;
pub mod spec;
pub mod text;
pub mod toml;
pub mod types;
pub mod value;
pub mod warnings;
