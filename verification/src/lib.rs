//! Finds the engine builds installed on a machine, resolves version
//! specifiers against them, and plans the runs of the build tool.
//!
//! The library reads nothing from disk and starts no process. Its callers
//! hand it the texts that they have read (the packaged manifest, the entries
//! of the custom-build store, the metadata file of each build) and the exit
//! codes of the processes that they have run; the library decides what these
//! mean.
//!
//! - [`engine_utils`]: the packaged manifest, and the list of installs made
//!   from every build whose metadata can be used.
//! - [`platform_utils`]: the per-user store of custom builds.
//! - [`build_version`]: the metadata document of one build.
//! - [`build_list`]: the mapping from names to base directories that an
//!   enumerator returns.
//! - [`resolver`]: the specifier grammar and the rules that pick one install.
//! - [`dispatch`]: the queue of installs for a request, and what to do after
//!   each invocation of the build tool.
//! - [`json`]: JSON documents, parsed by `serde_json`.
//! - [`text`]: prefixes, separators and decimal numbers in sequences of
//!   characters.

pub mod build_list;
pub mod build_version;
pub mod dispatch;
pub mod engine_utils;
pub mod json;
pub mod platform_utils;
pub mod resolver;
pub mod text;
