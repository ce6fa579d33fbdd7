//! Decision logic of a small cleanup tool: it walks a directory tree and
//! removes `node_modules` directories that have not been accessed for more
//! than a configured number of days, leaving nested ones to the fate of the
//! directory that contains them.
//!
//! Everything the tool decides — which names count, when a directory is stale,
//! when a match is suppressed because an ancestor also matches, what to do
//! with each walked entry, and how the age argument is parsed — lives here,
//! verified. The binary around this library only walks the filesystem, feeds
//! each entry to [`rules::decide`], and carries out the returned action.

pub mod model;
pub mod parse;
pub mod rules;
