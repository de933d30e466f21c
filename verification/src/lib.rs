//! Generates markdown reference documentation for a command-line binary by
//! walking its `--help` output: a depth-first discovery of the subcommand
//! tree, a parser for the help-text convention (`Usage:` / `Commands:`
//! sections), a renderer for per-command documents and an indented summary
//! listing, and an idempotent merge of that listing into a delimited region
//! of an existing index file.

pub mod cmd;
pub mod discover;
pub mod errors;
pub mod merge;
pub mod parse;
pub mod render;
pub mod text;
