//! Runs several programs side by side and multiplexes their output: the
//! verified part holds the command-line parser, the per-command output
//! styles (column-aligned prefixes and palette colours) and the rendering of
//! each emitted line.
pub mod command;
pub mod layout;
pub mod palette;
pub mod parser;
pub mod style;
pub mod words;
