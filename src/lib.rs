//! A one-pass, syntax-directed translator for a block-structured mini-language
//! whose tokens are single characters. It emits assembly-like instructions
//! directly while parsing, with one character of lookahead.
//!
//! - `text`: the instruction lines, label names and diagnostics it writes.
//! - `error`: why a translation stops.
//! - `grammar`: the model of each production: what it reads, which labels it
//!   allocates and which instructions it writes.
//! - `translator`: the executable translator, proved to follow the model.
//! - `laws`: properties of every translation, proved over the model.
pub mod text;
pub mod error;
pub mod grammar;
pub mod translator;
pub mod laws;
