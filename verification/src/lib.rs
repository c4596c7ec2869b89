//! Comment reflow for C, C++, Rust, POSIX shell and assembly: the decisions,
//! with their contracts.

pub mod assembly;
pub mod batch;
pub mod classify;
pub mod cli;
pub mod config;
pub mod convert;
pub mod diff;
pub mod laws;
pub mod linekind;
pub mod offsets;
pub mod parse;
pub mod rewrite;
pub mod text;
pub mod textline;
