//! What the pieces mean, one by one: laws that tie each result to the characters
//! or bytes of its input.

pub mod arguments;
pub mod blocks;
pub mod calls;
pub mod characters;
pub mod edits;
pub mod forms;
pub mod kinds;
pub mod lines;
pub mod marks;
pub mod patches;
pub mod results;
pub mod runs;
pub mod scanning;
pub mod settings;
pub mod views;
