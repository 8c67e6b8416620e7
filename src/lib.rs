//! Turns the shell code blocks of a markdown document into a shell script.
pub mod text;
pub mod pattern;
pub mod command;
pub mod script;
pub mod markdown;
pub mod laws;
