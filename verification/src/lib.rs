//! The front end of the whisrs dictation tool: the personal glossary, and the decisions
//! that the `whisrs` command makes between reading its input and printing its output.

pub mod cli;
pub mod config;
pub mod man_page;
pub mod text;
