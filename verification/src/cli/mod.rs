//! What the `whisrs` command decides and says. Nothing here reads or prints: the functions take
//! what was read, and hand back what is to be done or printed.

pub mod command;
pub mod daemon;
pub mod glossary;
pub mod report;
pub mod restart;
