//! What the user configures.

pub mod glossary;
