//! A linter for RSL macro sources: block balance, unclosed strings, missing
//! semicolons, `=` in conditions, deprecated words, unused variables, empty
//! blocks and stray white space.

pub mod cleaner;
pub mod laws;
pub mod linter;
pub mod pattern;
pub mod report;
pub mod rule_laws;
pub mod rules;
pub mod source;
pub mod text;
