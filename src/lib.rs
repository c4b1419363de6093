//! A linter for Makefiles: a line-oriented parser that recovers a model of
//! rules, recipes, variables and directives; a catalog of pure lint rules over
//! that model; and a fix engine that rewrites the original text from the edits
//! that diagnostics carry.
pub mod config;
pub mod diagnostic;
pub mod fix;
pub mod lint;
pub mod model;
pub mod parser;
pub mod rules;
pub mod text;
