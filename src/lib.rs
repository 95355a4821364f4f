//! Structural search over syntax trees: patterns written as code, compiled
//! into tree-shaped matchers, and matched against parsed source with
//! meta-variable capture.

pub mod collection;
pub mod config;
pub mod fixer;
pub mod grammar;
pub mod kinds;
pub mod language;
pub mod laws;
pub mod match_tree;
pub mod meta_var;
pub mod pattern;
pub mod position;
pub mod print;
pub mod record;
pub mod rule;
pub mod transform;
pub mod tree;
