//! Structural search matching: decides whether a candidate syntax node is an
//! instance of a resolved search pattern and, if so, which subtrees each
//! placeholder captured.
//!
//! The syntax tree, the pre-resolved rule and the answers of the semantic
//! resolution service are all modelled as plain data: parsing the pattern,
//! enumerating candidate nodes and resolving names are the caller's business.

pub mod syntax;

pub mod bindings;

pub mod rule;

pub mod matching;

pub mod laws;
