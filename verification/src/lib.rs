//! Layout rules of a structural formatter for Nix expressions.
//!
//! A rule looks at one node of a concrete syntax tree, at its children and at
//! the comments and line breaks between them, and answers with the sequence of
//! layout directives that a renderer replays into text. Every rule is a pure
//! function of the build context and the node, and its contract states the
//! exact sequence it emits.

pub mod text;
pub mod syntax;
pub mod directive;
pub mod children;
pub mod rules;
pub mod laws;
