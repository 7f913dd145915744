//! A minimal regular-expression matcher.
//!
//! Patterns are built from literal characters, the wildcard `.`, the anchors
//! `^` (start of text) and `$` (end of text), and the postfix `*` (zero or
//! more of the preceding single-character atom). Matching answers one yes/no
//! question: does the pattern match somewhere in (or anchored to) the text?
//!
//! The crate holds two verified implementations of the same decision
//! procedure, both proved equal to the mathematical semantics in
//! [`semantics`]:
//!
//! - [`direct`] scans the pattern string itself, character by character;
//! - [`matcher`] first tokenizes the pattern (see [`parse`]) and then walks
//!   the token sequence.

pub mod direct;
pub mod matcher;
pub mod parse;
pub mod semantics;
