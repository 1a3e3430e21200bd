//! Schemer: a small language for typed, constrained data schemas.
//!
//! Text is cut into tokens by the [`lexer`], and the [`parser`] turns the
//! token stream into a tree of typed fields, checking intervals, enumerations
//! and field names on the way. What the parser does is laid down in
//! [`grammar`], as functions from a token stream to fields; [`invariants`]
//! and [`roundtrip`] hold what follows from it. The fields are rendered as a
//! schema by [`to_schemer`] and as JSON by [`to_json`].

pub mod chars;
pub mod decimal;
pub mod formatting;
pub mod grammar;
pub mod helpers;
pub mod invariants;
pub mod lexer;
pub mod object_base;
pub mod objects;
pub mod parser;
pub mod roundtrip;
pub mod scanner;
pub mod text;
pub mod to_json;
pub mod to_schemer;
pub mod tokens;
pub mod trie;
