//! A parser for ICU MessageFormat patterns that keeps the source position of
//! every node of the tree it builds.
pub mod ast;
pub mod chars;
pub mod cursor;
pub mod grammar;
pub mod induction;
pub mod laws;
pub mod parser;
pub mod pattern_syntax;
pub mod proofs;
pub mod shape;
pub mod skeleton;
pub mod strings;
pub mod text;

pub use ast::{Ast, AstElement, Position, Span};
pub use parser::Parser;
