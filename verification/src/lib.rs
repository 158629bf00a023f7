//! Sout's Game Script (SGS): a small language for describing the entities,
//! components and systems of an ECS game engine.
use vstd::prelude::*;

pub mod analyzer;
pub mod ast;
pub mod grammar;
pub mod hint;
pub mod laws;
pub mod lexer;
pub mod parser;
pub mod text;
pub mod types;
pub mod typing;

pub use parser::{parse_program, ParseError};

verus! {

} // verus!
