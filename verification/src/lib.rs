use vstd::prelude::*;

pub mod analyzer;
pub mod ast;
pub mod cli;
pub mod codegen;
pub mod errors;
pub mod lex_tokens;
pub mod lexer;
pub mod parser;
pub mod pipeline;
pub mod scaffold;
pub mod text;

verus! {

} // verus!
