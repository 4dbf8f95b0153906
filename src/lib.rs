use vstd::prelude::*;

pub mod ast;
pub mod compiler;
pub mod grammar;
pub mod lexer;
pub mod lowering;
pub mod parser;
pub mod relocation;
pub mod scopes;
pub mod text;
pub mod token;

verus! {

} // verus!
