use vstd::prelude::*;

pub mod ast;
pub mod lexer;
pub mod consts;
pub mod text;
pub mod codegen;
pub mod elf_writer;
pub mod parser;
pub mod imports;
pub mod hwio;
pub mod os;
pub mod sdl;

verus! {

} // verus!
