//! A small scripting language front end: a lexer and parser for its syntax, the scopes and
//! symbol allocators used to compile it, and the memory structures of its virtual machine.

pub mod util;
pub mod common;
pub mod syntax;
pub mod vm;
pub mod compile;
pub mod ir;
