pub mod error;
pub mod token;
pub mod tree;
pub mod lexer;
pub mod grammar;
pub mod parser;
