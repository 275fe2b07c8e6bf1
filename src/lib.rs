//! A small expression calculator: lexer, precedence-climbing parser,
//! bytecode compiler and stack machine.
pub mod token;
pub mod lexer;
pub mod ast;
pub mod parser;
pub mod opcode;
pub mod object;
pub mod bytecode;
pub mod compiler;
pub mod vm;
pub mod semantics;
pub mod pipeline;
