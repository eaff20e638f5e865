pub mod ast;
pub mod bytecode;
pub mod compiler;
pub mod decoding;
pub mod error;
pub mod grammar;
pub mod indices;
pub mod jumps;
pub mod laws;
pub mod lexer;
pub mod locals;
pub mod lowering;
pub mod objects;
pub mod parser;
pub mod serializable;
pub mod spans;
pub mod stack;
pub mod targets;
pub mod utils;
