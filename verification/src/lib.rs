//! A small compiler from a C-like language to x86-64 assembly text.

pub mod ast;
pub mod codegen;
pub mod laws;
pub mod lexer;
pub mod parser;
pub mod text;
