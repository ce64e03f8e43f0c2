//! A single-pass compiler for a small C-like language: tokenizer, parser with
//! integrated type resolution, and a code generator that emits x86-64 assembly.

pub mod types;
pub mod error;
pub mod text;
pub mod tokenize;
pub mod ast;
pub mod grammar;
pub mod parse;
pub mod codegen;
pub mod compiler;
