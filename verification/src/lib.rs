//! Compiler for Cem, a small statically typed concatenative language:
//! lexer, recursive-descent parser, stack-effect type checker with
//! row-polymorphic unification, and an LLVM textual IR emitter.

pub mod shim;
pub mod numtext;
pub mod text;
pub mod types;
pub mod ast;
pub mod lexer;
pub mod parser;
pub mod errors;
pub mod unification;
pub mod environment;
pub mod checker;
pub mod codegen;
