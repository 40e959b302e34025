//! A small compiler from Kujav source text to JVM class files.
//!
//! The pipeline runs strictly forward: source text is tokenised and parsed into
//! a syntax tree, the tree is type-checked, lowered to stack-machine bytecode
//! together with a constant pool, and finally laid out as a class file.
pub mod text;
pub mod scan;
pub mod errors;
pub mod types;
pub mod constant_pool;
pub mod ast;
pub mod lexer;
pub mod grammar;
pub mod parser;
pub mod symbols;
pub mod semantics;
pub mod lowering;
pub mod emit;
pub mod codegen;
pub mod classfile;
pub mod machine;
pub mod programs;
pub mod pipeline;
pub mod cli;
pub mod toml_config;
pub mod jar;
pub mod lockfile;
pub mod resolver;
