//! A single-pass bytecode compiler and stack-based virtual machine for a
//! small dynamically typed expression language.
//!
//! Source text is tokenized on demand, compiled in one left-to-right pass
//! into a compact bytecode chunk, then executed by a stack machine operating
//! on tagged values.

pub mod chunk;
pub mod common;
pub mod compiler;
pub mod gc;
pub mod obj;
pub mod parser;
pub mod scanner;
pub mod value;
pub mod vm;
