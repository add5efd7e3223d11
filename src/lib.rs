//! Execution core of a small dynamic-language interpreter: a lexical scanner,
//! a bytecode chunk with its disassembler, a stack-based virtual machine, and
//! the compiler stage that, for now, lists the scanned tokens.

pub mod text;
pub mod chunk;
pub mod scanner;
pub mod vm;
pub mod compiler;
