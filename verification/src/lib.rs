//! Back end for a small expression language: a compiler that lowers a
//! validated program tree into a linear instruction sequence, and a
//! stack-based virtual machine that executes such sequences.
//!
//! The pipeline is: program tree -> [`compiler::Compiler`] ->
//! [`compiler::CompiledBlock`] -> [`vm::VirtualMachine`] -> final operand
//! stack. A thin front end for the statement subset the back end lowers
//! lives in [`parser`].

pub mod ast;
pub mod compiler;
pub mod double;
pub mod parser;
pub mod token;
pub mod value;
pub mod vm;
