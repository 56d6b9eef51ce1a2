//! A bytecode compiler and stack virtual machine for a small dynamically
//! typed scripting language: a scanner, a single-pass Pratt compiler, a
//! chunk representation with a run-length line table, a string interner,
//! and a fetch-decode-execute engine whose single-step semantics is stated
//! as a pure function and proved of the implementation.

pub mod chunk;
pub mod compiler;
pub mod num;
pub mod object;
pub mod scanner;
pub mod stack;
pub mod text;
pub mod util;
pub mod value;
pub mod vm;
