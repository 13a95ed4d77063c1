//! A single-pass compiler and stack-based bytecode virtual machine for a
//! small dynamically-typed scripting language in the Lox family.
//!
//! Source text is scanned into tokens, parsed by a precedence-driven emitter
//! that writes bytecode directly into a chunk, and executed by a virtual
//! machine that walks the chunk against an operand stack and a table of
//! global variables.

pub mod chunk;
pub mod compiler;
pub mod errors;
pub mod globals;
pub mod intern;
pub mod opcode;
pub mod rules;
pub mod scanner;
pub mod scope;
pub mod source;
pub mod stack;
pub mod numeric;
pub mod token;
pub mod util;
pub mod value;
pub mod vm;
