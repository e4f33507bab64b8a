//! Pieces of a compiler for a small imperative language.
//!
//! The front end is a lexer that yields tokens with their places. The back
//! end has the types of the language and the typed expressions with their
//! conversions, the registry that numbers the types of a module, the
//! lowering of expressions, statements and routines to the instructions of
//! a stack machine, and the binary format that a module is written in and
//! read from.

pub mod text;
pub mod operators;
pub mod tokens;
pub mod cursor;
pub mod lexer;
pub mod ast;
pub mod typing;
pub mod bytecode;
pub mod machine;
pub mod registry;
pub mod lowering;
pub mod statements;
pub mod flow;
pub mod format;
pub mod integrity;
pub mod encode;
pub mod decode;
pub mod roundtrip;
pub mod test_dirs;
