//! Front end of a compiler for a small statically typed, C-like language.
//!
//! The crate covers the three semantic passes that carry the real
//! invariants: lexical scope and symbol resolution (`scope`), static type
//! checking (`typechecker`), and lowering to a linear three-address
//! intermediate representation (`quad`, `ir_generator`). Tokenization and
//! grammar-driven parsing are an external collaborator that hands this core
//! a structurally valid tree (`ast`).

pub mod ast;
pub mod scope;
pub mod typechecker;
pub mod quad;
pub mod ir_generator;
