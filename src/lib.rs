//! Arity resolution and stack code generation for a small concatenative language.
//!
//! `source_ast` holds the module tree, the arity calculus and the resolution pass;
//! `codegen` lowers resolved function bodies into a flat, SSA-style instruction list.
pub mod source_ast;
pub mod codegen;
