//! Semantic analysis and intermediate-representation construction for a
//! shading-language front end.
//!
//! The crate takes an already-parsed expression tree and lowers it into an
//! arena-based IR graph: types, constants, global variables and per-function
//! expression/statement graphs.  Name resolution across nested lexical
//! scopes, lvalue/rvalue disambiguation, memoized type resolution, constant
//! folding, struct-field and vector-swizzle resolution, and storage-size
//! computation all live here, each with a contract stating exactly what it
//! appends to the arenas and what it returns.

pub mod arena;
pub mod constants;
pub mod error;
pub mod ir;
pub mod laws;
pub mod ast;
pub mod typifier;
pub mod variables;
