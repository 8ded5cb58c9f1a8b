//! An in-memory representation of WebAssembly modules: entities live in
//! tombstone arenas under stable identifiers, and are turned back into
//! binary indices when a module is emitted.

pub mod arena;
pub mod const_expr;
pub mod encoding;
pub mod error;
pub mod globals;
pub mod ids;
pub mod indices;
pub mod ir;
pub mod tags;
pub mod ty;
pub mod types;
