//! Identifiers of module entities: a slot number in the owning arena.
//!
//! Slots are never reused, so an identifier names at most one entity during
//! the module's lifetime.

use vstd::prelude::*;

verus! {

/// Identifier of a function type.
#[derive(Debug, Clone, Copy, PartialEq, Eq, Structural, Hash)]
pub struct TypeId {
    pub index: usize,
}

/// Identifier of a function.
#[derive(Debug, Clone, Copy, PartialEq, Eq, Structural, Hash)]
pub struct FunctionId {
    pub index: usize,
}

/// Identifier of a global.
#[derive(Debug, Clone, Copy, PartialEq, Eq, Structural, Hash)]
pub struct GlobalId {
    pub index: usize,
}

/// Identifier of an exception tag.
#[derive(Debug, Clone, Copy, PartialEq, Eq, Structural, Hash)]
pub struct TagId {
    pub index: usize,
}

/// Identifier of an import.
#[derive(Debug, Clone, Copy, PartialEq, Eq, Structural, Hash)]
pub struct ImportId {
    pub index: usize,
}

/// Identifier of an instruction sequence of a function body.
#[derive(Debug, Clone, Copy, PartialEq, Eq, Structural, Hash)]
pub struct InstrSeqId {
    pub index: usize,
}

} // verus!
