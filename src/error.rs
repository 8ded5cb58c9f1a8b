//! Failures reported by parsing, resolution, lookup and emission.

use vstd::prelude::*;

verus! {

/// The kinds of module entities that carry identifiers.
#[derive(Debug, Clone, Copy, PartialEq, Eq, Structural)]
pub enum EntityKind {
    Type,
    Function,
    Global,
    Table,
    Memory,
    Tag,
    Element,
    Data,
    Import,
    Export,
    Local,
    /// An instruction sequence of a function body.
    InstrSeq,
}

/// A construct that is well formed in the binary format but not handled here.
#[derive(Debug, Clone, Copy, PartialEq, Eq, Structural)]
pub enum Unsupported {
    /// An instruction that may not stand in a constant expression, by its
    /// leading opcode byte.
    Operation(u8),
    /// A `ref.null` in a constant expression whose heap type is neither
    /// `func` nor `extern`.
    ConstHeapType,
    /// A concrete (type-indexed) heap type.
    ConcreteHeapType,
    /// A type of the stack-switching proposal.
    StackSwitching,
}

/// A function body whose structure cannot be written.
#[derive(Debug, Clone, Copy, PartialEq, Eq, Structural)]
pub enum Structure {
    /// A sequence nested, directly or not, in itself.
    Cycle,
    /// A legacy `try` with a `delegate` beside other clauses.
    MixedDelegate,
    /// A branch to a sequence that does not enclose it.
    LabelNotEnclosing,
    /// A count or depth beyond what the binary format holds.
    TooLarge,
}

/// What went wrong.
#[derive(Debug, Clone, Copy, PartialEq, Eq, Structural)]
pub enum Error {
    /// Malformed or truncated binary input, at the given byte offset.
    Decode { offset: usize },
    /// A valid construct that this library does not support.
    UnsupportedFeature(Unsupported),
    /// A raw index in the binary that names no entity of its kind.
    Resolution { kind: EntityKind, index: u32 },
    /// An identifier that was deleted, never allocated, or never given an
    /// index.
    NotFound { kind: EntityKind, id: usize },
    /// A function body that cannot be written as it is.
    Structure(Structure),
}

} // verus!
