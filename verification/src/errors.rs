use vstd::prelude::*;

verus! {

/// Errors reported by the color table library.
#[derive(Clone, Copy, Debug, PartialEq, Eq, Structural)]
pub enum ColorTableError {
    /// The table file's first record is not the expected magic header.
    CorruptMagic,
    /// The table file's length is not a multiple of the record size, or the
    /// record count does not fit in a fragment index.
    CorruptLength,
    /// The generation sidecar cannot be parsed, or the recorded ranges do not
    /// form a well-formed registry.
    CorruptRegistry,
    /// A fragment reference at or beyond the table head: a caller passed such
    /// an id to fork or extend, or a stored parent pointer does not precede
    /// its fragment.
    InvalidColorId(u32),
    /// A generation transition was attempted in the wrong state, or a
    /// mutation was attempted with no open generation.
    BadGenerationState,
    /// A generation was started with a number not above the last one.
    InvalidGeneration(u64),
}

} // verus!
