//! Why decoding fails.

use vstd::prelude::*;

verus! {

/// Why a run of bytes is not the encoding that a decoder looked for.
#[derive(Clone, Copy, Debug, PartialEq, Eq, Structural)]
pub enum Error {
    /// The input ended inside a field.
    UnexpectedEof,
    /// A variable-length integer goes on after its fifth byte.
    IntegerTooLong,
    /// The fifth byte of a variable-length integer holds bits beyond the
    /// thirty-second.
    IntegerTooLarge,
    /// The byte names no value kind.
    InvalidValueKind(u8),
    /// A function body declares fewer bytes than its local declarations
    /// account for.
    BodyTooSmall,
}

} // verus!
