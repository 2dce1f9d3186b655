//! Errors raised while laying out and emitting a program.
use vstd::prelude::*;
use super::binary::{BinaryError, WriteStatus};

verus! {

/// An assembly error. Source positions are attached by the caller, which
/// knows which statement was being processed.
#[derive(Debug, Clone, PartialEq, Eq)]
pub enum AsmError {
    /// A write to the image failed.
    Binary(BinaryError),
    /// A branch target is out of reach: `by` bytes beyond the range of the
    /// signed displacement `val`.
    BranchOutOfRange { by: i64, val: i64 },
    /// A `setdp` value outside 0..=255.
    SetDpOutOfRange(i64),
    /// A section grew past its maximum size.
    SectionOverflow { name: String, overflow: usize, used: usize, max: usize },
    /// A section was resumed before it was defined.
    UnknownSection(String),
    /// `rmb` with a negative byte count.
    NegativeReserve(i64),
    /// A statement needs an argument that it does not have.
    MissingArgument,
    /// A chunk of `size` bytes at `offset` asked of a file of `file_size`
    /// bytes that does not hold it.
    GrabOutOfRange { offset: i64, size: i64, file_size: usize },
    /// A message names a value that its statement does not give.
    MessageValueMissing,
    /// A `while` loop ran more than the most iterations allowed.
    WhileLimitExceeded(u64),
    /// A `break` or `continue` outside any loop.
    LoopSignalOutsideLoop,
    /// An expression names a symbol that has no value.
    SymbolNotFound(u64),
    /// An expression's arithmetic left the range of a 64-bit integer.
    ArithmeticOverflow,
    /// A statement that cannot stand where it is (an `else` outside an
    /// `if`).
    UnableToSize,
}

/// A write result as an assembly result.
pub open spec fn lift(r: Result<WriteStatus, BinaryError>) -> Result<(), AsmError> {
    match r {
        Ok(_) => Ok(()),
        Err(e) => Err(AsmError::Binary(e)),
    }
}

/// `res` is the error for `val` not fitting a `dest`-typed field.
pub open spec fn is_asm_does_not_fit(res: Result<(), AsmError>, dest: Seq<char>, val: i64) -> bool {
    res matches Err(AsmError::Binary(BinaryError::DoesNotFit { dest_type, val: v })) && dest_type@
        == dest && v == val
}

/// Map a write result into an assembly result.
pub fn binary_error_map(r: Result<WriteStatus, BinaryError>) -> (res: Result<(), AsmError>)
    ensures
        res == lift(r),
{
    match r {
        Ok(_) => Ok(()),
        Err(e) => Err(AsmError::Binary(e)),
    }
}

} // verus!
