//! Taking a span of bytes as a slice of plain-data elements.
//!
//! The reinterpretation itself is `bytemuck`'s. What this module adds is the
//! statement of when it can fail and how long its result is, in terms that the
//! rest of the crate can reason with.
use vstd::layout::{align_of, size_of};
use vstd::prelude::*;

verus! {

/// Why a span of bytes could not be taken as a slice of elements.
#[derive(Clone, Copy, Debug, PartialEq, Eq, Hash, Structural)]
pub enum CastError {
    /// The element type asks for a stricter alignment than bytes have, and the
    /// span does not start on such an address.
    TargetAlignmentGreaterAndInputNotAligned,
    /// The span is not a whole number of elements long.
    OutputSliceWouldHaveSlop,
    /// A single value was cast to a type of another size.
    SizeMismatch,
    /// An owned buffer was cast to a type of another alignment.
    AlignmentMismatch,
}

/// `len` bytes are a whole number of elements of `elem_size` bytes. Elements
/// without size fill only the empty span.
pub open spec fn whole_elements(len: nat, elem_size: nat) -> bool {
    if elem_size == 0 {
        len == 0
    } else {
        len % elem_size == 0
    }
}

/// The number of elements of `elem_size` bytes in `len` bytes.
pub open spec fn element_count(len: nat, elem_size: nat) -> nat {
    if elem_size == 0 {
        0
    } else {
        len / elem_size
    }
}

/// What can come of casting `bytes` to elements of type `T`.
///
/// A slice comes back only where the bytes are a whole number of elements,
/// and then it has that many. A refusal for alignment comes only for a type
/// whose alignment exceeds that of a byte; where the span starts in memory
/// decides it, so it can neither be foreseen nor ruled out for such a type. A
/// refusal for slop comes only where the bytes are not a whole number of
/// elements. No other refusal comes.
pub open spec fn cast_admits<T>(bytes: Seq<u8>, outcome: Result<&[T], CastError>) -> bool {
    match outcome {
        Ok(elems) => {
            &&& whole_elements(bytes.len(), size_of::<T>())
            &&& elems@.len() == element_count(bytes.len(), size_of::<T>())
        },
        Err(CastError::TargetAlignmentGreaterAndInputNotAligned) => align_of::<T>() > 1,
        Err(CastError::OutputSliceWouldHaveSlop) => !whole_elements(bytes.len(), size_of::<T>()),
        Err(_) => false,
    }
}

/// Calls `bytemuck::try_cast_slice::<u8, T>` and renames its error.
///
/// Believed, not proved: the outcome is one that [`cast_admits`] allows. That
/// is the length equation of the function's documentation, and the order of
/// the tests in its source: alignment first, then the element size against
/// that of a byte, then divisibility. Nothing is claimed about the values of
/// the elements.
#[verifier::external_body]
pub(crate) fn try_cast_bytes<'a, T: bytemuck::AnyBitPattern>(bytes: &'a [u8]) -> (outcome: Result<
    &'a [T],
    CastError,
>)
    ensures
        cast_admits::<T>(bytes@, outcome),
{
    match bytemuck::try_cast_slice::<u8, T>(bytes) {
        Ok(elems) => Ok(elems),
        Err(bytemuck::PodCastError::TargetAlignmentGreaterAndInputNotAligned) => Err(
            CastError::TargetAlignmentGreaterAndInputNotAligned,
        ),
        Err(bytemuck::PodCastError::OutputSliceWouldHaveSlop) => Err(
            CastError::OutputSliceWouldHaveSlop,
        ),
        Err(bytemuck::PodCastError::SizeMismatch) => Err(CastError::SizeMismatch),
        Err(bytemuck::PodCastError::AlignmentMismatch) => Err(CastError::AlignmentMismatch),
    }
}

} // verus!
