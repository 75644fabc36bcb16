//! A read-only, zero-copy view of a flat binary matrix.
//!
//! The bytes of a file are taken as a sequence of rows, each row a fixed
//! number of elements of one plain-data type. Nothing is parsed or copied:
//! a row is a borrow of the bytes it occupies, handed out as a typed slice.
//!
//! * [`layout`] is the arithmetic: when a byte length splits into whole
//!   rows, how many there are, and where each one lies.
//! * [`cast`] is the one step that is not proved here, the reinterpretation
//!   of a byte span as a slice of elements.
//! * [`view`] is the matrix itself, indexable and walkable row by row.
pub mod cast;
pub mod layout;
pub mod view;

pub use cast::CastError;
pub use layout::LayoutError;
pub use view::{push_outcome, MatLEView, RowIter};
