//! Shape-aware, bounds-checked views over matrix storage.
//!
//! Four view families share one pattern: a small metadata record (shape,
//! stride, offsets) paired with a borrowed or owned element buffer, where
//! every access validates its indices before any address is computed.
//!
//! - [`dense::Mat`]: a matrix over contiguous row-major storage.
//! - [`strided::SubMat`]: a matrix whose rows are spaced by a stride that may
//!   exceed the column count, so that sub-matrices are views, not copies.
//! - [`row::Row`] and [`col::Col`]: one-dimensional views into a single row
//!   (contiguous) or column (one element per stride) of a matrix.
//! - [`sparse::Mat`]: an owning sparse matrix in compressed row storage,
//!   with borrowed row and row-range views over the same arrays.
//!
//! Sub-views always borrow from their parent's storage; only [`sparse::Mat`]
//! owns its buffers, and it releases them exactly once when it is dropped.

use vstd::prelude::*;

pub mod col;
pub mod dense;
pub mod row;
pub mod sparse;
pub mod strided;
pub mod text;

verus! {

/// Everything that can go wrong when constructing or reading a view.
///
/// Every failure is immediate and local: it reports a caller error (bad
/// indices, malformed construction input), never a transient condition.
#[derive(Clone, Copy, Debug, PartialEq, Eq, Structural)]
pub enum MatError {
    /// Malformed construction input: a buffer length that does not match the
    /// requested shape, or inconsistent compressed-row offsets.
    ShapeError,
    /// An out-of-range row, column or element index.
    IndexError,
    /// An inverted or out-of-bounds slice range.
    RangeError,
    /// A sparse element that is not explicitly stored.
    NotFoundError,
}

} // verus!
