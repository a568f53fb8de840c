//! The row-range source abstraction shared by every backend adapter, and the
//! error taxonomy of the library.

use vstd::prelude::*;
use arrow::record_batch::RecordBatch;

verus! {

/// How an operation of this library fails.
#[derive(Clone, Copy, Debug, PartialEq, Eq, Structural)]
pub enum Error {
    /// A requested line or row window lies outside the currently known
    /// bounds.
    Range,
    /// Stored columnar metadata or data is missing, malformed, or unreadable.
    Format,
}

/// One structured, typed batch of consecutive rows, as decoded by a backend.
/// The columns themselves are arrow data, opaque to this library's logic;
/// unverified callers reach them through the public `batch` field.
#[verifier::external_body]
pub struct RowBatch {
    /// The decoded arrow batch.
    pub batch: RecordBatch,
}

/// How many rows a batch holds.
pub uninterp spec fn batch_len(b: RowBatch) -> int;

/// An abstract encoding of row `j` of a batch: two equal encodings hold the
/// same row content. Contracts use it to say *which* source rows a batch
/// holds, and in what order, without modelling arrow's column data itself.
pub uninterp spec fn batch_row(b: RowBatch, j: int) -> int;

impl RowBatch {
    /// Relies on arrow's `RecordBatch::num_rows`: the number of rows in the
    /// batch.
    #[verifier::external_body]
    pub fn num_rows(&self) -> (r: usize)
        ensures
            r as int == batch_len(*self),
    {
        self.batch.num_rows()
    }
}

/// The uniform capability set over rows that every backend adapter
/// implements: ask how many rows there are, and fetch a contiguous window of
/// them as one structured batch, without format-specific logic in the
/// caller.
pub trait DataSource {
    /// The total number of rows this source knows about.
    spec fn rows(&self) -> int;

    /// Whether `row_count` is owed to succeed on this source.
    spec fn rows_known(&self) -> bool;

    /// Whether the backend can decode the window of `len` rows starting at
    /// row `offset` in full: an in-range fetch of such a window is owed to
    /// succeed, and only such fetches succeed.
    spec fn window_ok(&self, offset: int, len: int) -> bool;

    /// An abstract encoding of the source's row `i` (same reading as
    /// [`batch_row`]): what a fetched batch's rows are compared against.
    spec fn row_at(&self, i: int) -> int;

    /// The total number of rows known to the source.
    fn row_count(&self) -> (r: Result<usize, Error>)
        ensures
            r matches Ok(n) ==> n as int == self.rows(),
            self.rows_known() ==> r is Ok,
    ;

    /// Exactly the `len` consecutive rows starting at 0-based row `offset`,
    /// in original order, as one batch. A window that does not fit in the
    /// known row count is rejected with a range error, never handed to the
    /// decoder; an in-range window the backend can decode is owed to
    /// succeed, and a decode failure surfaces as a format error.
    fn fetch_batch(&self, offset: usize, len: usize) -> (r: Result<RowBatch, Error>)
        ensures
            (r matches Err(e) && e == Error::Range) <==> offset + len > self.rows(),
            r matches Err(e) ==> e == Error::Range || e == Error::Format,
            (offset + len <= self.rows() && self.window_ok(offset as int, len as int)) <==> r
                is Ok,
            r matches Ok(b) ==> batch_len(b) == len && (forall|j: int|
                0 <= j < len ==> #[trigger] batch_row(b, j) == self.row_at(offset + j)),
    ;
}

} // verus!
