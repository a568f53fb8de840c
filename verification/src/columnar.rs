//! Columnar (parquet) row-range adapter.
//!
//! A [`ParquetFile`] implements the [`DataSource`] capability set over an
//! immutable parquet byte image. The total row count is read once from the
//! stored footer metadata and cached; every fetch builds a two-step
//! skip/decode row-selection plan so that only the requested window of rows
//! is decoded.

use vstd::prelude::*;
use crate::source::{batch_len, batch_row, DataSource, Error, RowBatch};
use arrow::array::RecordBatchReader;
use parquet::arrow::arrow_reader::{ParquetRecordBatchReaderBuilder, RowSelector};
use parquet::errors::ParquetError;
use parquet::file::reader::FileReader;
use parquet::file::serialized_reader::SerializedFileReader;

verus! {

#[verifier::external_type_specification]
#[verifier::external_body]
pub struct ExParquetError(ParquetError);

#[verifier::external_type_specification]
pub struct ExRowSelector(RowSelector);

/// The total row count stored in the footer metadata of a parquet byte
/// image; a function of the bytes alone.
pub uninterp spec fn parquet_row_count(data: Seq<u8>) -> int;

/// Whether the footer metadata of a parquet byte image can be read; a
/// function of the bytes alone.
pub uninterp spec fn parquet_footer_ok(data: Seq<u8>) -> bool;

/// An abstract encoding of the `i`-th stored row of a parquet byte image
/// (same reading as [`batch_row`]); a function of the bytes alone.
pub uninterp spec fn parquet_row(data: Seq<u8>, i: int) -> int;

/// Whether decoding the window of `take` rows after skipping the first
/// `skip` rows succeeds on a parquet byte image and yields the full window;
/// a function of the bytes and the window alone.
pub uninterp spec fn parquet_window_ok(data: Seq<u8>, skip: int, take: int) -> bool;

/// Relies on parquet's `SerializedFileReader::new` and
/// `FileMetaData::num_rows`: reading the footer succeeds exactly when the
/// bytes hold a readable footer, and then yields the stored row count; both
/// are functions of the in-memory bytes alone.
#[verifier::external_body]
fn read_row_count(data: &Vec<u8>) -> (r: Result<i64, ParquetError>)
    ensures
        r is Ok <==> parquet_footer_ok(data@),
        r matches Ok(n) ==> n as int == parquet_row_count(data@),
{
    let reader = SerializedFileReader::new(bytes::Bytes::copy_from_slice(data.as_slice()))?;
    Ok(reader.metadata().file_metadata().num_rows())
}

/// Relies on parquet's `ParquetRecordBatchReaderBuilder` with a
/// `RowSelection` built from `plan`, which decodes only the selected rows,
/// in order; the reader's batches are joined into one with arrow's
/// `concat_batches`. For a skip-then-select plan the decoded rows are the
/// image's stored rows from the skip point on, never more than selected (a
/// truncated image yields fewer), and the full window comes back exactly
/// when the window is decodable; none of this depends on the (positive)
/// batch size, which only chunks the reader's output.
#[verifier::external_body]
fn read_selected(data: &Vec<u8>, plan: Vec<RowSelector>, batch_size: usize) -> (r: Result<
    RowBatch,
    ParquetError,
>)
    requires
        plan@.len() == 2,
        plan@[0].skip,
        !plan@[1].skip,
        // parquet's selection-strategy chooser sums the plan's row counts;
        // a sum past usize::MAX would overflow there before any decoding.
        plan@[0].row_count + plan@[1].row_count <= usize::MAX,
        batch_size >= 1,
    ensures
        (match r {
            Ok(b) => batch_len(b) == plan@[1].row_count as int,
            Err(_) => false,
        }) <==> parquet_window_ok(
            data@,
            plan@[0].row_count as int,
            plan@[1].row_count as int,
        ),
        r matches Ok(b) ==> batch_len(b) <= plan@[1].row_count as int,
        r matches Ok(b) ==> forall|j: int|
            0 <= j < batch_len(b) ==> #[trigger] batch_row(b, j) == parquet_row(
                data@,
                plan@[0].row_count + j,
            ),
{
    let reader = ParquetRecordBatchReaderBuilder::try_new(
        bytes::Bytes::copy_from_slice(data.as_slice()),
    )?.with_batch_size(batch_size).with_row_selection(plan.into()).build()?;
    let schema = reader.schema();
    let mut batches = Vec::new();
    for batch in reader {
        batches.push(batch?);
    }
    let joined = arrow::compute::concat_batches(&schema, &batches).map_err(ParquetError::from)?;
    Ok(RowBatch { batch: joined })
}

/// The absolute indices of the rows that a selection plan decodes, when the
/// plan is applied starting at row `start`: a skip step passes over its rows,
/// a select step decodes them.
pub open spec fn plan_selected(plan: Seq<RowSelector>, start: int) -> Seq<int>
    decreases plan.len(),
{
    if plan.len() == 0 {
        Seq::empty()
    } else {
        let head = plan[0];
        let rest = plan_selected(plan.skip(1), start + head.row_count);
        if head.skip {
            rest
        } else {
            Seq::new(head.row_count as nat, |i: int| start + i) + rest
        }
    }
}

/// The two-step row-selection plan backing a windowed fetch: skip the first
/// `offset` rows without decoding them, then decode exactly the next `len`.
/// The plan selects exactly the rows `offset..offset + len`.
pub fn selection_plan(offset: usize, len: usize) -> (plan: Vec<RowSelector>)
    ensures
        plan@.len() == 2,
        plan@[0].skip && plan@[0].row_count == offset,
        !plan@[1].skip && plan@[1].row_count == len,
        plan_selected(plan@, 0) == Seq::new(len as nat, |i: int| offset + i),
{
    let mut plan: Vec<RowSelector> = Vec::new();
    plan.push(RowSelector { row_count: offset, skip: true });
    plan.push(RowSelector { row_count: len, skip: false });
    proof {
        let p = plan@;
        assert(p.skip(1).skip(1) =~= Seq::<RowSelector>::empty());
        assert(p.skip(1)[0] == p[1]);
        assert(plan_selected(p.skip(1).skip(1), offset + len) =~= Seq::<int>::empty());
        assert(plan_selected(p.skip(1), offset as int) =~= Seq::new(
            len as nat,
            |i: int| offset + i,
        ));
        assert(plan_selected(p, 0) =~= Seq::new(len as nat, |i: int| offset + i));
    }
    plan
}

/// A read-only columnar (parquet) row source: the encoded byte image and a
/// row count cached at open time. The image never changes after opening, so
/// the cached count stays accurate for the adapter's lifetime.
pub struct ParquetFile {
    data: Vec<u8>,
    n_rows: usize,
}

impl ParquetFile {
    /// The byte image this adapter reads from.
    pub closed spec fn source_bytes(&self) -> Seq<u8> {
        self.data@
    }

    /// Opens a parquet byte image: reads the stored row count once and
    /// caches it. Succeeds exactly when the footer metadata is readable and
    /// holds a row count that is neither negative nor too large for this
    /// machine; any failure is a format error.
    pub fn new(data: Vec<u8>) -> (r: Result<ParquetFile, Error>)
        ensures
            r is Ok <==> parquet_footer_ok(data@) && 0 <= parquet_row_count(data@) <= usize::MAX,
            r matches Ok(f) ==> f.rows() == parquet_row_count(data@) && f.source_bytes() == data@,
            r is Err ==> (r matches Err(e) && e == Error::Format),
    {
        match read_row_count(&data) {
            Ok(n) => {
                if n < 0 {
                    return Err(Error::Format);
                }
                let n64: u64 = n as u64;
                if n64 > usize::MAX as u64 {
                    return Err(Error::Format);
                }
                Ok(ParquetFile { data, n_rows: n64 as usize })
            }
            Err(_) => Err(Error::Format),
        }
    }
}

impl DataSource for ParquetFile {
    closed spec fn rows(&self) -> int {
        self.n_rows as int
    }

    open spec fn rows_known(&self) -> bool {
        true
    }

    open spec fn window_ok(&self, offset: int, len: int) -> bool {
        parquet_window_ok(self.source_bytes(), offset, len)
    }

    open spec fn row_at(&self, i: int) -> int {
        parquet_row(self.source_bytes(), i)
    }

    fn row_count(&self) -> (r: Result<usize, Error>) {
        Ok(self.n_rows)
    }

    fn fetch_batch(&self, offset: usize, len: usize) -> (r: Result<RowBatch, Error>) {
        if offset > self.n_rows || len > self.n_rows - offset {
            return Err(Error::Range);
        }
        let plan = selection_plan(offset, len);
        let batch_size: usize = if len == 0 {
            1
        } else {
            len
        };
        match read_selected(&self.data, plan, batch_size) {
            Ok(b) => {
                if b.num_rows() != len {
                    // The decoder handed back a different window than the
                    // plan selected: treat the data as malformed.
                    return Err(Error::Format);
                }
                Ok(b)
            }
            Err(_) => Err(Error::Format),
        }
    }
}

} // verus!
