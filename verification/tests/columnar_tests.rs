use std::sync::Arc;

use arrow::array::{Array, ArrayRef, Int64Array};
use arrow::record_batch::RecordBatch;
use parquet::arrow::arrow_writer::ArrowWriter;
use parquet::file::properties::WriterProperties;
use rowindex::{DataSource, Error, ParquetFile};

fn sample_parquet(n_rows: i64, max_row_group_size: Option<usize>) -> Vec<u8> {
    let ids = Int64Array::from((0..n_rows).collect::<Vec<i64>>());
    let batch = RecordBatch::try_from_iter(vec![("id", Arc::new(ids) as ArrayRef)]).unwrap();
    let props = max_row_group_size.map(|n| {
        WriterProperties::builder()
            .set_max_row_group_row_count(Some(n))
            .build()
    });
    let mut buf: Vec<u8> = Vec::new();
    let mut writer = ArrowWriter::try_new(&mut buf, batch.schema(), props).unwrap();
    writer.write(&batch).unwrap();
    writer.close().unwrap();
    buf
}

fn id_values(batch: &RecordBatch) -> Vec<i64> {
    let col = batch.column(0);
    let ints = col.as_any().downcast_ref::<Int64Array>().unwrap();
    (0..ints.len()).map(|i| ints.value(i)).collect()
}

#[test]
fn fetch_all_rows_in_order() {
    let source = ParquetFile::new(sample_parquet(7, None)).unwrap();
    let n: usize = source.row_count().unwrap();
    assert_eq!(n, 7);
    let fetched = source.fetch_batch(0, n).unwrap();
    assert_eq!(fetched.num_rows(), 7);
    assert_eq!(id_values(&fetched.batch), vec![0, 1, 2, 3, 4, 5, 6]);
}

#[test]
fn fetch_window_returns_exactly_those_rows() {
    let source = ParquetFile::new(sample_parquet(9, None)).unwrap();
    let fetched = source.fetch_batch(2, 3).unwrap();
    assert_eq!(fetched.num_rows(), 3);
    assert_eq!(id_values(&fetched.batch), vec![2, 3, 4]);
}

#[test]
fn fetch_window_across_row_groups() {
    let source = ParquetFile::new(sample_parquet(7, Some(2))).unwrap();
    let fetched = source.fetch_batch(1, 5).unwrap();
    assert_eq!(fetched.num_rows(), 5);
    assert_eq!(id_values(&fetched.batch), vec![1, 2, 3, 4, 5]);
}

#[test]
fn row_count_is_stable_across_calls() {
    let source = ParquetFile::new(sample_parquet(4, None)).unwrap();
    assert_eq!(source.row_count().unwrap(), 4);
    let _ = source.fetch_batch(0, 4).unwrap();
    assert_eq!(source.row_count().unwrap(), 4);
}

#[test]
fn out_of_bounds_window_is_a_range_error() {
    let source = ParquetFile::new(sample_parquet(7, None)).unwrap();
    assert!(matches!(source.fetch_batch(5, 3), Err(Error::Range)));
    assert!(matches!(source.fetch_batch(0, 8), Err(Error::Range)));
    assert!(matches!(source.fetch_batch(8, 0), Err(Error::Range)));
}

#[test]
fn empty_window_is_an_empty_batch() {
    let source = ParquetFile::new(sample_parquet(5, None)).unwrap();
    let fetched = source.fetch_batch(3, 0).unwrap();
    assert_eq!(fetched.num_rows(), 0);
}

#[test]
fn garbage_bytes_are_a_format_error() {
    assert!(matches!(
        ParquetFile::new(vec![1, 2, 3, 4]),
        Err(Error::Format)
    ));
    assert!(matches!(ParquetFile::new(Vec::new()), Err(Error::Format)));
}
