//! Row-level addressing over tabular data: an incremental newline-offset
//! index for growing byte streams, and a uniform row-range fetch abstraction
//! with a columnar (parquet) adapter.

pub mod columnar;
pub mod index;
pub mod source;

pub use columnar::ParquetFile;
pub use index::Index;
pub use index::Position;
pub use index::MAX_LINES_PER_UPDATE;
pub use source::DataSource;
pub use source::Error;
pub use source::RowBatch;
