//! Columnar row batches in an Arrow-like layout and read-only row cursors over them;
//! the pull protocol of batch executors with its row-limiting decorator; evaluation
//! settings for truncation and overflow; and the request-level decisions of result
//! caching and response assembly.

pub mod bitmap;
pub mod bytes;
pub mod chunk;
pub mod column;
pub mod ctx;
pub mod dag;
pub mod datum;
pub mod error;
pub mod executor;
pub mod row_codec;
pub mod types;
