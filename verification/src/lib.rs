//! Remote data access and parallel aggregation for a depth-data query
//! engine: a seekable byte stream emulating random access over HTTP range
//! requests, a scatter-gather task abstraction that splits a genomic region
//! into independently fed partitions, and a histogram task as its concrete
//! instantiation.

pub mod histogram;
pub mod remote;
pub mod task;
