//! UMI-based deduplication of paired-end FASTQ reads.
//!
//! The library holds the decisions of the pipeline: which pairs are kept,
//! dropped or split, which UMI bin a kept pair joins, and what each
//! collision-resolution policy writes. Reading and writing files is left to
//! the caller, who hands the library plain records and writes what it returns.

pub mod record;
pub mod primer;
pub mod classify;
pub mod distance;
pub mod votes;
pub mod bins;
pub mod policy;
pub mod handler;
pub mod laws;
pub mod runs;
