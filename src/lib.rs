//! Streaming reader for FASTA sequence files.
//!
//! The reader is a state machine: the caller feeds it one line at a time
//! from whatever source it owns, and the reader decides when a record is
//! complete, when the input is malformed and when the stream has ended.
//! `record` holds the record type with its validation and formatting,
//! `header` the parsing of a header line, `fasta` the reader, and `laws`
//! what holds of whole runs of the reader.

pub mod fasta;
pub mod header;
pub mod laws;
pub mod record;

pub use fasta::{FastaReader, ReaderState, Step, StepModel};
pub use record::{CheckError, FastaSequence, RecordModel};
