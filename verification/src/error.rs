//! Errors that can occur during text processing.

use vstd::prelude::*;

verus! {

/// Errors that can occur during text processing.
#[derive(Debug)]
pub enum TextProcessorError {
    /// An open-time or read-time I/O fault on one file, with its message.
    IoError(String),
    /// The given path failed the existence probe.
    FileNotFound(String),
    /// No files were provided to process.
    EmptyFileList,
    /// `failed_count` out of the `total_count` requested files could not be
    /// processed.
    PartialProcessingFailure { failed_count: usize, total_count: usize },
}

} // verus!
