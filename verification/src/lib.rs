//! A library for counting words in text files, file by file and line by
//! line.
//!
//! The heart of the library is the processing engine, [`TextProcessor`]: it
//! settles a batch from one outcome per requested file, merges the
//! successful outcomes into a results table keyed by path, and classifies
//! the batch as a success, a partial failure with an exact failed/total
//! tally, or a rejected empty request. The per-file work itself — counting
//! the words of each line and accumulating a total — is
//! [`FileProcessingResult`] and [`count_words`].

mod error;
mod processor;
mod table;
mod types;
mod utils;

pub use error::TextProcessorError;
pub use processor::FileOutcome;
pub use processor::TextProcessor;
pub use processor::failed_count;
pub use processor::lemma_batch_table_counts;
pub use processor::merged;
pub use processor::outcomes_wf;
pub use table::ResultsTable;
pub use types::FileProcessingResult;
pub use types::line_views;
pub use types::sum_counts;
pub use types::total_word_count;
pub use utils::count_words;
pub use utils::is_ws;
pub use utils::is_word_start;
pub use utils::lemma_word_count_le_len;
pub use utils::word_count;
