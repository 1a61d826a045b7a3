use mfp::FileOutcome;
use mfp::FileProcessingResult;
use mfp::ResultsTable;
use mfp::TextProcessor;
use mfp::TextProcessorError;

/// Builds the lines of a file the way a line-by-line reader hands them out:
/// split at newlines, no trailing empty line, none at all for empty content.
fn lines_of(content: &str) -> Vec<String> {
    content.lines().map(|l| l.to_string()).collect()
}

/// The outcome of a unit of work that read `content` under `path`.
fn ok_outcome(path: &str, content: &str) -> FileOutcome {
    (
        path.to_string(),
        Ok(FileProcessingResult::from_lines(&lines_of(content))),
    )
}

/// The outcome of a unit of work whose path failed the existence probe.
fn missing_outcome(path: &str) -> FileOutcome {
    (
        path.to_string(),
        Err(TextProcessorError::FileNotFound(path.to_string())),
    )
}

/// Everything the table holds, in table order.
fn snapshot(table: &ResultsTable) -> Vec<(String, Vec<usize>, usize)> {
    let mut all = Vec::new();
    for i in 0..table.len() {
        let (path, result) = table.entry_at(i);
        all.push((path.clone(), result.line_counts.clone(), result.total_words));
    }
    all
}

#[test]
fn test_new_processor_creates_empty_results() {
    let processor = TextProcessor::new();
    assert!(processor.get_results().is_empty());
}

#[test]
fn test_default_processor_is_empty() {
    let processor = TextProcessor::default();
    assert!(processor.get_results().is_empty());
}

#[test]
fn test_process_empty_file_returns_zero_counts() {
    let result = FileProcessingResult::from_lines(&lines_of(""));
    assert_eq!(result.line_counts.len(), 0);
    assert_eq!(result.total_words, 0);
}

#[test]
fn test_process_multiline_file_counts_correctly() {
    let content = "one two\nthree four five\nsix";
    let result = FileProcessingResult::from_lines(&lines_of(content));
    assert_eq!(result.line_counts, vec![2, 3, 1]);
    assert_eq!(result.total_words, 6);
}

#[test]
fn test_nonexistent_file_returns_error() {
    let mut processor = TextProcessor::new();
    let result = processor.process_outcomes(vec![missing_outcome("nonexistent.txt")]);
    assert!(matches!(
        result,
        Err(TextProcessorError::PartialProcessingFailure {
            failed_count: 1,
            total_count: 1,
        })
    ));
    assert!(processor.get_results().is_empty());
}

#[test]
fn test_empty_input_returns_error() {
    let mut processor = TextProcessor::new();
    let result = processor.process_outcomes(vec![]);
    assert!(matches!(result, Err(TextProcessorError::EmptyFileList)));
}

#[test]
fn test_process_multiple_files_successful() {
    let mut processor = TextProcessor::new();
    let result = processor.process_outcomes(vec![
        ok_outcome("file1.txt", "one two"),
        ok_outcome("file2.txt", "three"),
    ]);

    assert!(result.is_ok());
    let results = processor.get_results();
    assert_eq!(results.len(), 2);
    assert_eq!(
        results.get(&"file1.txt".to_string()).unwrap().total_words,
        2
    );
    assert_eq!(
        results.get(&"file2.txt".to_string()).unwrap().total_words,
        1
    );
}

#[test]
fn test_partial_processing_failure() {
    let mut processor = TextProcessor::new();
    let result = processor.process_outcomes(vec![
        ok_outcome("valid.txt", "content"),
        missing_outcome("nonexistent.txt"),
    ]);

    assert!(matches!(
        result,
        Err(TextProcessorError::PartialProcessingFailure {
            failed_count: 1,
            total_count: 2,
        })
    ));
    let results = processor.get_results();
    assert_eq!(results.len(), 1);
    assert_eq!(results.get(&"valid.txt".to_string()).unwrap().total_words, 1);
    assert!(results.get(&"nonexistent.txt".to_string()).is_none());
}

#[test]
fn test_total_failure_reported_with_full_tally() {
    let mut processor = TextProcessor::new();
    let result = processor.process_outcomes(vec![
        missing_outcome("a.txt"),
        (
            "b.txt".to_string(),
            Err(TextProcessorError::IoError(
                "device not ready".to_string(),
            )),
        ),
    ]);

    assert!(matches!(
        result,
        Err(TextProcessorError::PartialProcessingFailure {
            failed_count: 2,
            total_count: 2,
        })
    ));
    assert!(processor.get_results().is_empty());
}

#[test]
fn test_empty_batch_leaves_results_unchanged() {
    let mut processor = TextProcessor::new();
    processor
        .process_outcomes(vec![ok_outcome("kept.txt", "still here")])
        .unwrap();

    let result = processor.process_outcomes(vec![]);
    assert!(matches!(result, Err(TextProcessorError::EmptyFileList)));
    let results = processor.get_results();
    assert_eq!(results.len(), 1);
    assert_eq!(results.get(&"kept.txt".to_string()).unwrap().total_words, 2);
}

#[test]
fn test_get_results_is_idempotent() {
    let mut processor = TextProcessor::new();
    processor
        .process_outcomes(vec![
            ok_outcome("one.txt", "a b c"),
            ok_outcome("two.txt", "d\ne f"),
        ])
        .unwrap();

    let first = snapshot(processor.get_results());
    let second = snapshot(processor.get_results());
    assert_eq!(first, second);
}

#[test]
fn test_results_accumulate_across_batches() {
    let mut processor = TextProcessor::new();
    processor
        .process_outcomes(vec![ok_outcome("first.txt", "one")])
        .unwrap();
    processor
        .process_outcomes(vec![ok_outcome("second.txt", "two words")])
        .unwrap();

    let results = processor.get_results();
    assert_eq!(results.len(), 2);
    assert_eq!(results.get(&"first.txt".to_string()).unwrap().total_words, 1);
    assert_eq!(
        results.get(&"second.txt".to_string()).unwrap().total_words,
        2
    );
}

#[test]
fn test_reprocessing_a_path_replaces_its_entry() {
    let mut processor = TextProcessor::new();
    processor
        .process_outcomes(vec![ok_outcome("again.txt", "one two three")])
        .unwrap();
    processor
        .process_outcomes(vec![ok_outcome("again.txt", "one")])
        .unwrap();

    let results = processor.get_results();
    assert_eq!(results.len(), 1);
    assert_eq!(results.get(&"again.txt".to_string()).unwrap().total_words, 1);
}

#[test]
fn test_line_counts_sum_to_total() {
    let content = "alpha beta\n\ngamma delta epsilon\nzeta";
    let result = FileProcessingResult::from_lines(&lines_of(content));
    assert_eq!(result.line_counts, vec![2, 0, 3, 1]);
    let sum: usize = result.line_counts.iter().sum();
    assert_eq!(result.total_words, sum);
    assert_eq!(result.total_words, 6);
}

#[test]
fn test_add_line_streams_like_from_lines() {
    let mut streamed = FileProcessingResult::new();
    streamed.add_line("one two");
    streamed.add_line("");
    streamed.add_line("three");

    let batched = FileProcessingResult::from_lines(&lines_of("one two\n\nthree"));
    assert_eq!(streamed.line_counts, batched.line_counts);
    assert_eq!(streamed.total_words, batched.total_words);
    assert_eq!(streamed.total_words, 3);
}
