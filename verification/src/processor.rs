//! The file processing engine.
//!
//! One unit of work runs per requested file and ends in an outcome: the
//! file's counts, or the error that stopped it. The engine owns what happens
//! next: it merges successful outcomes into its results table, counts the
//! failures, and classifies the batch — success, partial failure with an
//! exact failed/total tally, or a rejected empty request. The merge is
//! order-independent over distinct paths, so the units may finish in any
//! order.

use vstd::prelude::*;

use crate::error::TextProcessorError;
use crate::table::ResultsTable;
use crate::types::FileProcessingResult;

verus! {

/// The outcome of one per-file unit of work: the file's path, and either
/// its result or the error that stopped it.
pub type FileOutcome = (String, Result<FileProcessingResult, TextProcessorError>);

/// Every successful outcome carries a result that satisfies its invariant.
pub open spec fn outcomes_wf(outcomes: Seq<FileOutcome>) -> bool {
    forall|i: int|
        0 <= i < outcomes.len() ==> (#[trigger] outcomes[i].1 matches Ok(res) ==> res.wf())
}

/// The number of failed outcomes in a batch.
pub open spec fn failed_count(outcomes: Seq<FileOutcome>) -> nat
    decreases outcomes.len(),
{
    if outcomes.len() == 0 {
        0
    } else {
        failed_count(outcomes.drop_last()) + (if outcomes.last().1 is Err {
            1nat
        } else {
            0nat
        })
    }
}

/// The table after a batch: each successful outcome inserted under its
/// path, in batch order; failed outcomes leave the table unchanged.
pub open spec fn merged(
    table: Map<Seq<char>, (Seq<usize>, usize)>,
    outcomes: Seq<FileOutcome>,
) -> Map<Seq<char>, (Seq<usize>, usize)>
    decreases outcomes.len(),
{
    if outcomes.len() == 0 {
        table
    } else {
        let rest = merged(table, outcomes.drop_last());
        match outcomes.last().1 {
            Ok(res) => rest.insert(outcomes.last().0@, res@),
            Err(_) => rest,
        }
    }
}

/// The concurrent multi-file processing engine: accumulates per-file
/// results across batches and reports each batch's failure tally.
#[derive(Debug)]
pub struct TextProcessor {
    results: ResultsTable,
}

impl View for TextProcessor {
    type V = Map<Seq<char>, (Seq<usize>, usize)>;

    closed spec fn view(&self) -> Map<Seq<char>, (Seq<usize>, usize)> {
        self.results@
    }
}

impl Default for TextProcessor {
    /// The same engine as [`TextProcessor::new`]: an empty results table.
    fn default() -> (r: Self)
        ensures
            r.wf(),
            r@ == Map::<Seq<char>, (Seq<usize>, usize)>::empty(),
    {
        TextProcessor::new()
    }
}

impl TextProcessor {
    /// The engine's invariant: its results table is well formed.
    pub closed spec fn wf(self) -> bool {
        self.results.wf()
    }

    /// A new engine with an empty results table.
    pub fn new() -> (r: Self)
        ensures
            r.wf(),
            r@ == Map::<Seq<char>, (Seq<usize>, usize)>::empty(),
    {
        TextProcessor { results: ResultsTable::new() }
    }

    /// Settles a batch from its per-file outcomes, one per requested file.
    ///
    /// An empty batch is rejected outright as `EmptyFileList` and the table
    /// is left unchanged. Otherwise every successful outcome is inserted
    /// into the table under its path; the batch is a success when nothing
    /// failed, and otherwise fails with `PartialProcessingFailure` carrying
    /// the exact count of failed outcomes out of the total requested — also
    /// when everything failed.
    pub fn process_outcomes(&mut self, outcomes: Vec<FileOutcome>) -> (r: Result<
        (),
        TextProcessorError,
    >)
        requires
            old(self).wf(),
            outcomes_wf(outcomes@),
        ensures
            final(self).wf(),
            final(self)@ == merged(old(self)@, outcomes@),
            outcomes@.len() == 0 ==> final(self)@ == old(self)@ && r == Err::<
                (),
                TextProcessorError,
            >(TextProcessorError::EmptyFileList),
            outcomes@.len() > 0 && failed_count(outcomes@) == 0 ==> r == Ok::<
                (),
                TextProcessorError,
            >(()),
            outcomes@.len() > 0 && failed_count(outcomes@) > 0 ==> r == Err::<
                (),
                TextProcessorError,
            >(
                (TextProcessorError::PartialProcessingFailure {
                    failed_count: failed_count(outcomes@) as usize,
                    total_count: outcomes@.len() as usize,
                }),
            ),
    {
        let total_count = outcomes.len();
        let ghost all = outcomes@;
        if total_count == 0 {
            return Err(TextProcessorError::EmptyFileList);
        }
        let ghost init_map = self.results@;
        let mut rest = outcomes;
        let mut failed: usize = 0;
        let mut k: usize = 0;
        while k < total_count
            invariant
                total_count == all.len(),
                k <= total_count,
                rest@ == all.skip(k as int),
                outcomes_wf(all),
                failed == failed_count(all.take(k as int)),
                failed <= k,
                self.results.wf(),
                self.results@ == merged(init_map, all.take(k as int)),
            decreases total_count - k,
        {
            proof {
                assert(all.skip(k as int)[0] == all[k as int]);
                assert(all.take(k as int + 1).drop_last() =~= all.take(k as int));
                assert(all.take(k as int + 1).last() == all[k as int]);
                assert(all.skip(k as int).remove(0) =~= all.skip(k as int + 1));
            }
            let (path, outcome) = rest.remove(0);
            proof {
                assert(path == all[k as int].0 && outcome == all[k as int].1);
            }
            match outcome {
                Ok(res) => {
                    proof {
                        assert(all[k as int].1 matches Ok(r2) ==> r2.wf());
                        assert(res.wf());
                    }
                    self.results.insert(path, res);
                },
                Err(_) => {
                    failed = failed + 1;
                },
            }
            k = k + 1;
        }
        proof {
            assert(all.take(total_count as int) =~= all);
        }
        if failed > 0 {
            return Err(
                TextProcessorError::PartialProcessingFailure { failed_count: failed, total_count },
            );
        }
        Ok(())
    }

    /// The cumulative results table: one entry per successfully processed
    /// file, as of the most recent batch. The returned view is a function
    /// of the engine's state alone, so repeated reads agree.
    pub fn get_results(&self) -> (r: &ResultsTable)
        requires
            self.wf(),
        ensures
            r.wf(),
            r@ == self@,
    {
        &self.results
    }
}

/// What one batch does to the results table, when its paths are pairwise
/// distinct and none is in the table yet: the table gains exactly one entry
/// per successful outcome — for a batch of `N` outcomes of which `K`
/// failed, `N - K` new entries, and `N` on full success — and each new
/// entry maps its path to that file's counts. A failed path gains no entry,
/// entries already in the table are untouched, and nothing else appears.
pub proof fn lemma_batch_table_counts(
    table: Map<Seq<char>, (Seq<usize>, usize)>,
    outcomes: Seq<FileOutcome>,
)
    requires
        table.dom().finite(),
        forall|a: int, b: int|
            0 <= a < b < outcomes.len() ==> outcomes[a].0@ != outcomes[b].0@,
        forall|i: int|
            0 <= i < outcomes.len() ==> !table.contains_key(#[trigger] outcomes[i].0@),
    ensures
        merged(table, outcomes).dom().finite(),
        merged(table, outcomes).len() == table.len() + outcomes.len() - failed_count(outcomes),
        forall|i: int|
            0 <= i < outcomes.len() ==> (#[trigger] outcomes[i].1 matches Ok(res) ==> merged(
                table,
                outcomes,
            ).contains_key(outcomes[i].0@) && merged(table, outcomes)[outcomes[i].0@] == res@),
        forall|i: int|
            0 <= i < outcomes.len() && outcomes[i].1 is Err ==> !merged(
                table,
                outcomes,
            ).contains_key(#[trigger] outcomes[i].0@),
        forall|key: Seq<char>|
            #[trigger] table.contains_key(key) ==> merged(table, outcomes).contains_key(key)
                && merged(table, outcomes)[key] == table[key],
        forall|key: Seq<char>|
            #[trigger] merged(table, outcomes).contains_key(key) ==> table.contains_key(key)
                || exists|i: int|
                0 <= i < outcomes.len() && (#[trigger] outcomes[i].0@) == key && outcomes[i].1
                    is Ok,
    decreases outcomes.len(),
{
    if outcomes.len() == 0 {
    } else {
        let dl = outcomes.drop_last();
        let last = outcomes.last();
        let k = last.0@;
        assert(forall|i: int| 0 <= i < dl.len() ==> dl[i] == outcomes[i]);
        lemma_batch_table_counts(table, dl);
        let m1 = merged(table, dl);
        assert(!m1.contains_key(k)) by {
            if m1.contains_key(k) {
                assert(!table.contains_key(k));
                let i = choose|i: int|
                    0 <= i < dl.len() && (#[trigger] dl[i].0@) == k && dl[i].1 is Ok;
                assert(outcomes[i].0@ == outcomes[outcomes.len() - 1].0@);
                assert(false);
            }
        }
        match last.1 {
            Ok(res) => {
                assert(merged(table, outcomes) == m1.insert(k, res@));
                assert(failed_count(outcomes) == failed_count(dl));
                assert(forall|i: int|
                    0 <= i < outcomes.len() - 1 ==> (#[trigger] outcomes[i].0@) != k);
                assert forall|key: Seq<char>|
                    #[trigger] merged(table, outcomes).contains_key(key) implies table.contains_key(
                    key,
                ) || exists|i: int|
                    0 <= i < outcomes.len() && (#[trigger] outcomes[i].0@) == key && outcomes[i].1
                        is Ok by {
                    if key == k {
                        assert(outcomes[outcomes.len() - 1].0@ == key && outcomes[outcomes.len()
                            - 1].1 is Ok);
                    } else {
                        assert(m1.contains_key(key));
                        if !table.contains_key(key) {
                            let i = choose|i: int|
                                0 <= i < dl.len() && (#[trigger] dl[i].0@) == key && dl[i].1 is Ok;
                            assert(outcomes[i].0@ == key && outcomes[i].1 is Ok);
                        }
                    }
                }
            },
            Err(_) => {
                assert(merged(table, outcomes) == m1);
                assert(failed_count(outcomes) == failed_count(dl) + 1);
                assert forall|key: Seq<char>|
                    #[trigger] merged(table, outcomes).contains_key(key) implies table.contains_key(
                    key,
                ) || exists|i: int|
                    0 <= i < outcomes.len() && (#[trigger] outcomes[i].0@) == key && outcomes[i].1
                        is Ok by {
                    if !table.contains_key(key) {
                        let i = choose|i: int|
                            0 <= i < dl.len() && (#[trigger] dl[i].0@) == key && dl[i].1 is Ok;
                        assert(outcomes[i].0@ == key && outcomes[i].1 is Ok);
                    }
                }
            },
        }
    }
}

} // verus!
